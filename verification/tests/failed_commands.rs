use mini_codex::failures::repeated_failed_command_guidance;
use mini_codex::failures::repeated_failed_command_to_stop;
use mini_codex::failures::FailedCommandCounts;
use mini_codex::types::ExecutedCommand;
use mini_codex::types::ToolOutcome;

fn failed(cmd: &str) -> ToolOutcome {
    ToolOutcome {
        result: "failed".to_string(),
        changed_file: None,
        command: Some(ExecutedCommand {
            cmd: cmd.to_string(),
            cwd: "/tmp/project".to_string(),
            success: false,
        }),
    }
}

#[test]
fn repeated_failed_command_guidance_warns_on_second_failure() {
    let mut counts = FailedCommandCounts::new();
    let outcomes = vec![ToolOutcome {
        result: "failed".to_string(),
        changed_file: None,
        command: Some(ExecutedCommand {
            cmd: "npm install".to_string(),
            cwd: "/tmp/project".to_string(),
            success: false,
        }),
    }];

    assert_eq!(
        repeated_failed_command_guidance(&outcomes, &mut counts, 3),
        ""
    );
    let guidance = repeated_failed_command_guidance(&outcomes, &mut counts, 3);

    assert!(guidance.contains("failed 2 times"));
    assert!(guidance.contains("Do not repeat the same failed command"));
}

#[test]
fn repeated_failed_command_stops_at_limit() {
    let mut counts = FailedCommandCounts::new();
    counts.insert("npm install".to_string(), 3);

    assert_eq!(
        repeated_failed_command_to_stop(&counts, 3).as_deref(),
        Some("npm install")
    );
}

#[test]
fn repeated_guidance_has_exact_text() {
    let mut counts = FailedCommandCounts::new();
    let outcomes = vec![failed("cargo build"), failed("cargo build")];
    let guidance = repeated_failed_command_guidance(&outcomes, &mut counts, 3);
    assert_eq!(
        guidance,
        "\n\nRepeated failure guidance:\n- Do not repeat the same failed command. `cargo build` failed 2 times\n- Fix the root cause first by reading or patching the relevant file, then run a different validation command. The turn will stop after 3 repeats of the same failed command."
    );
    assert_eq!(counts.count("cargo build"), 2);
}

#[test]
fn counts_equal_number_of_failures_and_stop_at_limit() {
    let mut counts = FailedCommandCounts::new();
    let batch = vec![failed("a"), failed("b"), failed("a")];
    let _ = repeated_failed_command_guidance(&batch, &mut counts, 3);
    assert_eq!(counts.count("a"), 2);
    assert_eq!(counts.count("b"), 1);
    assert_eq!(counts.count("c"), 0);
    assert_eq!(repeated_failed_command_to_stop(&counts, 3), None);
    let _ = repeated_failed_command_guidance(&[failed("b"), failed("a")], &mut counts, 3);
    assert_eq!(counts.count("a"), 3);
    assert_eq!(counts.count("b"), 2);
    assert_eq!(repeated_failed_command_to_stop(&counts, 3).as_deref(), Some("a"));
}

#[test]
fn successful_commands_are_not_counted() {
    let mut counts = FailedCommandCounts::new();
    let ok = ToolOutcome {
        result: "ok".to_string(),
        changed_file: None,
        command: Some(ExecutedCommand {
            cmd: "ls".to_string(),
            cwd: "/tmp".to_string(),
            success: true,
        }),
    };
    let g1 = repeated_failed_command_guidance(&[ok], &mut counts, 3);
    assert_eq!(g1, "");
    assert_eq!(counts.count("ls"), 0);
    assert!(counts.has_room_for(10));
}

#[test]
fn stop_command_is_first_to_reach_limit_in_failure_order() {
    let mut counts = FailedCommandCounts::new();
    counts.insert("first".to_string(), 5);
    counts.insert("second".to_string(), 4);
    assert_eq!(repeated_failed_command_to_stop(&counts, 4).as_deref(), Some("first"));
    assert_eq!(repeated_failed_command_to_stop(&counts, 6), None);
    assert_eq!(counts.max_count() >= 5, true);
}
