use mini_codex::workspace::has_long_running_marker;
use mini_codex::diff::apply_patch;
use mini_codex::diff::changed_char_count;
use mini_codex::diff::patch_hint_for_overwrite;
use mini_codex::diff::preview;
use mini_codex::diff::simple_diff;
use mini_codex::diff::wrote_file_outcome;
use mini_codex::diff::PatchError;
use mini_codex::guidance::blocked_shell_outcome;
use mini_codex::guidance::finished_shell_outcome;
use mini_codex::guidance::format_tool_results;
use mini_codex::guidance::label_outcome;
use mini_codex::guidance::patched_file_outcome;
use mini_codex::guidance::read_file_outcome;
use mini_codex::guidance::stdout_has_content;
use mini_codex::guidance::timed_out_shell_outcome;
use mini_codex::guidance::tool_result_guidance;
use mini_codex::guidance::turn_summary;
use mini_codex::guidance::unchanged;
use mini_codex::types::ChangedFile;
use mini_codex::types::ExecutedCommand;
use mini_codex::types::ToolOutcome;
use mini_codex::workspace::is_likely_long_running_shell_command;
use mini_codex::workspace::shell_timeout_secs;
use mini_codex::workspace::validate_shell_command;
use mini_codex::workspace::workspace_path;
use mini_codex::workspace::AppConfig;
use mini_codex::workspace::PathError;
use mini_codex::workspace::ShellRejection;
use mini_codex::workspace::DEFAULT_SHELL_TIMEOUT_SECS;
use mini_codex::workspace::LONG_RUNNING_SHELL_TIMEOUT_SECS;

fn command_outcome(result: &str, cmd: &str, cwd: &str, success: bool) -> ToolOutcome {
    ToolOutcome {
        result: result.to_string(),
        changed_file: None,
        command: Some(ExecutedCommand {
            cmd: cmd.to_string(),
            cwd: cwd.to_string(),
            success,
        }),
    }
}

fn test_config() -> AppConfig {
    AppConfig {
        workspace: "/tmp/mini-codex-test-workspace".to_string(),
        session_log_path: "/tmp/mini-codex-test-workspace/.mini-codex/session.jsonl".to_string(),
    }
}

#[test]
fn tool_result_guidance_warns_after_failed_html_shell_command() {
    let outcomes = vec![ToolOutcome {
        result: "failed".to_string(),
        changed_file: None,
        command: Some(ExecutedCommand {
            cmd: "grep -P '<h1.*?>' page.html".to_string(),
            cwd: "/tmp/workspace".to_string(),
            success: false,
        }),
    }];

    let guidance = tool_result_guidance(&outcomes);

    assert!(guidance.contains("Do not repeat failed commands unchanged"));
    assert!(guidance.contains("For HTML parsing"));
    assert!(guidance.contains("python3"));
}

#[test]
fn tool_result_guidance_warns_after_failed_cargo_build() {
    let outcomes = vec![ToolOutcome {
        result: "error[E0432]: unresolved import".to_string(),
        changed_file: None,
        command: Some(ExecutedCommand {
            cmd: "cargo build".to_string(),
            cwd: "/tmp/workspace/hello-agent".to_string(),
            success: false,
        }),
    }];

    let guidance = tool_result_guidance(&outcomes);

    assert!(guidance.contains("For failed Rust builds"));
    assert!(guidance.contains("patch the compile errors"));
}

#[test]
fn tool_result_guidance_warns_after_blocked_command() {
    let outcomes = vec![ToolOutcome {
        result: "blocked_command: rm -rf meu-react-app".to_string(),
        changed_file: None,
        command: Some(ExecutedCommand {
            cmd: "rm -rf meu-react-app".to_string(),
            cwd: "/tmp/workspace".to_string(),
            success: false,
        }),
    }];

    let guidance = tool_result_guidance(&outcomes);

    assert!(guidance.contains("blocked for safety"));
    assert!(guidance.contains("Do not repeat it"));
}

#[test]
fn tool_result_guidance_warns_after_cd_and_failed_npm_dev() {
    let outcomes = vec![
        ToolOutcome {
            result: "ok".to_string(),
            changed_file: None,
            command: Some(ExecutedCommand {
                cmd: "cd meu-react-app".to_string(),
                cwd: "/tmp/mini-codex-react-test".to_string(),
                success: true,
            }),
        },
        ToolOutcome {
            result: "npm ERR! Missing script: \"dev\"".to_string(),
            changed_file: None,
            command: Some(ExecutedCommand {
                cmd: "npm run dev".to_string(),
                cwd: "/tmp/mini-codex-react-test".to_string(),
                success: false,
            }),
        },
    ];

    let guidance = tool_result_guidance(&outcomes);

    assert!(guidance.contains("Do not use cd"));
    assert!(guidance.contains("Do not use npm run dev for validation"));
    assert!(guidance.contains("workspace root"));
}

#[test]
fn tool_result_guidance_warns_after_npm_json_parse_error() {
    let outcomes = vec![ToolOutcome {
        result: "npm ERR! code EJSONPARSE\nnpm ERR! package.json must be actual JSON".to_string(),
        changed_file: None,
        command: Some(ExecutedCommand {
            cmd: "cd meu-react-app && npm install".to_string(),
            cwd: "/tmp/mini-codex-react-test".to_string(),
            success: false,
        }),
    }];

    let guidance = tool_result_guidance(&outcomes);

    assert!(guidance.contains("invalid package.json JSON"));
    assert!(guidance.contains("Do not run npm install again yet"));
    assert!(guidance.contains("workspace root"));
}

#[test]
fn tool_result_guidance_stops_when_successful_stdout_has_answer() {
    let outcomes = vec![ToolOutcome {
        result: "cwd: /tmp/workspace\nexit_status: exit status: 0\nstdout:\ntitle>Artificial intelligence in marketing - Wikipedia\nstderr:\n".to_string(),
        changed_file: None,
        command: Some(ExecutedCommand {
            cmd: "grep -Eo '<title>.*</title>' page.html".to_string(),
            cwd: "/tmp/workspace".to_string(),
            success: true,
        }),
    }];

    let guidance = tool_result_guidance(&outcomes);

    assert!(guidance.contains("stdout already contains the requested answer"));
    assert!(guidance.contains("stop calling tools"));
}

#[test]
fn stdout_has_content_detects_non_empty_stdout_section() {
    assert!(stdout_has_content(
        "cwd: /tmp\nexit_status: exit status: 0\nstdout:\nanswer\nstderr:\n"
    ));
    assert!(!stdout_has_content(
        "cwd: /tmp\nexit_status: exit status: 0\nstdout:\n\nstderr:\n"
    ));
}

#[test]
fn stdout_without_stderr_marker_and_without_section() {
    assert!(stdout_has_content("stdout:\n  x  "));
    assert!(!stdout_has_content("no section here"));
    assert!(!stdout_has_content("stdout:\n   \n\t"));
}

#[test]
fn dev_server_commands_get_short_timeout() {
    assert_eq!(
        shell_timeout_secs("npm run dev"),
        LONG_RUNNING_SHELL_TIMEOUT_SECS
    );
    assert_eq!(
        shell_timeout_secs("npm install"),
        DEFAULT_SHELL_TIMEOUT_SECS
    );
}

#[test]
fn long_running_detection_ignores_case() {
    assert!(is_likely_long_running_shell_command("NPM START"));
    assert!(is_likely_long_running_shell_command("cd x && Cargo Watch -x run"));
    assert!(!is_likely_long_running_shell_command("npm test"));
    assert_eq!(shell_timeout_secs("VITE --HOST"), 10);
    assert_eq!(shell_timeout_secs("ls"), 120);
}

#[test]
fn tool_result_guidance_is_empty_without_commands() {
    let outcomes = vec![ToolOutcome {
        result: "read_file".to_string(),
        changed_file: None,
        command: None,
    }];

    assert_eq!(tool_result_guidance(&outcomes), "");
}

#[test]
fn tool_result_guidance_has_exact_text_for_success() {
    let outcomes = vec![command_outcome("cwd: /w\nexit_status: 0\nstdout:\n\nstderr:\n", "ls", "/w", true)];
    assert_eq!(
        tool_result_guidance(&outcomes),
        "\n\nExecution guidance:\n- Do not repeat successful setup commands unless their output is missing or the file changed."
    );
}

#[test]
fn workspace_path_accepts_absolute_path_inside_workspace() {
    let config = test_config();

    let resolved = workspace_path(
        &config,
        "/tmp/mini-codex-test-workspace",
        Some("/tmp/mini-codex-test-workspace"),
    )
    .unwrap();

    assert_eq!(resolved, config.workspace);
}

#[test]
fn workspace_path_rejects_absolute_path_outside_workspace() {
    let config = test_config();

    let error = workspace_path(&config, "/tmp", Some("/tmp")).unwrap_err();

    assert!(error.message().contains("escapes workspace"));
}

#[test]
fn workspace_path_joins_relative_paths_and_refuses_parent_segments() {
    let config = test_config();
    assert_eq!(
        workspace_path(&config, "src/main.rs", None).unwrap(),
        "/tmp/mini-codex-test-workspace/src/main.rs"
    );
    let error = workspace_path(&config, "src/../../etc/passwd", None).unwrap_err();
    assert!(matches!(error, PathError::ParentDirNotAllowed(_)));
    assert_eq!(
        error.message(),
        "parent directory segments are not allowed: src/../../etc/passwd"
    );
    let error = workspace_path(&config, "/etc/passwd", None).unwrap_err();
    assert_eq!(error.message(), "failed to resolve /etc/passwd");
    let sibling = workspace_path(
        &config,
        "/tmp/mini-codex-test-workspace-other",
        Some("/tmp/mini-codex-test-workspace-other"),
    );
    assert!(matches!(sibling, Err(PathError::EscapesWorkspace(_))));
}

#[test]
fn shell_commands_are_validated() {
    assert!(validate_shell_command("cargo build").is_ok());
    let empty = validate_shell_command("   ").unwrap_err();
    assert!(matches!(empty, ShellRejection::Empty));
    assert_eq!(empty.message(), "empty shell command");
    let rm = validate_shell_command("  rm -rf target ").unwrap_err();
    assert_eq!(
        rm.message(),
        "refusing potentially destructive command: rm -rf target"
    );
    assert!(validate_shell_command("git reset --hard HEAD").is_err());
    assert!(validate_shell_command("echo hi > /dev/null").is_err());
}

#[test]
fn outcomes_are_labeled_and_joined() {
    let a = label_outcome(0, unchanged("first".to_string()));
    let b = label_outcome(1, read_file_outcome("/w/a.txt", "hello"));
    assert_eq!(a.result, "tool_call_1:\nfirst");
    assert_eq!(b.result, "tool_call_2:\nread_file: /w/a.txt\n\nhello");
    assert_eq!(
        format_tool_results(&[a, b]),
        "tool_call_1:\nfirst\n\ntool_call_2:\nread_file: /w/a.txt\n\nhello"
    );
    assert_eq!(format_tool_results(&[]), "");
}

#[test]
fn shell_outcomes_have_exact_text() {
    let blocked = blocked_shell_outcome(
        "/w".to_string(),
        "sudo ls".to_string(),
        &validate_shell_command("sudo ls").unwrap_err(),
    );
    assert_eq!(
        blocked.result,
        "cwd: /w\nblocked_command: sudo ls\nstdout:\n\nstderr:\nrefusing potentially destructive command: sudo ls"
    );
    assert!(!blocked.command.as_ref().unwrap().success);
    let timed = timed_out_shell_outcome("/w".to_string(), "npm start".to_string(), 10);
    assert_eq!(
        timed.result,
        "cwd: /w\ntimed_out_after_secs: 10\nstdout:\n\nstderr:\nCommand did not finish before the timeout. It may be a long-running server command."
    );
    let done = finished_shell_outcome(
        "/w".to_string(),
        "ls".to_string(),
        "exit status: 0",
        true,
        "a\n",
        "",
    );
    assert_eq!(done.result, "cwd: /w\nexit_status: exit status: 0\nstdout:\na\n\nstderr:\n");
    assert!(done.command.as_ref().unwrap().success);
}

#[test]
fn turn_summary_lists_changes_and_commands() {
    let outcomes = vec![
        patched_file_outcome("/w/a.rs".to_string()),
        command_outcome("x", "cargo build", "/w", false),
    ];
    assert_eq!(
        turn_summary(&outcomes).unwrap(),
        "Summary:\n- patched /w/a.rs\n- command `cargo build` failed in /w\n\nChanged files:\n- patched /w/a.rs\n\n"
    );
    assert_eq!(turn_summary(&[unchanged("x".to_string())]), None);
    let only_command = vec![command_outcome("x", "ls", "/w", true)];
    assert_eq!(
        turn_summary(&only_command).unwrap(),
        "Summary:\n- command `ls` succeeded in /w\n\n"
    );
}

#[test]
fn preview_truncates_and_marks_empty() {
    assert_eq!(preview("   \n"), "<empty>");
    assert_eq!(preview("abc"), "abc");
    let long = "x".repeat(2001);
    let p = preview(&long);
    assert_eq!(p, format!("{}\n... <truncated>", "x".repeat(2000)));
    assert_eq!(p.chars().count(), 2016);
}

#[test]
fn simple_diff_compares_line_by_line() {
    assert_eq!(simple_diff("a\nb", "a\nb"), "  <no changes>");
    assert_eq!(
        simple_diff("a\nb\nc", "a\nx"),
        "--- before\n+++ after\n  a\n- b\n+ x\n- c"
    );
    assert_eq!(simple_diff("", "new"), "--- before\n+++ after\n+ new");
}

#[test]
fn simple_diff_is_cut_after_120_lines() {
    let before = (0..200).map(|i| format!("b{i}")).collect::<Vec<_>>().join("\n");
    let after = (0..200).map(|i| format!("a{i}")).collect::<Vec<_>>().join("\n");
    let diff = simple_diff(&before, &after);
    let lines = diff.lines().collect::<Vec<_>>();
    assert_eq!(lines.len(), 121);
    assert_eq!(*lines.last().unwrap(), "... <diff truncated>");
}

#[test]
fn changed_char_count_measures_the_middle() {
    assert_eq!(changed_char_count("hello world", "hello there world"), 6);
    assert_eq!(changed_char_count("same", "same"), 0);
    assert_eq!(changed_char_count("abc", "xyz"), 3);
    assert_eq!(changed_char_count("aaa", "aa"), 1);
}

#[test]
fn patch_hint_for_small_edits_only() {
    let previous = "x".repeat(1000);
    let mut next = previous.clone();
    next.push_str("y");
    assert_eq!(
        patch_hint_for_overwrite(&previous, &next, "/w/f.txt").as_deref(),
        Some("hint: this looks like a small edit to /w/f.txt. Prefer patch_file next time.")
    );
    assert_eq!(patch_hint_for_overwrite(&previous, &previous, "/w/f.txt"), None);
    assert_eq!(patch_hint_for_overwrite("", "abc", "/w/f.txt"), None);
    let other = "z".repeat(1000);
    assert_eq!(patch_hint_for_overwrite(&previous, &other, "/w/f.txt"), None);
}

#[test]
fn wrote_file_outcome_reports_previous_content() {
    let new_file = wrote_file_outcome("/w/a.txt".to_string(), None, "hi");
    assert_eq!(new_file.result, "wrote_file: /w/a.txt");
    let changed = new_file.changed_file.unwrap();
    assert_eq!(changed.action, "wrote");
    assert_eq!(changed.path, "/w/a.txt");
    let overwrite = wrote_file_outcome("/w/a.txt".to_string(), Some("old"), "new");
    assert_eq!(
        overwrite.result,
        "wrote_file: /w/a.txt\nprevious_content_preview:\nold\nhint: this looks like a small edit to /w/a.txt. Prefer patch_file next time."
    );
}

#[test]
fn patches_replace_the_first_occurrence() {
    assert_eq!(apply_patch("a b a", "a", "c").unwrap(), "c b a");
    assert_eq!(apply_patch("keep", "keep", "keep").unwrap(), "keep");
    let empty = apply_patch("abc", "", "x").unwrap_err();
    assert!(matches!(empty, PatchError::EmptyOld));
    assert_eq!(empty.message("/w/f"), "patch_file old text must not be empty");
    let missing = apply_patch("abc", "zz", "x").unwrap_err();
    assert!(matches!(missing, PatchError::OldNotFound));
    assert_eq!(missing.message("/w/f"), "old text not found in /w/f");
}

#[test]
fn changed_file_struct_is_plain_data() {
    let f = ChangedFile { action: "patched".to_string(), path: "/w/x".to_string() };
    let o = ToolOutcome { result: String::new(), changed_file: Some(f), command: None };
    assert_eq!(turn_summary(&[o]).unwrap(), "Summary:\n- patched /w/x\n\nChanged files:\n- patched /w/x\n\n");
}

#[test]
fn changed_char_count_is_symmetric_and_bounded_below() {
    assert_eq!(changed_char_count("abc", "abcdef"), 3);
    assert_eq!(changed_char_count("abcdef", "abc"), 3);
    assert_eq!(changed_char_count("xay", "xby"), changed_char_count("xby", "xay"));
    assert!(changed_char_count("ab", "ba") > 0);
}

#[test]
fn guidance_names_success_and_failure_bullets() {
    let both = vec![
        command_outcome("x", "ls", "/w", true),
        command_outcome("y", "make", "/w", false),
    ];
    let guidance = tool_result_guidance(&both);
    assert!(guidance.starts_with("\n\nExecution guidance:\n- "));
    assert!(guidance.contains("Do not repeat successful setup commands"));
    assert!(guidance.contains("One or more commands failed"));
    let failed_only = vec![command_outcome("y", "make", "/w", false)];
    assert!(!tool_result_guidance(&failed_only).contains("Do not repeat successful setup commands"));
}

#[test]
fn diff_headers_and_line_count() {
    let diff = simple_diff("a", "b");
    assert!(diff.starts_with("--- before\n+++ after"));
    let before = (0..500).map(|i| format!("b{i}")).collect::<Vec<_>>().join("\n");
    let after = (0..10).map(|i| format!("a{i}")).collect::<Vec<_>>().join("\n");
    assert!(simple_diff(&before, &after).split('\n').count() <= 122);
}

#[test]
fn long_running_marker_on_lowercased_text() {
    assert!(has_long_running_marker("npm run dev"));
    assert!(!has_long_running_marker("NPM RUN DEV"));
    assert!(is_likely_long_running_shell_command("NPM RUN DEV"));
}
