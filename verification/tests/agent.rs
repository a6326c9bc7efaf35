use mini_codex::agent::accept_plan;
use mini_codex::agent::add_request;
use mini_codex::agent::classify_input;
use mini_codex::agent::request_plan;
use mini_codex::agent::start_conversation;
use mini_codex::agent::take_answer;
use mini_codex::agent::AgentTurn;
use mini_codex::agent::AnswerAction;
use mini_codex::agent::InputAction;
use mini_codex::agent::MAX_TOOL_TURNS;
use mini_codex::cli::approval_granted;
use mini_codex::cli::flag_value;
use mini_codex::cli::parse_workspace_args;
use mini_codex::cli::ArgError;
use mini_codex::cli::WorkspaceArg;
use mini_codex::cli::USAGE;
use mini_codex::deepseek::profile;
use mini_codex::parser::tool_call_json_candidates;
use mini_codex::session::timestamp_from;
use mini_codex::session::unix_timestamp_secs;
use mini_codex::tools::list_dir_listing;
use mini_codex::tools::shell_cwd;
use mini_codex::tools::tool_kind;
use mini_codex::tools::ToolKind;
use mini_codex::types::ExecutedCommand;
use mini_codex::types::ToolCall;
use mini_codex::types::ToolCallDecodings;
use mini_codex::types::ToolOutcome;
use mini_codex::workspace::AppConfig;

fn decode_tool_call(text: &str) -> Result<ToolCall, String> {
    let value: serde_json::Value = serde_json::from_str(text).map_err(|e| e.to_string())?;
    let object = value
        .as_object()
        .ok_or_else(|| "expected a JSON object".to_string())?;
    let field = |name: &str| -> Result<String, String> {
        match object.get(name) {
            None => Ok(String::new()),
            Some(serde_json::Value::String(s)) => Ok(s.clone()),
            Some(_) => Err(format!("invalid type for field `{name}`")),
        }
    };
    let tool = match object.get("tool") {
        Some(serde_json::Value::String(s)) => s.clone(),
        Some(_) => return Err("invalid type for field `tool`".to_string()),
        None => return Err("missing field `tool`".to_string()),
    };
    Ok(ToolCall {
        tool,
        cmd: field("cmd")?,
        cwd: field("cwd")?,
        path: field("path")?,
        content: field("content")?,
        old: field("old")?,
        new: field("new")?,
    })
}

fn decodings_for(answer: &str) -> ToolCallDecodings {
    let mut decodings = ToolCallDecodings::new();
    for text in tool_call_json_candidates(answer) {
        let decoded = decode_tool_call(&text);
        decodings.record(text, decoded);
    }
    decodings
}

fn args(list: &[&str]) -> Vec<String> {
    list.iter().map(|s| s.to_string()).collect()
}

fn failed(cmd: &str) -> ToolOutcome {
    ToolOutcome {
        result: "failed".to_string(),
        changed_file: None,
        command: Some(ExecutedCommand {
            cmd: cmd.to_string(),
            cwd: "/w".to_string(),
            success: false,
        }),
    }
}

#[test]
fn input_lines_are_classified() {
    assert_eq!(classify_input("   "), InputAction::Ignore);
    assert_eq!(classify_input(" /exit "), InputAction::Quit);
    assert_eq!(classify_input("/quit"), InputAction::Quit);
    assert_eq!(classify_input("/exit now"), InputAction::Request);
    assert_eq!(classify_input("build it"), InputAction::Request);
}

#[test]
fn conversation_starts_with_system_prompt_and_plan() {
    let profile = profile();
    let mut messages = start_conversation(&profile);
    assert_eq!(messages.len(), 1);
    assert_eq!(messages[0].role, "system");
    assert!(messages[0].content.starts_with("You are Mini Codex, a local coding assistant."));
    assert!(messages[0].content.ends_with("unless the user explicitly asked for them."));
    add_request(&mut messages, "make a file");
    request_plan(&profile, &mut messages);
    assert_eq!(messages[2].role, "user");
    assert_eq!(messages[2].content, profile.plan_prompt);
    let raw = "Plan:\n<read_file path=\"a\"/>\n1. Write it.";
    let plan = accept_plan(&profile, &mut messages, raw, &ToolCallDecodings::new());
    assert_eq!(plan, "Plan:\n1. Write it.");
    assert_eq!(messages.len(), 5);
    assert_eq!(messages[3].role, "assistant");
    assert_eq!(messages[3].content, plan);
    assert_eq!(messages[4].content, profile.execute_plan_prompt);
}

#[test]
fn answers_lead_to_tools_feedback_or_the_end() {
    let profile = profile();
    let mut messages = start_conversation(&profile);
    let answer = "<read_file path=\"README.md\"/>";
    match take_answer(&profile, &decodings_for(answer), answer, &mut messages).unwrap() {
        AnswerAction::RunTools(calls) => {
            assert_eq!(calls.len(), 1);
            assert_eq!(calls[0].path, "README.md");
        }
        other => panic!("unexpected {other:?}"),
    }
    assert_eq!(messages.len(), 2);
    assert_eq!(messages[1].role, "assistant");
    let ask = "Tool call: BeautifulSoup";
    assert!(matches!(
        take_answer(&profile, &decodings_for(ask), ask, &mut messages).unwrap(),
        AnswerAction::AskAgain
    ));
    assert_eq!(messages.len(), 4);
    assert!(messages[3].content.contains("unsupported tool"));
    let done = "All done.";
    assert!(matches!(
        take_answer(&profile, &decodings_for(done), done, &mut messages).unwrap(),
        AnswerAction::Finish
    ));
    assert_eq!(messages.len(), 5);
    assert_eq!(messages[4].content, "All done.");
    let bad = "<tool_call>oops</tool_call>";
    assert!(take_answer(&profile, &decodings_for(bad), bad, &mut messages).is_err());
    assert_eq!(messages.len(), 5);
}

#[test]
fn turn_allows_twelve_model_calls() {
    let mut turn = AgentTurn::new();
    for _ in 0..MAX_TOOL_TURNS {
        assert!(turn.begin_model_call());
    }
    assert!(!turn.begin_model_call());
    assert!(!turn.begin_model_call());
}

#[test]
fn turn_reports_outcomes_and_stops_at_third_failure() {
    let profile = profile();
    let mut messages = start_conversation(&profile);
    let mut turn = AgentTurn::new();
    let batch = vec![failed("npm install")];
    assert!(turn.has_room_for(batch.len()));
    assert_eq!(turn.take_outcomes(&profile, "req", &batch, &mut messages), None);
    assert_eq!(messages.len(), 2);
    assert!(messages[1].content.starts_with("Original request:\nreq\n\nTool results:\nfailed\n\n"));
    assert!(messages[1].content.contains("One or more commands failed."));
    assert!(!messages[1].content.contains("Repeated failure guidance"));
    assert_eq!(turn.take_outcomes(&profile, "req", &batch, &mut messages), None);
    assert!(messages[2].content.contains("`npm install` failed 2 times"));
    assert_eq!(
        turn.take_outcomes(&profile, "req", &batch, &mut messages).as_deref(),
        Some("npm install")
    );
}

#[test]
fn command_line_decisions() {
    assert!(approval_granted(" yes\n"));
    assert!(approval_granted("Y"));
    assert!(!approval_granted("no"));
    assert!(!approval_granted("Yes"));
    assert!(flag_value(Some("1"), false));
    assert!(flag_value(Some("TRUE"), false));
    assert!(!flag_value(Some("True"), true));
    assert!(!flag_value(Some("0"), true));
    assert!(flag_value(None, true));
    assert!(!flag_value(None, false));
}

#[test]
fn workspace_arguments_are_parsed() {
    match parse_workspace_args(&args(&["--workspace", "/a", "-w", "/b"])).unwrap() {
        WorkspaceArg::Dir(dir) => assert_eq!(dir.as_deref(), Some("/b")),
        WorkspaceArg::Help => panic!("help"),
    }
    match parse_workspace_args(&args(&[])).unwrap() {
        WorkspaceArg::Dir(dir) => assert_eq!(dir, None),
        WorkspaceArg::Help => panic!("help"),
    }
    assert!(matches!(parse_workspace_args(&args(&["-h", "--bogus"])).unwrap(), WorkspaceArg::Help));
    let missing = parse_workspace_args(&args(&["-w"])).unwrap_err();
    assert!(matches!(missing, ArgError::MissingValue(_)));
    assert_eq!(missing.message(), "-w requires a directory");
    let unknown = parse_workspace_args(&args(&["--verbose"])).unwrap_err();
    assert_eq!(unknown.message(), "unknown argument: --verbose");
    assert_eq!(USAGE, "Usage: mini-codex [--workspace DIR]");
}

#[test]
fn tools_are_dispatched_by_name() {
    assert_eq!(tool_kind("shell").unwrap(), ToolKind::Shell);
    assert_eq!(tool_kind("read_file").unwrap(), ToolKind::ReadFile);
    assert_eq!(tool_kind("write_file").unwrap(), ToolKind::WriteFile);
    assert_eq!(tool_kind("patch_file").unwrap(), ToolKind::PatchFile);
    assert_eq!(tool_kind("list_dir").unwrap(), ToolKind::ListDir);
    let err = tool_kind("browser").unwrap_err();
    assert_eq!(err.message(), "unsupported tool: browser");
}

#[test]
fn shell_cwd_defaults_to_workspace() {
    let config = AppConfig::new("/w".to_string());
    assert_eq!(config.session_log_path, "/w/.mini-codex/session.jsonl");
    assert_eq!(shell_cwd(&config, "  ", None).unwrap(), "/w");
    assert_eq!(shell_cwd(&config, "app", None).unwrap(), "/w/app");
    assert!(shell_cwd(&config, "../x", None).is_err());
}

#[test]
fn directory_listing_is_sorted_whatever_the_read_order() {
    let a = vec![
        ("src".to_string(), true),
        ("Cargo.toml".to_string(), false),
        ("README.md".to_string(), false),
    ];
    let b = vec![
        ("README.md".to_string(), false),
        ("src".to_string(), true),
        ("Cargo.toml".to_string(), false),
    ];
    let expected = "list_dir: /w\nCargo.toml\nREADME.md\nsrc/";
    assert_eq!(list_dir_listing("/w", &a), expected);
    assert_eq!(list_dir_listing("/w", &b), expected);
    assert_eq!(list_dir_listing("/w", &Vec::new()), "list_dir: /w\n");
}

#[test]
fn timestamps_come_from_the_clock() {
    assert_eq!(timestamp_from(Some(42)), 42);
    assert_eq!(timestamp_from(None), 0);
    assert!(unix_timestamp_secs() > 1_600_000_000);
}
