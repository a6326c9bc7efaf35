use mini_codex::deepseek::profile;
use mini_codex::deepseek::supports_model;
use mini_codex::profile::profile_for_model;
use mini_codex::profile::supported_models;
use mini_codex::profile::ModelProfile;
use mini_codex::types::ToolCall;
use mini_codex::types::ToolCallDecodings;

fn decode_tool_call(text: &str) -> Result<ToolCall, String> {
    let value: serde_json::Value = serde_json::from_str(text).map_err(|e| e.to_string())?;
    let object = value
        .as_object()
        .ok_or_else(|| "expected a JSON object".to_string())?;
    let field = |name: &str| -> Result<String, String> {
        match object.get(name) {
            None => Ok(String::new()),
            Some(serde_json::Value::String(s)) => Ok(s.clone()),
            Some(_) => Err(format!("invalid type for field `{name}`")),
        }
    };
    let tool = match object.get("tool") {
        Some(serde_json::Value::String(s)) => s.clone(),
        Some(_) => return Err("invalid type for field `tool`".to_string()),
        None => return Err("missing field `tool`".to_string()),
    };
    Ok(ToolCall {
        tool,
        cmd: field("cmd")?,
        cwd: field("cwd")?,
        path: field("path")?,
        content: field("content")?,
        old: field("old")?,
        new: field("new")?,
    })
}

fn record_all(decodings: &mut ToolCallDecodings, texts: Vec<String>) {
    for text in texts {
        let decoded = decode_tool_call(&text);
        decodings.record(text, decoded);
    }
}

fn sanitize(profile: &ModelProfile, plan: &str) -> String {
    let mut decodings = ToolCallDecodings::new();
    let first = profile.plan_json_candidates(plan, &decodings);
    record_all(&mut decodings, first);
    let second = profile.plan_json_candidates(plan, &decodings);
    record_all(&mut decodings, second);
    profile.sanitize_plan_response(plan, &decodings)
}

fn shell_call(cwd: &str) -> ToolCall {
    ToolCall {
        tool: "shell".to_string(),
        cmd: "cat hello.txt".to_string(),
        cwd: cwd.to_string(),
        path: String::new(),
        content: String::new(),
        old: String::new(),
        new: String::new(),
    }
}

#[test]
fn supports_deepseek_r1_models() {
    assert!(supports_model("deepseek-r1:14b"));
    assert!(supports_model("deepseek-r1:32b"));
    assert!(!supports_model("qwen3-coder"));
}

#[test]
fn write_file_block_content_drops_structural_leading_newline() {
    let profile = profile();

    assert_eq!(
        profile.normalize_write_file_block_content("\nhello\n"),
        "hello\n"
    );
}

#[test]
fn write_file_block_content_drops_structural_leading_windows_newline() {
    let profile = profile();

    assert_eq!(
        profile.normalize_write_file_block_content("\r\nhello\r\n"),
        "hello\r\n"
    );
}

#[test]
fn write_file_block_content_preserves_inline_content() {
    let profile = profile();

    assert_eq!(
        profile.normalize_write_file_block_content("hello\n"),
        "hello\n"
    );
}

#[test]
fn write_file_block_content_drops_only_one_newline() {
    let profile = profile();
    assert_eq!(profile.normalize_write_file_block_content("\n\nhello"), "\nhello");
    assert_eq!(profile.normalize_write_file_block_content(""), "");
}

#[test]
fn plan_sanitizer_removes_tool_syntax_from_deepseek_style_plan() {
    let profile = profile();
    let plan = r#"**Implementation Plan:**

1. Create a file.

<write_file path="hello.txt">
deepseek smoke test
</write_file>

{"tool":"shell","cmd":"cat hello.txt"}
"#;

    let sanitized = sanitize(&profile, plan);

    assert!(sanitized.contains("Implementation Plan"));
    assert!(!sanitized.contains("<write_file"));
    assert!(!sanitized.contains("deepseek smoke test"));
    assert!(!sanitized.contains(r#""tool":"shell""#));
}

#[test]
fn plan_sanitizer_removes_fenced_shell_commands() {
    let profile = profile();
    let plan = r#"**Implementation Plan:**

Download the page:

```bash
curl -o page.html https://example.com
```

Then parse it.
"#;

    let sanitized = sanitize(&profile, plan);

    assert!(sanitized.contains("Implementation Plan"));
    assert!(sanitized.contains("Then parse it"));
    assert!(!sanitized.contains("```bash"));
    assert!(!sanitized.contains("curl -o page.html"));
}

#[test]
fn plan_sanitizer_removes_fenced_json_tool_call_and_keeps_other_fences() {
    let profile = profile();
    let plan = "Plan:\n```json\n{\"tool\":\"read_file\",\"path\":\"a.txt\"}\n```\n```json\n{\"name\":\"x\"}\n```\n<read_file path=\"b.txt\"/>\nDone.";
    let sanitized = sanitize(&profile, plan);
    assert_eq!(sanitized, "Plan:\n\n```json\n{\"name\":\"x\"}\n```\nDone.");
}

#[test]
fn tool_result_followup_keeps_original_request_visible() {
    let profile = profile();

    let followup = profile.tool_result_followup(
        "Extract the page title",
        "tool_call_1:\nwrote_file: page.html",
    );

    assert!(followup.contains("Original request:"));
    assert!(followup.contains("Extract the page title"));
    assert!(followup.contains("Tool results:"));
    assert!(followup.contains("wrote_file: page.html"));
}

#[test]
fn tool_result_followup_has_exact_text() {
    let profile = profile();
    assert_eq!(
        profile.tool_result_followup("req", "res"),
        "Original request:\nreq\n\nTool results:\nres\n\nContinue the original request. If any remaining step requires a tool, output only the next tool call."
    );
}

#[test]
fn tool_call_drops_missing_shell_cwd() {
    let profile = profile();
    let tool_call = ToolCall {
        tool: "shell".to_string(),
        cmd: "cat hello.txt".to_string(),
        cwd: "hello-agent".to_string(),
        path: String::new(),
        content: String::new(),
        old: String::new(),
        new: String::new(),
    };

    assert_eq!(
        profile.shell_cwd_to_check(&tool_call, "/tmp").as_deref(),
        Some("/tmp/hello-agent")
    );
    let normalized = profile.normalize_tool_call(tool_call, false);

    assert_eq!(normalized.cwd, "");
}

#[test]
fn tool_call_preserves_existing_absolute_shell_cwd() {
    let profile = profile();
    let workspace = "/tmp/mini-codex-deepseek-absolute-cwd";
    let tool_call = shell_call(workspace);

    assert_eq!(
        profile.shell_cwd_to_check(&tool_call, workspace).as_deref(),
        Some(workspace)
    );
    let normalized = profile.normalize_tool_call(tool_call, true);

    assert_eq!(normalized.cwd, workspace.to_string());
}

#[test]
fn blank_cwd_and_other_tools_are_not_checked() {
    let profile = profile();
    assert_eq!(profile.shell_cwd_to_check(&shell_call("  "), "/tmp"), None);
    let mut read = shell_call("missing");
    read.tool = "read_file".to_string();
    assert_eq!(profile.shell_cwd_to_check(&read, "/tmp"), None);
    let kept = profile.normalize_tool_call(read, false);
    assert_eq!(kept.cwd, "missing");
}

#[test]
fn loads_deepseek_profile() {
    let profile = profile_for_model("deepseek-r1:14b").unwrap();

    assert_eq!(profile.id, "deepseek-r1");
}

#[test]
fn rejects_models_without_specialized_profile() {
    let error = profile_for_model("qwen3-coder").unwrap_err().message();

    assert!(error.contains("unsupported model"));
    assert!(error.contains("deepseek-r1"));
}

#[test]
fn unsupported_model_message_is_exact() {
    let error = profile_for_model("llama3").unwrap_err();
    assert_eq!(error.model, "llama3");
    assert_eq!(
        error.message(),
        "unsupported model `llama3`. Mini Codex currently supports only models with specialized profiles: deepseek-r1"
    );
    assert_eq!(supported_models(), vec!["deepseek-r1"]);
}

#[test]
fn system_prompt_joins_trimmed_parts() {
    let profile = profile();
    let prompt = profile.system_prompt("  base prompt \n");
    assert!(prompt.starts_with("base prompt\n\n"));
    assert!(prompt.ends_with(profile.system_prompt_addendum.trim()));
    assert_eq!(profile.plan_prompt(), profile.plan_prompt);
    assert_eq!(profile.execute_plan_prompt(), profile.execute_plan_prompt);
}

#[test]
fn plain_plan_is_only_trimmed() {
    let profile = profile();
    let plan = "\n  1. Read the file.\n2. Summarize it.  \n\n";
    assert_eq!(sanitize(&profile, plan), plan.trim());
    let cleaned = sanitize(&profile, "x\n<tool_call>{}</tool_call>\n  ");
    assert_eq!(cleaned, cleaned.trim());
}
