use mini_codex::parser::is_shell_language;
use mini_codex::parser::asks_for_missing_tool;
use mini_codex::deepseek::language_listed;
use mini_codex::parser::looks_like_unsupported_tool_request;
use mini_codex::parser::parse_fenced_shell_tool_calls;
use mini_codex::parser::parse_lenient_shell_json_tool_call;
use mini_codex::parser::parse_malformed_write_file_call;
use mini_codex::parser::parse_tool_calls;
use mini_codex::parser::parse_write_file_blocks;
use mini_codex::parser::parse_xml_style_named_tool_calls;
use mini_codex::parser::parse_xml_style_tool_calls;
use mini_codex::parser::tool_call_json_candidates;
use mini_codex::parser::unsupported_tool_feedback;
use mini_codex::parser::ParseError;
use mini_codex::profile::profile_for_model;
use mini_codex::profile::ModelProfile;
use mini_codex::scan::extract_attr;
use mini_codex::scan::AttrError;
use mini_codex::scan::FieldError;
use mini_codex::scan::extract_json_string_field;
use mini_codex::scan::looks_like_json_tool_call;
use mini_codex::types::ToolCall;
use mini_codex::types::ToolCallDecodings;

fn decode_tool_call(text: &str) -> Result<ToolCall, String> {
    let value: serde_json::Value = serde_json::from_str(text).map_err(|e| e.to_string())?;
    let object = value
        .as_object()
        .ok_or_else(|| "expected a JSON object".to_string())?;
    let field = |name: &str| -> Result<String, String> {
        match object.get(name) {
            None => Ok(String::new()),
            Some(serde_json::Value::String(s)) => Ok(s.clone()),
            Some(_) => Err(format!("invalid type for field `{name}`")),
        }
    };
    let tool = match object.get("tool") {
        Some(serde_json::Value::String(s)) => s.clone(),
        Some(_) => return Err("invalid type for field `tool`".to_string()),
        None => return Err("missing field `tool`".to_string()),
    };
    Ok(ToolCall {
        tool,
        cmd: field("cmd")?,
        cwd: field("cwd")?,
        path: field("path")?,
        content: field("content")?,
        old: field("old")?,
        new: field("new")?,
    })
}

fn parse(answer: &str, profile: &ModelProfile) -> Result<Vec<ToolCall>, ParseError> {
    let mut decodings = ToolCallDecodings::new();
    for text in tool_call_json_candidates(answer) {
        let decoded = decode_tool_call(&text);
        decodings.record(text, decoded);
    }
    parse_tool_calls(answer, profile, &decodings)
}

fn chars(s: &str) -> Vec<char> {
    s.chars().collect()
}

#[test]
fn detects_beautifulsoup_as_unsupported_tool_request() {
    let answer = r#"To parse the HTML file, the next tool needed would be:

**Tool Call:**
```python
BeautifulSoup
```
"#;

    assert!(looks_like_unsupported_tool_request(answer));
}

#[test]
fn plain_answer_is_not_an_unsupported_tool_request() {
    assert!(!looks_like_unsupported_tool_request(
        "The command succeeded and no further steps are needed."
    ));
}

#[test]
fn unsupported_tool_detection_needs_both_parts() {
    assert!(looks_like_unsupported_tool_request("TOOL CALL: BeautifulSoup will do"));
    assert!(looks_like_unsupported_tool_request("tool_calls: [{\"parser\": 1}]"));
    assert!(!looks_like_unsupported_tool_request("tool call without anything else"));
    assert!(!looks_like_unsupported_tool_request("beautifulsoup alone"));
    assert!(unsupported_tool_feedback().starts_with("The previous response requested an unsupported tool."));
}

#[test]
fn parses_multiple_line_delimited_json_tool_calls() {
    let profile = profile_for_model("deepseek-r1:14b").unwrap();
    let answer = r#"{"tool":"shell","cmd":"curl \"https://example.com\" --output page.html"}
{"tool":"shell","cmd":"grep -o '<h1.*>' page.html"}
"#;

    let tool_calls = parse(answer, &profile).unwrap();

    assert_eq!(tool_calls.len(), 2);
    assert_eq!(tool_calls[0].tool, "shell");
    assert!(tool_calls[0].cmd.contains("curl"));
    assert!(tool_calls[1].cmd.contains("grep"));
}

#[test]
fn parses_lenient_shell_json_tool_call_with_unescaped_inner_quotes() {
    let profile = profile_for_model("deepseek-r1:14b").unwrap();
    let answer = r#"{"tool":"shell","cmd":"grep -o '<h1.*class=\"firstHeading\">.*</h1>' page.html; egrep '(?<=<h1 class="firstHeading">)(.*)(?=</h1>)' page.html"}"#;

    let tool_calls = parse(answer, &profile).unwrap();

    assert_eq!(tool_calls.len(), 1);
    assert_eq!(tool_calls[0].tool, "shell");
    assert!(tool_calls[0].cmd.contains("firstHeading"));
    assert!(tool_calls[0].cmd.contains("egrep"));
}

#[test]
fn parses_fenced_bash_as_shell_tool_call() {
    let profile = profile_for_model("deepseek-r1:14b").unwrap();
    let answer = r#"Here is the tool call:
```bash
curl -o page.html https://example.com
```
"#;

    let tool_calls = parse(answer, &profile).unwrap();

    assert_eq!(tool_calls.len(), 1);
    assert_eq!(tool_calls[0].tool, "shell");
    assert_eq!(tool_calls[0].cmd, "curl -o page.html https://example.com");
}

#[test]
fn fenced_bash_json_tool_call_is_not_duplicated_as_shell() {
    let profile = profile_for_model("deepseek-r1:14b").unwrap();
    let answer = r#"Here is the tool call:
```bash
{"tool":"read_file","path":"page.html"}
```
"#;

    let tool_calls = parse(answer, &profile).unwrap();

    assert_eq!(tool_calls.len(), 1);
    assert_eq!(tool_calls[0].tool, "read_file");
    assert_eq!(tool_calls[0].path, "page.html");
}

#[test]
fn malformed_fenced_tool_calls_json_does_not_crash_parser() {
    let profile = profile_for_model("deepseek-r1:14b").unwrap();
    let answer = r#"```json
{
  "tool_calls": [
    {
      "tool": "parser",
      "args": {
        "command": "parser.sh --process-html wikipedia.html"
      }
    }
  ]
}
```"#;

    let tool_calls = parse(answer, &profile).unwrap();

    assert!(tool_calls.is_empty());
    assert!(looks_like_unsupported_tool_request(answer));
}

#[test]
fn parses_tagged_blocks_and_reports_malformed_ones() {
    let profile = profile_for_model("deepseek-r1:14b").unwrap();
    let answer = "<tool_call>\n{\"tool\":\"shell\",\"cmd\":\"pwd\",\"cwd\":\"app\"}\n</tool_call>\n<tool_call>{\"tool\":\"list_dir\",\"path\":\".\"}</tool_call>";
    let calls = parse(answer, &profile).unwrap();
    assert_eq!(calls.len(), 2);
    assert_eq!(calls[0].cmd, "pwd");
    assert_eq!(calls[0].cwd, "app");
    assert_eq!(calls[1].tool, "list_dir");
    let bad = parse("<tool_call>not json</tool_call>", &profile).unwrap_err();
    assert!(matches!(bad, ParseError::MalformedToolCall(_, _)));
    assert_eq!(bad.message(), "malformed tool call: not json");
    assert_eq!(bad.cause(), decode_tool_call("not json").unwrap_err());
    assert!(!bad.cause().is_empty());
}

#[test]
fn parses_write_file_blocks_and_xml_calls_together() {
    let profile = profile_for_model("deepseek-r1:14b").unwrap();
    let answer = "<write_file path=\"hello.txt\">\nhello\n</write_file>\n<read_file path=\"README.md\"/>\n<shell cmd=\"cargo run\" cwd=\"hello-agent\"/>";
    let calls = parse(answer, &profile).unwrap();
    assert_eq!(calls.len(), 3);
    assert_eq!(calls[0].tool, "write_file");
    assert_eq!(calls[0].path, "hello.txt");
    assert_eq!(calls[0].content, "hello\n");
    assert_eq!(calls[1].tool, "read_file");
    assert_eq!(calls[1].path, "README.md");
    assert_eq!(calls[2].tool, "shell");
    assert_eq!(calls[2].cmd, "cargo run");
    assert_eq!(calls[2].cwd, "hello-agent");
    let missing = parse("<write_file name=\"x\">y</write_file>", &profile).unwrap_err();
    assert_eq!(missing.message(), "missing path in write_file tag: <write_file name=\"x\">");
    assert_eq!(missing.cause(), "attribute not found: path");
    let open_value = parse("<write_file path=\"x>y</write_file>", &profile).unwrap_err();
    assert_eq!(open_value.cause(), "unterminated attribute: path");
}

#[test]
fn parses_whole_answer_and_malformed_write_file() {
    let profile = profile_for_model("deepseek-r1:14b").unwrap();
    let calls = parse("  {\n\"tool\": \"read_file\", \"path\": \"a.txt\"\n}  ", &profile).unwrap();
    assert_eq!(calls.len(), 1);
    assert_eq!(calls[0].path, "a.txt");
    let malformed = r#"{"tool":"write_file","path":"a.txt","content"="line1\nline2 \"q\""}"#;
    let calls = parse(malformed, &profile).unwrap();
    assert_eq!(calls.len(), 1);
    assert_eq!(calls[0].tool, "write_file");
    assert_eq!(calls[0].path, "a.txt");
    assert_eq!(calls[0].content, "line1\nline2 \"q\"");
    let no_path = parse(r#"{"tool":"write_file","content"="x"}"#, &profile).unwrap_err();
    assert!(matches!(no_path, ParseError::MissingMalformedWriteFilePath(_, _)));
    assert_eq!(no_path.cause(), "field not found: path");
    let numeric = parse(r#"{"tool":"write_file","path":1,"content"="x"}"#, &profile).unwrap_err();
    assert_eq!(numeric.cause(), "field is not a string: path");
    assert!(parse("Just prose.", &profile).unwrap().is_empty());
}

#[test]
fn scanning_helpers() {
    assert_eq!(extract_attr(&chars("<shell cmd=\"ls -l\"/>"), "cmd").unwrap(), chars("ls -l"));
    assert_eq!(
        extract_attr(&chars(r#"<read_file path="README.md"/>"#), "path").unwrap(),
        chars("README.md")
    );
    let unterminated = extract_attr(&chars(r#"<x path="abc"#), "path").unwrap_err();
    assert!(matches!(unterminated, AttrError::Unterminated(_)));
    assert_eq!(unterminated.message(), "unterminated attribute: path");
    let not_found = extract_attr(&chars("<read_file/>"), "path").unwrap_err();
    assert!(matches!(not_found, AttrError::NotFound(_)));
    assert_eq!(not_found.message(), "attribute not found: path");
    assert_eq!(
        extract_json_string_field(&chars(r#"{"path":"a\tb\"c\\d\q"}"#), "path").unwrap(),
        chars("a\tb\"c\\d\\q")
    );
    assert_eq!(
        extract_json_string_field(&chars(r#"{"path":"a\"b\\c\nd\qe"}"#), "path").unwrap(),
        chars("a\"b\\c\nd\\qe")
    );
    let missing = extract_json_string_field(&chars(r#"{"x":1}"#), "path").unwrap_err();
    assert!(matches!(missing, FieldError::NotFound(_)));
    assert_eq!(missing.message(), "field not found: path");
    let number = extract_json_string_field(&chars(r#"{"path":1}"#), "path").unwrap_err();
    assert!(matches!(number, FieldError::NotAString(_)));
    assert_eq!(number.message(), "field is not a string: path");
    let open = extract_json_string_field(&chars(r#"{"path":"ab"#), "path").unwrap_err();
    assert!(matches!(open, FieldError::Unterminated(_)));
    assert_eq!(open.message(), "unterminated string field: path");
    assert!(looks_like_json_tool_call(&chars(" {\"tool\":\"x\"} ")));
    assert!(!looks_like_json_tool_call(&chars("{\"cmd\":\"x\"}")));
}

#[test]
fn parser_pieces_match_their_contracts() {
    let profile = profile_for_model("deepseek-r1:14b").unwrap();
    let lenient = parse_lenient_shell_json_tool_call(&chars(r#"{"tool":"shell","cmd":"echo \"a\" \\ b"}"#)).unwrap();
    assert_eq!(lenient.cmd, "echo \"a\" \\ b");
    assert!(parse_lenient_shell_json_tool_call(&chars(r#"{"tool":"read_file"}"#)).is_none());
    let shells = parse_fenced_shell_tool_calls(&chars("```SH\nls\n```\n```sh\n\n```\n```python\nx\n```"));
    assert_eq!(shells.len(), 1);
    assert_eq!(shells[0].cmd, "ls");
    let xml = parse_xml_style_tool_calls(&chars("<list_dir path=\"src\"/> <read_file path=\"a\"/>"));
    assert_eq!(xml.len(), 2);
    assert_eq!(xml[0].tool, "read_file");
    assert_eq!(xml[1].tool, "list_dir");
    let named = parse_xml_style_named_tool_calls(&chars("<shell cmd=\"a\"/><shell cmd=\"b\"/>"), "shell");
    assert_eq!(named.len(), 2);
    assert_eq!(named[1].cmd, "b");
    let blocks = parse_write_file_blocks(&chars("<write_file path=\"p\">\r\nx</write_file>"), &profile).unwrap();
    assert_eq!(blocks[0].content, "x");
    assert!(parse_malformed_write_file_call(&chars("plain")).unwrap().is_none());
}

#[test]
fn verdicts_on_other_texts_do_not_change_the_parse() {
    let profile = profile_for_model("deepseek-r1:14b").unwrap();
    let answer = "hello\nworld";
    assert_eq!(
        tool_call_json_candidates(answer),
        vec!["hello\nworld".to_string()]
    );
    let mut decodings = ToolCallDecodings::new();
    decodings.record(
        "hello".to_string(),
        decode_tool_call(r#"{"tool":"shell","cmd":"ls"}"#),
    );
    for text in tool_call_json_candidates(answer) {
        let decoded = decode_tool_call(&text);
        decodings.record(text, decoded);
    }
    assert!(parse_tool_calls(answer, &profile, &decodings).unwrap().is_empty());
}

#[test]
fn decoder_verdicts_keep_the_first_record() {
    let mut decodings = ToolCallDecodings::new();
    decodings.record("x".to_string(), Err("boom".to_string()));
    decodings.record("x".to_string(), decode_tool_call(r#"{"tool":"list_dir"}"#));
    decodings.record("z".to_string(), decode_tool_call(r#"{"tool":"list_dir"}"#));
    assert!(decodings.lookup(&chars("x")).is_none());
    assert!(decodings.lookup(&chars("y")).is_none());
    assert_eq!(decodings.lookup(&chars("z")).unwrap().tool, "list_dir");
    assert_eq!(decodings.reason_for(&chars("x")), "boom");
    assert_eq!(decodings.reason_for(&chars("y")), "");
    assert_eq!(decodings.reason_for(&chars("z")), "");
}

#[test]
fn lowercased_text_checks() {
    assert!(asks_for_missing_tool("tool call: beautifulsoup"));
    assert!(!asks_for_missing_tool("TOOL CALL: BEAUTIFULSOUP"));
    assert!(looks_like_unsupported_tool_request("TOOL CALL: BEAUTIFULSOUP"));
    assert!(is_shell_language(&chars("bash")));
    assert!(!is_shell_language(&chars("Bash")));
    assert!(language_listed(&chars("sh"), &["bash", "sh"]));
    assert!(!language_listed(&chars("python"), &["bash", "sh"]));
    let calls = parse_fenced_shell_tool_calls(&chars("```Bash\nls\n```"));
    assert_eq!(calls.len(), 1);
}
