//! The decisions of the agent loop: what to do with a line the user typed, which
//! messages the conversation with the model gains at each step, and when a turn stops.
//! The loop itself, which calls the model and runs the tools, belongs to the caller.
use vstd::prelude::*;
use crate::failures::{
    after_failures, count_in, failed_commands, first_at_limit, repeat_notes, repeated_failed_command_guidance,
    repeated_failed_command_to_stop, repeated_guidance_text, room_for, FailedCommandCounts,
};
use crate::guidance::{format_tool_results, guidance_text, tool_result_guidance, tool_results_text};
use crate::parser::{
    empty_calls, looks_like_unsupported_tool_request, parse_tool_calls, parsed_calls,
    unsupported_tool_feedback, unsupported_tool_feedback_text, unsupported_tool_request, ParseError,
    ParseErrorView,
};
use crate::profile::{followup_text, system_prompt_text, ModelProfile};
use crate::text::{chars_of, eq_chars, trim, trim_chars};
use crate::types::{
    calls_view, messages_view, outcomes_view, ChatMessage, ToolCall, ToolCallDecodings, ToolOutcome,
};

verus! {

/// How many answers the model may give within one request.
pub const MAX_TOOL_TURNS: usize = 12;

/// How often one command may fail before the turn stops.
pub const MAX_REPEATED_FAILED_COMMANDS: usize = 3;

/// The system prompt that every model profile extends.
pub const BASE_SYSTEM_PROMPT: &'static str = r#"
You are Mini Codex, a local coding assistant.

You can either answer normally or request one or more tool calls.

Available tool:
- shell: execute a local shell command after user approval. It accepts optional cwd.
- read_file: read a UTF-8 file inside the current workspace.
- write_file: create or overwrite a UTF-8 file inside the current workspace after user approval.
- patch_file: replace an exact text fragment in a UTF-8 file after user approval.
- list_dir: list a directory inside the current workspace.

When you need a command, respond with exactly this format and no extra text:

<tool_call>
{"tool":"shell","cmd":"pwd"}
</tool_call>

<tool_call>
{"tool":"shell","cmd":"cargo build","cwd":"hello-agent"}
</tool_call>

Other examples:

<tool_call>
{"tool":"read_file","path":"README.md"}
</tool_call>

For writing files, prefer this raw-content format:

<write_file path="hello.txt">
hello
</write_file>

<tool_call>
{"tool":"list_dir","path":"."}
</tool_call>

Short XML-style tool calls are also accepted:

<read_file path="README.md"/>
<list_dir path="."/>
<shell cmd="cargo run" cwd="hello-agent"/>

<tool_call>
{"tool":"patch_file","path":"src/main.rs","old":"hello","new":"hello from mini-codex"}
</tool_call>

Rules:
- Do not claim you executed a command unless a tool result was provided.
- If a tool result is empty, say it is empty. Do not invent files, output, or command results.
- Prefer read_file, write_file, patch_file, and list_dir for file operations.
- For small edits to existing files, use patch_file instead of write_file.
- Prefer shell with cwd over commands that start with cd.
- Do not use cd in shell commands; cwd does not persist between tool calls.
- Do not create empty files with touch before writing them. Use write_file with the final content.
- Prefer small, specific commands.
- Do not use destructive commands.
- When creating Rust projects, use edition = "2024", write Cargo.toml and src/main.rs, then use shell to run cargo build with cwd. For simple apps, prefer standard-library Rust with no external crates. Do not add web frameworks such as hyper, axum, or actix unless the user explicitly asks for an HTTP server or API.
- When creating React projects, prefer a minimal Vite app. If the user gives a project name, write every file under that directory and run shell commands with cwd set to that directory. Write package.json directly with dev and build scripts; do not use npm init -y. Write index.html, vite.config.js, src/main.jsx, src/App.jsx, and optionally src/App.css. In index.html include <div id="root"></div> and use <script type="module" src="/src/main.jsx"></script>. Then use shell to run npm install and npm run build with cwd. Do not run npm run dev unless the user explicitly asks you to start a dev server.
- If you can answer without a tool, answer directly.
"#;

/// What to do with a line the user typed.
#[derive(Debug, PartialEq, Eq, Structural)]
pub enum InputAction {
    /// Nothing but whitespace: ask again.
    Ignore,
    /// `/exit` or `/quit`.
    Quit,
    /// A request for the agent.
    Request,
}

pub open spec fn input_action(input: Seq<char>) -> InputAction {
    let t = trim(input);
    if t.len() == 0 {
        InputAction::Ignore
    } else if t == "/exit"@ || t == "/quit"@ {
        InputAction::Quit
    } else {
        InputAction::Request
    }
}

/// Classifies a line the user typed.
pub fn classify_input(input: &str) -> (r: InputAction)
    ensures
        r == input_action(input@),
{
    let t = trim_chars(&chars_of(input));
    if t.len() == 0 {
        InputAction::Ignore
    } else if eq_chars(&t, &chars_of("/exit")) || eq_chars(&t, &chars_of("/quit")) {
        InputAction::Quit
    } else {
        InputAction::Request
    }
}

fn message(role: &str, content: String) -> (m: ChatMessage)
    ensures
        m@ == (role@, content@),
{
    ChatMessage { role: role.to_owned(), content }
}

/// A conversation that holds only the system prompt of `profile`.
pub fn start_conversation(profile: &ModelProfile) -> (r: Vec<ChatMessage>)
    ensures
        messages_view(r@) == seq![
            ("system"@, system_prompt_text(BASE_SYSTEM_PROMPT@, profile.system_prompt_addendum@)),
        ],
{
    let mut r: Vec<ChatMessage> = Vec::new();
    r.push(message("system", profile.system_prompt(BASE_SYSTEM_PROMPT)));
    assert(messages_view(r@) =~= seq![
        ("system"@, system_prompt_text(BASE_SYSTEM_PROMPT@, profile.system_prompt_addendum@)),
    ]);
    r
}

/// Adds `m` at the end of the conversation.
fn push_message(messages: &mut Vec<ChatMessage>, m: ChatMessage)
    ensures
        messages_view(final(messages)@) == messages_view(old(messages)@).push(m@),
{
    let ghost before = messages_view(messages@);
    messages.push(m);
    assert(messages_view(messages@) =~= before.push(m@));
}

/// Adds the user's request to the conversation.
pub fn add_request(messages: &mut Vec<ChatMessage>, request: &str)
    ensures
        messages_view(final(messages)@) == messages_view(old(messages)@).push(("user"@, request@)),
{
    push_message(messages, message("user", request.to_owned()));
}

/// Asks the model for a plan before any tool runs.
pub fn request_plan(profile: &ModelProfile, messages: &mut Vec<ChatMessage>)
    ensures
        messages_view(final(messages)@) == messages_view(old(messages)@).push(
            ("user"@, profile.plan_prompt@),
        ),
{
    push_message(messages, message("user", profile.plan_prompt().to_owned()));
}

/// Takes the model's plan: cleans it of tool calls, adds it to the conversation and
/// asks the model to carry it out. Returns the cleaned plan.
pub fn accept_plan(
    profile: &ModelProfile,
    messages: &mut Vec<ChatMessage>,
    raw_plan: &str,
    decodings: &ToolCallDecodings,
) -> (plan: String)
    ensures
        plan@ == profile.sanitized(raw_plan@, *decodings),
        messages_view(final(messages)@) == messages_view(old(messages)@).push(
            ("assistant"@, plan@),
        ).push(("user"@, profile.execute_plan_prompt@)),
{
    let plan = profile.sanitize_plan_response(raw_plan, decodings);
    push_message(messages, message("assistant", plan.clone()));
    push_message(messages, message("user", profile.execute_plan_prompt().to_owned()));
    plan
}

/// What the agent does with an answer of the model.
#[derive(Debug)]
pub enum AnswerAction {
    /// Run these tool calls (never none) and report their outcomes.
    RunTools(Vec<ToolCall>),
    /// The model asked for a tool that does not exist; it was told so, ask it again.
    AskAgain,
    /// The answer is final: show it and end the turn.
    Finish,
}

/// Takes an answer of the model: adds it to the conversation and decides what comes
/// next. An answer whose tool calls cannot be parsed leaves the conversation unchanged.
/// An answer that describes commands instead of running them gets no follow-up of its
/// own: without tool calls, it ends the turn like any other final answer.
pub fn take_answer(
    profile: &ModelProfile,
    decodings: &ToolCallDecodings,
    answer: &str,
    messages: &mut Vec<ChatMessage>,
) -> (r: Result<AnswerAction, ParseError>)
    ensures
        match r {
            Err(e) => {
                &&& parsed_calls(answer@, *profile, *decodings) == Err::<Seq<crate::types::ToolCallView>, _>(e@)
                &&& messages_view(final(messages)@) == messages_view(old(messages)@)
            },
            Ok(AnswerAction::RunTools(calls)) => {
                &&& parsed_calls(answer@, *profile, *decodings) == Ok::<_, ParseErrorView>(
                    calls_view(calls@),
                )
                &&& calls@.len() > 0
                &&& messages_view(final(messages)@) == messages_view(old(messages)@).push(
                    ("assistant"@, answer@),
                )
            },
            Ok(AnswerAction::AskAgain) => {
                &&& parsed_calls(answer@, *profile, *decodings) == Ok::<_, ParseErrorView>(
                    empty_calls(),
                )
                &&& unsupported_tool_request(answer@)
                &&& messages_view(final(messages)@) == messages_view(old(messages)@).push(
                    ("assistant"@, answer@),
                ).push(("user"@, unsupported_tool_feedback_text()))
            },
            Ok(AnswerAction::Finish) => {
                &&& parsed_calls(answer@, *profile, *decodings) == Ok::<_, ParseErrorView>(
                    empty_calls(),
                )
                &&& !unsupported_tool_request(answer@)
                &&& messages_view(final(messages)@) == messages_view(old(messages)@).push(
                    ("assistant"@, answer@),
                )
            },
        },
{
    let calls = match parse_tool_calls(answer, profile, decodings) {
        Err(e) => return Err(e),
        Ok(c) => c,
    };
    push_message(messages, message("assistant", answer.to_owned()));
    if calls.len() > 0 {
        return Ok(AnswerAction::RunTools(calls));
    }
    assert(calls_view(calls@) =~= empty_calls());
    if looks_like_unsupported_tool_request(answer) {
        push_message(messages, message("user", unsupported_tool_feedback()));
        Ok(AnswerAction::AskAgain)
    } else {
        Ok(AnswerAction::Finish)
    }
}

/// The message that reports a batch of tool outcomes to the model: the profile's
/// follow-up with the results, the execution guidance, then the repeated-failure
/// guidance for failures counted from `counts` on.
pub open spec fn outcome_report(
    profile: ModelProfile,
    original_request: Seq<char>,
    os: Seq<crate::types::ToolOutcomeView>,
    counts: Seq<(Seq<char>, nat)>,
) -> Seq<char> {
    followup_text(original_request, tool_results_text(os), profile.tool_result_followup@)
        + guidance_text(os) + repeated_guidance_text(
        repeat_notes(counts, failed_commands(os)),
        MAX_REPEATED_FAILED_COMMANDS as nat,
    )
}

/// The state of one request of the user: how many answers the model has been asked
/// for and how often each command has failed.
pub struct AgentTurn {
    model_calls: usize,
    failures: FailedCommandCounts,
}

impl AgentTurn {
    pub closed spec fn model_calls(&self) -> nat {
        self.model_calls as nat
    }

    pub closed spec fn failures(&self) -> Seq<(Seq<char>, nat)> {
        self.failures.entries()
    }

    /// A turn in which the model has not been asked yet and nothing has failed.
    pub fn new() -> (r: AgentTurn)
        ensures
            r.model_calls() == 0,
            r.failures() == Seq::<(Seq<char>, nat)>::empty(),
    {
        AgentTurn { model_calls: 0, failures: FailedCommandCounts::new() }
    }

    /// Whether the model may be asked for another answer; if so, that call is counted.
    /// At most `MAX_TOOL_TURNS` calls are allowed.
    pub fn begin_model_call(&mut self) -> (b: bool)
        ensures
            b == (old(self).model_calls() < MAX_TOOL_TURNS),
            final(self).model_calls() == if b {
                old(self).model_calls() + 1
            } else {
                old(self).model_calls()
            },
            final(self).failures() == old(self).failures(),
    {
        if self.model_calls < MAX_TOOL_TURNS {
            self.model_calls = self.model_calls + 1;
            true
        } else {
            false
        }
    }

    /// Whether the failure counts leave room for a batch of `n` outcomes.
    pub fn has_room_for(&self, n: usize) -> (b: bool)
        ensures
            b == room_for(self.failures(), n as nat),
    {
        self.failures.has_room_for(n)
    }

    /// Takes the outcomes of a batch of tool calls: counts the failed commands, reports
    /// the outcomes to the model, and returns the command to stop at when one has now
    /// failed `MAX_REPEATED_FAILED_COMMANDS` times.
    pub fn take_outcomes(
        &mut self,
        profile: &ModelProfile,
        original_request: &str,
        outcomes: &[ToolOutcome],
        messages: &mut Vec<ChatMessage>,
    ) -> (stop: Option<String>)
        requires
            room_for(old(self).failures(), outcomes@.len() as nat),
        ensures
            final(self).model_calls() == old(self).model_calls(),
            final(self).failures() == after_failures(
                old(self).failures(),
                failed_commands(outcomes_view(outcomes@)),
            ),
            messages_view(final(messages)@) == messages_view(old(messages)@).push(
                (
                    "user"@,
                    outcome_report(
                        *profile,
                        original_request@,
                        outcomes_view(outcomes@),
                        old(self).failures(),
                    ),
                ),
            ),
            match stop {
                Some(c) => {
                    &&& first_at_limit(final(self).failures(), MAX_REPEATED_FAILED_COMMANDS as nat)
                        == Some(c@)
                    &&& count_in(final(self).failures(), c@) >= MAX_REPEATED_FAILED_COMMANDS
                },
                None => first_at_limit(
                    final(self).failures(),
                    MAX_REPEATED_FAILED_COMMANDS as nat,
                ) is None,
            },
    {
        let tool_results = format_tool_results(outcomes);
        let repeat = repeated_failed_command_guidance(
            outcomes,
            &mut self.failures,
            MAX_REPEATED_FAILED_COMMANDS,
        );
        let mut content = profile.tool_result_followup(original_request, tool_results.as_str());
        let guidance = tool_result_guidance(outcomes);
        content.append(guidance.as_str());
        content.append(repeat.as_str());
        push_message(messages, message("user", content));
        repeated_failed_command_to_stop(&self.failures, MAX_REPEATED_FAILED_COMMANDS)
    }
}

} // verus!
