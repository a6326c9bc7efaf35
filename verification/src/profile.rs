//! Model profiles: prompts and model-specific handling of answers. A model is served
//! only by a profile made for its family.
use vstd::prelude::*;
use crate::deepseek;
use crate::text::{chars_of, join, join_chars, string_of, strings_view, trim, trim_chars};
use crate::types::{ToolCall, ToolCallDecodings, ToolCallView};

verus! {

pub const DEFAULT_MODEL: &'static str = deepseek::DEFAULT_MODEL;

/// The specialized model families.
#[derive(Clone, Copy, Debug)]
pub enum ProfileKind {
    DeepSeekR1,
}

/// How the agent talks to one model family.
#[derive(Clone, Copy, Debug)]
pub struct ModelProfile {
    pub id: &'static str,
    pub display_name: &'static str,
    pub system_prompt_addendum: &'static str,
    pub plan_prompt: &'static str,
    pub execute_plan_prompt: &'static str,
    pub tool_result_followup: &'static str,
    pub kind: ProfileKind,
}

pub open spec fn system_prompt_text(base: Seq<char>, addendum: Seq<char>) -> Seq<char> {
    trim(base) + "\n\n"@ + trim(addendum)
}

pub open spec fn followup_text(
    original_request: Seq<char>,
    tool_results: Seq<char>,
    followup: Seq<char>,
) -> Seq<char> {
    "Original request:\n"@ + original_request + "\n\nTool results:\n"@ + tool_results
        + "\n\n"@ + followup
}

impl ModelProfile {
    /// The content of a `<write_file>` block as this profile normalizes it.
    pub open spec fn block_content(&self, c: Seq<char>) -> Seq<char> {
        match self.kind {
            ProfileKind::DeepSeekR1 => deepseek::block_content(c),
        }
    }

    /// A plan as this profile cleans it up.
    pub open spec fn sanitized(&self, plan: Seq<char>, d: ToolCallDecodings) -> Seq<char> {
        match self.kind {
            ProfileKind::DeepSeekR1 => deepseek::sanitized_plan(plan, d),
        }
    }

    /// Normalizes the raw content of a `<write_file>` block.
    pub fn normalize_block(&self, c: &[char]) -> (r: Vec<char>)
        ensures
            r@ == self.block_content(c@),
    {
        match self.kind {
            ProfileKind::DeepSeekR1 => deepseek::normalize_block_chars(c),
        }
    }

    /// The base system prompt followed by this profile's addendum.
    pub fn system_prompt(&self, base_prompt: &str) -> (r: String)
        ensures
            r@ == system_prompt_text(base_prompt@, self.system_prompt_addendum@),
    {
        let mut r = trim_chars(&chars_of(base_prompt));
        r.push('\n');
        r.push('\n');
        let mut add = trim_chars(&chars_of(self.system_prompt_addendum));
        let ghost (a, b) = (r@, add@);
        r.append(&mut add);
        assert(r@ =~= system_prompt_text(base_prompt@, self.system_prompt_addendum@)) by {
            reveal_strlit("\n\n");
        }
        string_of(&r)
    }

    pub fn plan_prompt(&self) -> (r: &'static str)
        ensures
            r@ == self.plan_prompt@,
    {
        self.plan_prompt
    }

    pub fn execute_plan_prompt(&self) -> (r: &'static str)
        ensures
            r@ == self.execute_plan_prompt@,
    {
        self.execute_plan_prompt
    }

    /// The message that hands tool results back to the model, with the original request
    /// repeated so that it stays in view.
    pub fn tool_result_followup(&self, original_request: &str, tool_results: &str) -> (r: String)
        ensures
            r@ == followup_text(original_request@, tool_results@, self.tool_result_followup@),
    {
        let mut r = "Original request:\n".to_owned();
        r.append(original_request);
        r.append("\n\nTool results:\n");
        r.append(tool_results);
        r.append("\n\n");
        r.append(self.tool_result_followup);
        r
    }

    /// A plan with its tool calls removed.
    pub fn sanitize_plan_response(&self, plan: &str, decodings: &ToolCallDecodings) -> (r: String)
        ensures
            r@ == self.sanitized(plan@, *decodings),
    {
        match self.kind {
            ProfileKind::DeepSeekR1 => deepseek::sanitize_plan_response(plan, decodings),
        }
    }

    /// The texts whose decoding `sanitize_plan_response` consults (see
    /// `deepseek::plan_json_candidates` for the two rounds).
    pub fn plan_json_candidates(&self, plan: &str, decodings: &ToolCallDecodings) -> (r: Vec<
        String,
    >)
        ensures
            match self.kind {
                ProfileKind::DeepSeekR1 => strings_view(r@) == deepseek::plan_candidates(
                    plan@,
                    *decodings,
                ),
            },
    {
        match self.kind {
            ProfileKind::DeepSeekR1 => deepseek::plan_json_candidates(plan, decodings),
        }
    }

    /// A `<write_file>` block's content as this profile normalizes it.
    pub fn normalize_write_file_block_content(&self, content: &str) -> (r: String)
        ensures
            r@ == self.block_content(content@),
    {
        match self.kind {
            ProfileKind::DeepSeekR1 => deepseek::normalize_write_file_block_content(content),
        }
    }

    /// The directory whose existence `normalize_tool_call` needs to know, if any.
    pub fn shell_cwd_to_check(&self, tool_call: &ToolCall, workspace: &str) -> (r: Option<String>)
        ensures
            match self.kind {
                ProfileKind::DeepSeekR1 => match r {
                    Some(p) => deepseek::names_shell_cwd(tool_call@) && p@
                        == deepseek::shell_cwd_probe(tool_call@, workspace@),
                    None => !deepseek::names_shell_cwd(tool_call@),
                },
            },
    {
        match self.kind {
            ProfileKind::DeepSeekR1 => deepseek::shell_cwd_to_check(tool_call, workspace),
        }
    }

    /// A tool call as this profile normalizes it, given whether the directory named by
    /// `shell_cwd_to_check` exists.
    pub fn normalize_tool_call(&self, tool_call: ToolCall, cwd_exists: bool) -> (r: ToolCall)
        ensures
            match self.kind {
                ProfileKind::DeepSeekR1 => r@ == deepseek::normalized_call(tool_call@, cwd_exists),
            },
    {
        match self.kind {
            ProfileKind::DeepSeekR1 => deepseek::normalize_tool_call(tool_call, cwd_exists),
        }
    }
}

/// A model without a specialized profile.
#[derive(Debug)]
pub struct UnsupportedModel {
    pub model: String,
}

pub open spec fn supported_model_names() -> Seq<Seq<char>> {
    seq![deepseek::SUPPORTED_MODEL_PREFIX@]
}

pub open spec fn unsupported_model_message(model: Seq<char>) -> Seq<char> {
    "unsupported model `"@ + model
        + "`. Mini Codex currently supports only models with specialized profiles: "@ + join(
        supported_model_names(),
        ", "@,
    )
}

impl UnsupportedModel {
    /// The error message, which names the supported model families.
    pub fn message(&self) -> (r: String)
        ensures
            r@ == unsupported_model_message(self.model@),
    {
        let mut r = "unsupported model `".to_owned();
        r.append(self.model.as_str());
        r.append("`. Mini Codex currently supports only models with specialized profiles: ");
        let names = supported_models();
        let mut parts: Vec<Vec<char>> = Vec::new();
        parts.push(chars_of(names[0]));
        assert(crate::text::seq_views(parts@) =~= supported_model_names());
        let joined = join_chars(&parts, &chars_of(", "));
        let tail = string_of(&joined);
        r.append(tail.as_str());
        r
    }
}

/// The prefixes of the model names that have a profile.
pub fn supported_models() -> (r: Vec<&'static str>)
    ensures
        r@.map_values(|s: &str| s@) == supported_model_names(),
        r@.len() == 1,
{
    let mut v: Vec<&'static str> = Vec::new();
    v.push(deepseek::SUPPORTED_MODEL_PREFIX);
    assert(v@.map_values(|s: &str| s@) =~= supported_model_names());
    v
}

/// The profile for `model`, or an error when no profile serves it.
pub fn profile_for_model(model: &str) -> (r: Result<ModelProfile, UnsupportedModel>)
    ensures
        match r {
            Ok(p) => crate::text::starts_with(model@, deepseek::SUPPORTED_MODEL_PREFIX@)
                && deepseek::deepseek_profile_spec(p),
            Err(e) => !crate::text::starts_with(model@, deepseek::SUPPORTED_MODEL_PREFIX@)
                && e.model@ == model@,
        },
{
    if deepseek::supports_model(model) {
        return Ok(deepseek::profile());
    }
    Err(UnsupportedModel { model: model.to_owned() })
}

/// The follow-up message keeps the original request in view: it holds the request
/// and the tool results, each whole.
pub proof fn lemma_followup_keeps_request(
    original_request: Seq<char>,
    tool_results: Seq<char>,
    followup: Seq<char>,
)
    ensures
        crate::text::contains(followup_text(original_request, tool_results, followup), original_request),
        crate::text::contains(followup_text(original_request, tool_results, followup), tool_results),
{
    let t = followup_text(original_request, tool_results, followup);
    let h = "Original request:\n"@;
    let m = "\n\nTool results:\n"@;
    let k1 = h.len() as int;
    let k2 = k1 + original_request.len() + m.len();
    assert(t.subrange(k1, k1 + original_request.len()) =~= original_request);
    assert(t.subrange(k2, k2 + tool_results.len()) =~= tool_results);
    crate::text::lemma_contains_at(t, original_request, k1);
    crate::text::lemma_contains_at(t, tool_results, k2);
}

} // verus!
