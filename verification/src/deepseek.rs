//! DeepSeek R1 handling: prompts, plan cleanup and answer normalization.
use vstd::prelude::*;
use crate::profile::{ModelProfile, ProfileKind};
use crate::scan::{fence_body, fence_tag, next_fence, next_fence_from};
use crate::text::{
    chars_of, ends_with, ends_with_chars, eq_chars, find, find_from, join, join_chars, lines,
    lines_of, push_chars, seq_views, slice_vec, starts_with, starts_with_chars, string_of,
    strings_of, strings_view, to_lowercase, trim, trim_bounds, trim_chars,
};
use crate::parser::{agree_on, lemma_agree_rest, lemma_agree_split};
use crate::types::{ToolCall, ToolCallDecodings, ToolCallView};
use crate::workspace::join_path;

verus! {

pub const DEFAULT_MODEL: &'static str = "deepseek-r1:14b";

pub const SUPPORTED_MODEL_PREFIX: &'static str = "deepseek-r1";

pub const SYSTEM_PROMPT_ADDENDUM: &'static str = r#"
DeepSeek R1 model handling:
- Keep reasoning out of the final answer and put only the requested tool call in a tool-call response.
- If a tool is needed, output the tool call only. Do not wrap it in prose, Markdown commentary, or explanations.
- After a tool result, continue with the next required tool call until the user request is fully complete.
- Do not provide shell commands as instructions when the user asked you to run them. Use the shell tool.
- Do not invent tools. Libraries such as BeautifulSoup are not tools; use shell to run a command or script when parsing is needed.
- When writing files, do not add leading blank lines unless the user explicitly asked for them.
"#;

pub const PLAN_PROMPT: &'static str = "First provide a short implementation plan. Do not call tools yet. Do not include tool-call syntax in the plan.";

pub const EXECUTE_PLAN_PROMPT: &'static str = "Now execute the plan using tools. Do not repeat the plan. If a step requires a tool, output only the next tool call.";

pub const TOOL_RESULT_FOLLOWUP: &'static str = "Continue the original request. If any remaining step requires a tool, output only the next tool call.";

/// The DeepSeek R1 profile serves every model whose name starts with `deepseek-r1`.
pub fn supports_model(model: &str) -> (b: bool)
    ensures
        b == starts_with(model@, SUPPORTED_MODEL_PREFIX@),
{
    starts_with_chars(&chars_of(model), &chars_of(SUPPORTED_MODEL_PREFIX))
}

/// The DeepSeek R1 profile.
pub open spec fn deepseek_profile_spec(p: ModelProfile) -> bool {
    &&& p.id@ == "deepseek-r1"@
    &&& p.display_name@ == "DeepSeek R1"@
    &&& p.system_prompt_addendum@ == SYSTEM_PROMPT_ADDENDUM@
    &&& p.plan_prompt@ == PLAN_PROMPT@
    &&& p.execute_plan_prompt@ == EXECUTE_PLAN_PROMPT@
    &&& p.tool_result_followup@ == TOOL_RESULT_FOLLOWUP@
    &&& p.kind == ProfileKind::DeepSeekR1
}

/// The DeepSeek R1 profile.
pub fn profile() -> (p: ModelProfile)
    ensures
        deepseek_profile_spec(p),
{
    ModelProfile {
        id: "deepseek-r1",
        display_name: "DeepSeek R1",
        system_prompt_addendum: SYSTEM_PROMPT_ADDENDUM,
        plan_prompt: PLAN_PROMPT,
        execute_plan_prompt: EXECUTE_PLAN_PROMPT,
        tool_result_followup: TOOL_RESULT_FOLLOWUP,
        kind: ProfileKind::DeepSeekR1,
    }
}

// ---------------------------------------------------------------------------
// Write-file content
// ---------------------------------------------------------------------------

/// One structural newline (`\r\n` or `\n`) that opens a `<write_file>` block's content
/// is dropped; everything else is kept.
pub open spec fn block_content(c: Seq<char>) -> Seq<char> {
    if starts_with(c, seq!['\r', '\n']) {
        c.skip(2)
    } else if starts_with(c, seq!['\n']) {
        c.skip(1)
    } else {
        c
    }
}

pub fn normalize_block_chars(c: &[char]) -> (r: Vec<char>)
    ensures
        r@ == block_content(c@),
{
    let crlf = ['\r', '\n'];
    let lf = ['\n'];
    assert(crlf@ =~= seq!['\r', '\n']);
    assert(lf@ =~= seq!['\n']);
    let _ = c.len();
    if starts_with_chars(c, &crlf) {
        slice_vec(c, 2, c.len())
    } else if starts_with_chars(c, &lf) {
        slice_vec(c, 1, c.len())
    } else {
        let mut v: Vec<char> = Vec::new();
        push_chars(&mut v, c);
        assert(v@ =~= c@);
        v
    }
}

/// The content of a `<write_file>` block with its structural leading newline dropped.
pub fn normalize_write_file_block_content(content: &str) -> (r: String)
    ensures
        r@ == block_content(content@),
{
    let v = normalize_block_chars(&chars_of(content));
    string_of(&v)
}

// ---------------------------------------------------------------------------
// Tool calls
// ---------------------------------------------------------------------------

/// A shell call names a working directory (non-blank once trimmed).
pub open spec fn names_shell_cwd(tc: ToolCallView) -> bool {
    tc.tool == "shell"@ && trim(tc.cwd).len() > 0
}

/// The directory whose existence decides whether a shell call keeps its working
/// directory: the trimmed `cwd`, joined to the workspace when relative.
pub open spec fn shell_cwd_probe(tc: ToolCallView, workspace: Seq<char>) -> Seq<char> {
    join_path(workspace, trim(tc.cwd))
}

/// A shell call whose working directory does not exist has it cleared, so that it runs
/// in the workspace; every other call is kept as it is.
pub open spec fn normalized_call(tc: ToolCallView, cwd_exists: bool) -> ToolCallView {
    if names_shell_cwd(tc) && !cwd_exists {
        ToolCallView { cwd: Seq::empty(), ..tc }
    } else {
        tc
    }
}

/// The directory to look for on disk before `normalize_tool_call`, if the call needs one.
pub fn shell_cwd_to_check(tool_call: &ToolCall, workspace: &str) -> (r: Option<String>)
    ensures
        match r {
            Some(p) => names_shell_cwd(tool_call@) && p@ == shell_cwd_probe(
                tool_call@,
                workspace@,
            ),
            None => !names_shell_cwd(tool_call@),
        },
{
    let shell = chars_of("shell");
    let tool = chars_of(tool_call.tool.as_str());
    let cwd = trim_chars(&chars_of(tool_call.cwd.as_str()));
    if !eq_chars(&tool, &shell) || cwd.len() == 0 {
        return None;
    }
    let cwd_s = string_of(&cwd);
    Some(crate::workspace::join(workspace, cwd_s.as_str()))
}

/// Clears the working directory of a shell call when that directory does not exist
/// (`cwd_exists`, as the file system reported for `shell_cwd_to_check`).
pub fn normalize_tool_call(tool_call: ToolCall, cwd_exists: bool) -> (r: ToolCall)
    ensures
        r@ == normalized_call(tool_call@, cwd_exists),
{
    let shell = chars_of("shell");
    let tool = chars_of(tool_call.tool.as_str());
    let cwd = trim_chars(&chars_of(tool_call.cwd.as_str()));
    if !eq_chars(&tool, &shell) || cwd.len() == 0 {
        return tool_call;
    }
    if cwd_exists {
        tool_call
    } else {
        let mut tool_call = tool_call;
        tool_call.cwd = String::new();
        tool_call
    }
}

// ---------------------------------------------------------------------------
// Plan cleanup
// ---------------------------------------------------------------------------

/// `s` without its blocks from `sm` to the next `em` (both markers removed with the
/// block); an unclosed block is kept.
pub open spec fn removed_tagged(s: Seq<char>, sm: Seq<char>, em: Seq<char>) -> Seq<char>
    decreases s.len(),
{
    match find(s, sm) {
        None => s,
        Some(st) => if !(0 <= st <= s.len()) {
            s
        } else {
            let after = s.skip(st);
            match find(after, em) {
                None => s,
                Some(e) => if !(0 <= e && e + em.len() <= after.len() && em.len() > 0) {
                    s
                } else {
                    s.take(st) + removed_tagged(after.skip(e + em.len()), sm, em)
                },
            }
        },
    }
}

/// `s` without the fenced blocks whose language tag is one of `langs`.
pub open spec fn removed_fenced_by_language(s: Seq<char>, langs: Seq<Seq<char>>) -> Seq<char>
    decreases s.len(),
{
    match next_fence(s) {
        None => s,
        Some(f) => if !(0 <= f.0 <= f.1 <= f.2 && f.2 + 3 <= s.len()) {
            s
        } else {
            let rest = removed_fenced_by_language(s.skip(f.2 + 3), langs);
            if langs.contains(fence_tag(s, f)) {
                s.take(f.0) + rest
            } else {
                s.take(f.2 + 3) + rest
            }
        },
    }
}

/// `s` without the fenced blocks whose trimmed body starts with `{` and decodes as a
/// tool call.
pub open spec fn removed_fenced_json(s: Seq<char>, d: ToolCallDecodings) -> Seq<char>
    decreases s.len(),
{
    match next_fence(s) {
        None => s,
        Some(f) => if !(0 <= f.0 <= f.1 <= f.2 && f.2 + 3 <= s.len()) {
            s
        } else {
            let rest = removed_fenced_json(s.skip(f.2 + 3), d);
            let body = fence_body(s, f);
            if starts_with(body, seq!['{']) && d.decode(body) is Some {
                s.take(f.0) + rest
            } else {
                s.take(f.2 + 3) + rest
            }
        },
    }
}

/// The trimmed fenced bodies that start with `{`.
pub open spec fn brace_bodies(s: Seq<char>) -> Seq<Seq<char>>
    decreases s.len(),
{
    match next_fence(s) {
        None => Seq::empty(),
        Some(f) => if !(0 <= f.0 <= f.1 <= f.2 && f.2 + 3 <= s.len()) {
            Seq::empty()
        } else {
            let rest = brace_bodies(s.skip(f.2 + 3));
            let body = fence_body(s, f);
            if starts_with(body, seq!['{']) {
                seq![body] + rest
            } else {
                rest
            }
        },
    }
}

pub open spec fn shell_languages() -> Seq<Seq<char>> {
    seq!["bash"@, "sh"@, "shell"@]
}

/// A line that is nothing but tool-call syntax: a bare opening tag, a JSON tool call, or
/// a self-closing `read_file`, `list_dir` or `shell` tag.
pub open spec fn standalone_tool_call_line(line: Seq<char>, d: ToolCallDecodings) -> bool {
    let t = trim(line);
    t == "<read_file"@ || t == "<list_dir"@ || t == "<shell"@ || t == "<write_file"@ || t
        == "<tool_call>"@ || d.decode(t) is Some || ((starts_with(t, "<read_file"@) || starts_with(
        t,
        "<list_dir"@,
    ) || starts_with(t, "<shell"@)) && ends_with(t, "/>"@))
}

/// The lines that are not standalone tool calls.
pub open spec fn kept_plan_lines(ls: Seq<Seq<char>>, d: ToolCallDecodings) -> Seq<Seq<char>>
    decreases ls.len(),
{
    if ls.len() == 0 {
        Seq::empty()
    } else {
        let rest = kept_plan_lines(ls.drop_first(), d);
        if standalone_tool_call_line(ls[0], d) {
            rest
        } else {
            seq![ls[0]] + rest
        }
    }
}

pub open spec fn trimmed_lines(ls: Seq<Seq<char>>) -> Seq<Seq<char>> {
    ls.map_values(|l: Seq<char>| trim(l))
}

/// A plan with `<tool_call>` and `<write_file>` blocks removed.
pub open spec fn plan_without_tags(plan: Seq<char>) -> Seq<char> {
    removed_tagged(
        removed_tagged(plan, "<tool_call>"@, "</tool_call>"@),
        "<write_file"@,
        "</write_file>"@,
    )
}

/// A plan with tagged blocks, fenced JSON tool calls and fenced shell blocks removed.
pub open spec fn plan_without_blocks(plan: Seq<char>, d: ToolCallDecodings) -> Seq<char> {
    removed_fenced_by_language(removed_fenced_json(plan_without_tags(plan), d), shell_languages())
}

/// A plan with every tool call removed: tagged blocks, fenced JSON tool calls, fenced
/// shell blocks and standalone tool-call lines; what is left is trimmed.
pub open spec fn sanitized_plan(plan: Seq<char>, d: ToolCallDecodings) -> Seq<char> {
    trim(join(kept_plan_lines(lines(plan_without_blocks(plan, d)), d), "\n"@))
}

/// The texts whose decoding the plan cleanup consults: the fenced bodies that start
/// with `{` and every trimmed line of the plan once its blocks are removed (which
/// depends on how the fenced bodies decoded).
pub open spec fn plan_candidates(plan: Seq<char>, d: ToolCallDecodings) -> Seq<Seq<char>> {
    brace_bodies(plan_without_tags(plan)) + trimmed_lines(lines(plan_without_blocks(plan, d)))
}

/// `input` without its blocks from `start_marker` to the next `end_marker`. (With an
/// empty end marker a block would never end, so the input must then hold no start marker.)
pub fn remove_tagged_block(input: &[char], start_marker: &[char], end_marker: &[char]) -> (r:
    Vec<char>)
    requires
        end_marker@.len() > 0 || !crate::text::contains(input@, start_marker@),
    ensures
        r@ == removed_tagged(input@, start_marker@, end_marker@),
{
    let s = input;
    if end_marker.len() == 0 {
        let mut copy: Vec<char> = Vec::new();
        push_chars(&mut copy, input);
        assert(copy@ =~= input@);
        return copy;
    }
    let ghost (sm, em) = (start_marker@, end_marker@);
    let mut out: Vec<char> = Vec::new();
    let mut pos: usize = 0;
    assert(s@.skip(0) =~= s@);
    assert(out@ + removed_tagged(s@, sm, em) =~= removed_tagged(s@, sm, em));
    loop
        invariant
            s@ == input@,
            pos <= s@.len(),
            sm == start_marker@,
            em == end_marker@,
            em.len() > 0,
            removed_tagged(s@, sm, em) == out@ + removed_tagged(s@.skip(pos as int), sm, em),
        decreases s@.len() - pos,
    {
        let ghost rest = s@.skip(pos as int);
        let st = match find_from(s, pos, start_marker) {
            None => {
                let tail = slice_vec(s, pos, s.len());
                assert(tail@ =~= rest);
                assert(removed_tagged(rest, sm, em) == rest);
                push_chars(&mut out, &tail);
                return out;
            },
            Some(k) => k,
        };
        let a = pos + st;
        assert(rest.skip(st as int) =~= s@.skip(a as int));
        let e = match find_from(s, a, end_marker) {
            None => {
                let tail = slice_vec(s, pos, s.len());
                assert(tail@ =~= rest);
                assert(removed_tagged(rest, sm, em) == rest);
                push_chars(&mut out, &tail);
                return out;
            },
            Some(k) => k,
        };
        let head = slice_vec(s, pos, a);
        assert(head@ =~= rest.take(st as int));
        let ghost before = out@;
        push_chars(&mut out, &head);
        pos = a + e + end_marker.len();
        assert(s@.skip(a as int).skip(e + em.len()) =~= s@.skip(pos as int));
        assert(before + (rest.take(st as int) + removed_tagged(s@.skip(pos as int), sm, em))
            =~= out@ + removed_tagged(s@.skip(pos as int), sm, em));
    }
}

/// Whether a fence's language tag (already trimmed and lowercased) is one of `languages`.
pub fn language_listed(tag: &[char], languages: &[&str]) -> (b: bool)
    ensures
        b == languages@.map_values(|l: &str| l@).contains(tag@),
{
    let ghost ls = languages@.map_values(|l: &str| l@);
    let mut i: usize = 0;
    while i < languages.len()
        invariant
            i <= languages@.len(),
            ls == languages@.map_values(|l: &str| l@),
            forall|j: int| 0 <= j < i ==> ls[j] != tag@,
        decreases languages@.len() - i,
    {
        if eq_chars(tag, &chars_of(languages[i])) {
            assert(ls[i as int] == tag@);
            return true;
        }
        i = i + 1;
    }
    false
}

/// `input` without the fenced blocks tagged with one of `languages`.
pub fn remove_fenced_blocks_by_language(input: &[char], languages: &[&str]) -> (r: Vec<char>)
    ensures
        r@ == removed_fenced_by_language(input@, languages@.map_values(|l: &str| l@)),
{
    let s = input;
    let ghost langs = languages@.map_values(|l: &str| l@);
    let mut out: Vec<char> = Vec::new();
    let mut pos: usize = 0;
    assert(s@.skip(0) =~= s@);
    assert(out@ + removed_fenced_by_language(s@, langs) =~= removed_fenced_by_language(s@, langs));
    loop
        invariant
            s@ == input@,
            pos <= s@.len(),
            langs == languages@.map_values(|l: &str| l@),
            removed_fenced_by_language(s@, langs) == out@ + removed_fenced_by_language(
                s@.skip(pos as int),
                langs,
            ),
        decreases s@.len() - pos,
    {
        let ghost rest = s@.skip(pos as int);
        let f = match next_fence_from(s, pos) {
            None => {
                let tail = slice_vec(s, pos, s.len());
                assert(tail@ =~= rest);
                assert(removed_fenced_by_language(rest, langs) == rest);
                push_chars(&mut out, &tail);
                return out;
            },
            Some(f) => f,
        };
        let ghost fr = (f.start - pos, f.body_start - pos, f.body_end - pos);
        let lang_raw = slice_vec(s, f.start + 3, f.body_start - 1);
        assert(rest.subrange(fr.0 + 3, fr.1 - 1) =~= lang_raw@);
        let lang_trim = trim_chars(&lang_raw);
        let lang = chars_of(to_lowercase(string_of(&lang_trim).as_str()).as_str());
        assert(lang@ == fence_tag(rest, fr));
        let next = f.body_end + 3;
        assert(rest.skip(fr.2 + 3) =~= s@.skip(next as int));
        let keep_end = if language_listed(&lang, languages) {
            f.start
        } else {
            next
        };
        let head = slice_vec(s, pos, keep_end);
        assert(head@ =~= rest.take(keep_end - pos));
        let ghost before = out@;
        push_chars(&mut out, &head);
        pos = next;
        assert(before + (head@ + removed_fenced_by_language(s@.skip(pos as int), langs)) =~= out@
            + removed_fenced_by_language(s@.skip(pos as int), langs));
    }
}

/// `input` without its fenced `bash`, `sh` and `shell` blocks.
pub fn remove_fenced_shell_tool_calls(input: &[char]) -> (r: Vec<char>)
    ensures
        r@ == removed_fenced_by_language(input@, shell_languages()),
{
    let langs = ["bash", "sh", "shell"];
    assert(langs@.map_values(|l: &str| l@) =~= shell_languages());
    remove_fenced_blocks_by_language(input, &langs)
}

/// `input` without its fenced blocks that hold a JSON tool call.
pub fn remove_fenced_json_tool_calls(input: &[char], d: &ToolCallDecodings) -> (r: Vec<char>)
    ensures
        r@ == removed_fenced_json(input@, *d),
{
    let s = input;
    let brace = ['{'];
    assert(brace@ =~= seq!['{']);
    let mut out: Vec<char> = Vec::new();
    let mut pos: usize = 0;
    assert(s@.skip(0) =~= s@);
    assert(out@ + removed_fenced_json(s@, *d) =~= removed_fenced_json(s@, *d));
    loop
        invariant
            s@ == input@,
            pos <= s@.len(),
            brace@ == seq!['{'],
            removed_fenced_json(s@, *d) == out@ + removed_fenced_json(s@.skip(pos as int), *d),
        decreases s@.len() - pos,
    {
        let ghost rest = s@.skip(pos as int);
        let f = match next_fence_from(s, pos) {
            None => {
                let tail = slice_vec(s, pos, s.len());
                assert(tail@ =~= rest);
                assert(removed_fenced_json(rest, *d) == rest);
                push_chars(&mut out, &tail);
                return out;
            },
            Some(f) => f,
        };
        let ghost fr = (f.start - pos, f.body_start - pos, f.body_end - pos);
        let (b0, b1) = trim_bounds(s, f.body_start, f.body_end);
        let body = slice_vec(s, b0, b1);
        assert(rest.subrange(fr.1, fr.2) =~= s@.subrange(f.body_start as int, f.body_end as int));
        assert(body@ == fence_body(rest, fr));
        let next = f.body_end + 3;
        assert(rest.skip(fr.2 + 3) =~= s@.skip(next as int));
        let is_call = starts_with_chars(&body, &brace) && d.lookup(&body).is_some();
        let keep_end = if is_call {
            f.start
        } else {
            next
        };
        let head = slice_vec(s, pos, keep_end);
        assert(head@ =~= rest.take(keep_end - pos));
        let ghost before = out@;
        push_chars(&mut out, &head);
        pos = next;
        assert(before + (head@ + removed_fenced_json(s@.skip(pos as int), *d)) =~= out@
            + removed_fenced_json(s@.skip(pos as int), *d));
    }
}

/// The trimmed fenced bodies of `s` that start with `{`.
fn brace_bodies_of(s: &[char]) -> (r: Vec<Vec<char>>)
    ensures
        seq_views(r@) == brace_bodies(s@),
{
    let brace = ['{'];
    assert(brace@ =~= seq!['{']);
    let mut out: Vec<Vec<char>> = Vec::new();
    let mut pos: usize = 0;
    assert(s@.skip(0) =~= s@);
    assert(seq_views(out@) + brace_bodies(s@) =~= brace_bodies(s@));
    loop
        invariant
            pos <= s@.len(),
            brace@ == seq!['{'],
            brace_bodies(s@) == seq_views(out@) + brace_bodies(s@.skip(pos as int)),
        decreases s@.len() - pos,
    {
        let ghost rest = s@.skip(pos as int);
        let f = match next_fence_from(s, pos) {
            None => {
                assert(seq_views(out@) + Seq::<Seq<char>>::empty() =~= seq_views(out@));
                return out;
            },
            Some(f) => f,
        };
        let ghost fr = (f.start - pos, f.body_start - pos, f.body_end - pos);
        let (b0, b1) = trim_bounds(s, f.body_start, f.body_end);
        let body = slice_vec(s, b0, b1);
        assert(rest.subrange(fr.1, fr.2) =~= s@.subrange(f.body_start as int, f.body_end as int));
        assert(body@ == fence_body(rest, fr));
        let next = f.body_end + 3;
        assert(rest.skip(fr.2 + 3) =~= s@.skip(next as int));
        let ghost before = seq_views(out@);
        if starts_with_chars(&body, &brace) {
            let ghost bv = body@;
            out.push(body);
            assert(seq_views(out@) =~= before.push(bv));
            assert(before + (seq![bv] + brace_bodies(s@.skip(next as int))) =~= seq_views(out@)
                + brace_bodies(s@.skip(next as int)));
        }
        pos = next;
    }
}

/// Whether a plan line is nothing but tool-call syntax.
pub fn is_standalone_tool_call_line(line: &[char], d: &ToolCallDecodings) -> (b: bool)
    ensures
        b == standalone_tool_call_line(line@, *d),
{
    let t = trim_chars(line);
    let read_file = chars_of("<read_file");
    let list_dir = chars_of("<list_dir");
    let shell = chars_of("<shell");
    let bare = eq_chars(&t, &read_file) || eq_chars(&t, &list_dir) || eq_chars(&t, &shell)
        || eq_chars(&t, &chars_of("<write_file")) || eq_chars(&t, &chars_of("<tool_call>"));
    if bare {
        return true;
    }
    if d.lookup(&t).is_some() {
        return true;
    }
    (starts_with_chars(&t, &read_file) || starts_with_chars(&t, &list_dir) || starts_with_chars(
        &t,
        &shell,
    )) && ends_with_chars(&t, &chars_of("/>"))
}

/// `plan` with `<tool_call>` and `<write_file>` blocks removed.
fn plan_without_tags_of(plan: &[char]) -> (r: Vec<char>)
    ensures
        r@ == plan_without_tags(plan@),
{
    proof {
        reveal_strlit("</tool_call>");
        reveal_strlit("</write_file>");
    }
    let p1 = remove_tagged_block(plan, &chars_of("<tool_call>"), &chars_of("</tool_call>"));
    remove_tagged_block(&p1, &chars_of("<write_file"), &chars_of("</write_file>"))
}

/// `plan` with every tool-call block removed.
fn plan_without_blocks_of(plan: &[char], d: &ToolCallDecodings) -> (r: Vec<char>)
    ensures
        r@ == plan_without_blocks(plan@, *d),
{
    let p2 = plan_without_tags_of(plan);
    let p3 = remove_fenced_json_tool_calls(&p2, d);
    remove_fenced_shell_tool_calls(&p3)
}

/// The plan lines that are not standalone tool calls.
fn kept_plan_lines_of(ls: &Vec<Vec<char>>, d: &ToolCallDecodings) -> (r: Vec<Vec<char>>)
    ensures
        seq_views(r@) == kept_plan_lines(seq_views(ls@), *d),
{
    let ghost lv = seq_views(ls@);
    let mut out: Vec<Vec<char>> = Vec::new();
    let mut i: usize = 0;
    assert(lv.skip(0) =~= lv);
    assert(seq_views(out@) + kept_plan_lines(lv, *d) =~= kept_plan_lines(lv, *d));
    while i < ls.len()
        invariant
            i <= ls@.len(),
            lv == seq_views(ls@),
            kept_plan_lines(lv, *d) == seq_views(out@) + kept_plan_lines(lv.skip(i as int), *d),
        decreases ls@.len() - i,
    {
        let ghost rest = lv.skip(i as int);
        assert(rest[0] == ls@[i as int]@);
        assert(rest.drop_first() =~= lv.skip(i + 1));
        let ghost before = seq_views(out@);
        if !is_standalone_tool_call_line(&ls[i], d) {
            let mut line: Vec<char> = Vec::new();
            push_chars(&mut line, &ls[i]);
            let ghost l = line@;
            out.push(line);
            assert(seq_views(out@) =~= before.push(l));
            assert(before + (seq![l] + kept_plan_lines(lv.skip(i + 1), *d)) =~= seq_views(out@)
                + kept_plan_lines(lv.skip(i + 1), *d));
        }
        i = i + 1;
    }
    assert(lv.skip(i as int) =~= Seq::<Seq<char>>::empty());
    assert(seq_views(out@) + Seq::<Seq<char>>::empty() =~= seq_views(out@));
    out
}

/// A plan with its tool calls removed, so that it reads as prose.
pub fn sanitize_plan_response(plan: &str, d: &ToolCallDecodings) -> (r: String)
    ensures
        r@ == sanitized_plan(plan@, *d),
{
    let p = chars_of(plan);
    let p4 = plan_without_blocks_of(&p, d);
    let ls = lines_of(&p4);
    let kept = kept_plan_lines_of(&ls, d);
    let joined = join_chars(&kept, &chars_of("\n"));
    let t = trim_chars(&joined);
    string_of(&t)
}

/// The texts whose decoding the plan cleanup consults. The second part depends on
/// `d`'s verdicts on the first: call this, decode what it names, record the verdicts
/// and call it again, so that `d` covers every text the cleanup reads.
pub fn plan_json_candidates(plan: &str, d: &ToolCallDecodings) -> (r: Vec<String>)
    ensures
        strings_view(r@) == plan_candidates(plan@, *d),
{
    let p = chars_of(plan);
    let p2 = plan_without_tags_of(&p);
    let mut cands = brace_bodies_of(&p2);
    let p4 = plan_without_blocks_of(&p, d);
    let ls = lines_of(&p4);
    let ghost first = seq_views(cands@);
    let ghost lv = seq_views(ls@);
    let mut i: usize = 0;
    while i < ls.len()
        invariant
            i <= ls@.len(),
            lv == seq_views(ls@),
            seq_views(cands@) == first + trimmed_lines(lv).take(i as int),
        decreases ls@.len() - i,
    {
        let t = trim_chars(&ls[i]);
        let ghost tv = t@;
        let ghost before = seq_views(cands@);
        cands.push(t);
        assert(seq_views(cands@) =~= before.push(tv));
        assert(trimmed_lines(lv).take(i + 1) =~= trimmed_lines(lv).take(i as int).push(tv));
        i = i + 1;
    }
    assert(trimmed_lines(lv).take(i as int) =~= trimmed_lines(lv));
    strings_of(&cands)
}

proof fn lemma_removed_fenced_json_agree(s: Seq<char>, d1: ToolCallDecodings, d2: ToolCallDecodings)
    requires
        agree_on(brace_bodies(s), d1, d2),
    ensures
        removed_fenced_json(s, d1) == removed_fenced_json(s, d2),
    decreases s.len(),
{
    crate::scan::lemma_next_fence(s);
    match next_fence(s) {
        None => {},
        Some(f) => {
            if 0 <= f.0 <= f.1 <= f.2 && f.2 + 3 <= s.len() {
                let body = fence_body(s, f);
                let rest = s.skip(f.2 + 3);
                if starts_with(body, seq!['{']) {
                    assert(brace_bodies(s) == seq![body] + brace_bodies(rest));
                    lemma_agree_split(seq![body], brace_bodies(rest), d1, d2);
                    assert(seq![body][0] == body);
                } else {
                    assert(brace_bodies(s) == brace_bodies(rest));
                }
                lemma_removed_fenced_json_agree(rest, d1, d2);
            }
        },
    }
}

proof fn lemma_kept_lines_agree(ls: Seq<Seq<char>>, d1: ToolCallDecodings, d2: ToolCallDecodings)
    requires
        agree_on(trimmed_lines(ls), d1, d2),
    ensures
        kept_plan_lines(ls, d1) == kept_plan_lines(ls, d2),
    decreases ls.len(),
{
    if ls.len() > 0 {
        lemma_agree_rest(trimmed_lines(ls), d1, d2);
        assert(trimmed_lines(ls).drop_first() =~= trimmed_lines(ls.drop_first()));
        assert(trimmed_lines(ls)[0] == trim(ls[0]));
        lemma_kept_lines_agree(ls.drop_first(), d1, d2);
    }
}

/// The plan cleanup consults the JSON decoder on `plan_candidates` and on nothing else:
/// two decoders that agree on those texts clean the plan alike and name the same
/// candidates. So verdicts gathered in two rounds (the candidates under no verdicts,
/// then the candidates under those verdicts) clean a plan as the decoder itself would.
pub proof fn lemma_sanitize_reads_only_candidates(
    plan: Seq<char>,
    d1: ToolCallDecodings,
    d2: ToolCallDecodings,
)
    requires
        agree_on(plan_candidates(plan, d1), d1, d2),
    ensures
        sanitized_plan(plan, d1) == sanitized_plan(plan, d2),
        plan_candidates(plan, d1) == plan_candidates(plan, d2),
{
    let bb = brace_bodies(plan_without_tags(plan));
    let tl = trimmed_lines(lines(plan_without_blocks(plan, d1)));
    lemma_agree_split(bb, tl, d1, d2);
    lemma_removed_fenced_json_agree(plan_without_tags(plan), d1, d2);
    assert(plan_without_blocks(plan, d1) == plan_without_blocks(plan, d2));
    lemma_kept_lines_agree(lines(plan_without_blocks(plan, d1)), d1, d2);
}

proof fn lemma_kept_all_lines(ls: Seq<Seq<char>>, d: ToolCallDecodings)
    requires
        forall|i: int| 0 <= i < ls.len() ==> !standalone_tool_call_line(#[trigger] ls[i], d),
    ensures
        kept_plan_lines(ls, d) == ls,
    decreases ls.len(),
{
    if ls.len() > 0 {
        assert forall|i: int| 0 <= i < ls.drop_first().len() implies !standalone_tool_call_line(
            #[trigger] ls.drop_first()[i],
            d,
        ) by {
            assert(ls.drop_first()[i] == ls[i + 1]);
        }
        lemma_kept_all_lines(ls.drop_first(), d);
        assert(!standalone_tool_call_line(ls[0], d));
        assert(seq![ls[0]] + ls.drop_first() =~= ls);
    }
}

/// A cleaned plan is already trimmed. A plan with no tool syntax at all (no
/// `<tool_call>`, `<write_file`, fence or carriage return, and no line that is a tool
/// call on its own) is left as it is, trimmed.
pub proof fn lemma_sanitize_plain_plan(plan: Seq<char>, d: ToolCallDecodings)
    ensures
        trim(sanitized_plan(plan, d)) == sanitized_plan(plan, d),
        (!crate::text::contains(plan, "<tool_call>"@) && !crate::text::contains(plan, "<write_file"@)
            && !crate::text::contains(plan, "```"@) && (forall|j: int|
            0 <= j < plan.len() ==> plan[j] != '\r') && (forall|i: int|
            0 <= i < lines(plan).len() ==> !standalone_tool_call_line(#[trigger] lines(plan)[i], d)))
            ==> sanitized_plan(plan, d) == trim(plan),
{
    crate::text::lemma_trim_idempotent(
        join(kept_plan_lines(lines(plan_without_blocks(plan, d)), d), "\n"@),
    );
    if !crate::text::contains(plan, "<tool_call>"@) && !crate::text::contains(plan, "<write_file"@)
        && !crate::text::contains(plan, "```"@) && (forall|j: int|
        0 <= j < plan.len() ==> plan[j] != '\r') && (forall|i: int|
        0 <= i < lines(plan).len() ==> !standalone_tool_call_line(#[trigger] lines(plan)[i], d)) {
        reveal_strlit("```");
        reveal_strlit("\n");
        assert(removed_tagged(plan, "<tool_call>"@, "</tool_call>"@) == plan);
        assert(removed_tagged(plan, "<write_file"@, "</write_file>"@) == plan);
        assert(plan_without_tags(plan) == plan);
        assert(crate::scan::fence_mark() =~= "```"@);
        assert(next_fence(plan) is None);
        assert(removed_fenced_json(plan, d) == plan);
        assert(removed_fenced_by_language(plan, shell_languages()) == plan);
        assert(plan_without_blocks(plan, d) == plan);
        lemma_kept_all_lines(lines(plan), d);
        let j = join(lines(plan), seq!['\n']);
        assert("\n"@ =~= seq!['\n']);
        crate::text::lemma_lines_join(plan);
        crate::text::lemma_trim_trailing_newline(j);
    }
}

/// `s` holds no `<`.
pub open spec fn no_angle(s: Seq<char>) -> bool {
    forall|j: int| 0 <= j < s.len() ==> s[j] != '<'
}

proof fn lemma_removed_tagged_untouched(s: Seq<char>, sm: Seq<char>, em: Seq<char>)
    requires
        sm.len() > 0,
        sm[0] == '<',
        no_angle(s),
    ensures
        removed_tagged(s, sm, em) == s,
{
    crate::text::lemma_find_missing_first_char(s, sm);
}

proof fn lemma_removed_tagged_block(
    p: Seq<char>,
    x: Seq<char>,
    q: Seq<char>,
    sm: Seq<char>,
    em: Seq<char>,
)
    requires
        no_angle(p),
        no_angle(x),
        sm.len() > 1,
        em.len() > 1,
        sm[0] == '<',
        em[0] == '<',
        sm[1] != em[1],
        forall|j: int| 1 <= j < sm.len() ==> sm[j] != '<',
    ensures
        removed_tagged(p + sm + x + em + q, sm, em) == p + removed_tagged(q, sm, em),
{
    let s = p + sm + x + em + q;
    let st = p.len() as int;
    assert(s.subrange(st, st + sm.len()) =~= sm);
    assert forall|j: int| 0 <= j < st implies !crate::text::matches_at(s, sm, j) by {
        if crate::text::matches_at(s, sm, j) {
            assert(s.subrange(j, j + sm.len())[0] == s[j]);
            assert(s[j] == p[j]);
        }
    }
    crate::text::lemma_find_first(s, sm, st);
    let after = s.skip(st);
    assert(after =~= sm + x + em + q);
    let k0 = (sm.len() + x.len()) as int;
    assert(after.subrange(k0, k0 + em.len()) =~= em);
    assert forall|j: int| 0 <= j < k0 implies !crate::text::matches_at(after, em, j) by {
        if crate::text::matches_at(after, em, j) {
            assert(after.subrange(j, j + em.len())[0] == after[j]);
            if j == 0 {
                assert(after.subrange(j, j + em.len())[1] == after[1]);
                assert(after[1] == sm[1]);
            } else if j < sm.len() {
                assert(after[j] == sm[j]);
            } else {
                assert(after[j] == x[j - sm.len()]);
            }
        }
    }
    crate::text::lemma_find_first(after, em, k0);
    assert(after.skip(k0 + em.len()) =~= q);
    assert(s.take(st) =~= p);
}

/// A complete `<tool_call>...</tool_call>` block is removed from a plan together with
/// its markers, leaving the text around it as it was: for plain text `p`, `x` and `q`
/// (no `<` in them) the tags of `p`, the block of `x`, `q` come out as `p` then `q`, and
/// the plan cleans up as the plan without the block does.
pub proof fn lemma_tool_call_block_removed(
    p: Seq<char>,
    x: Seq<char>,
    q: Seq<char>,
    d: ToolCallDecodings,
)
    requires
        no_angle(p),
        no_angle(x),
        no_angle(q),
    ensures
        plan_without_tags(p + "<tool_call>"@ + x + "</tool_call>"@ + q) == p + q,
        sanitized_plan(p + "<tool_call>"@ + x + "</tool_call>"@ + q, d) == sanitized_plan(p + q, d),
{
    reveal_strlit("<tool_call>");
    reveal_strlit("</tool_call>");
    reveal_strlit("<write_file");
    let sm = "<tool_call>"@;
    let em = "</tool_call>"@;
    assert forall|j: int| 1 <= j < sm.len() implies sm[j] != '<' by {}
    lemma_removed_tagged_block(p, x, q, sm, em);
    lemma_removed_tagged_untouched(q, sm, em);
    assert(no_angle(p + q)) by {
        assert forall|j: int| 0 <= j < (p + q).len() implies (p + q)[j] != '<' by {
            if j >= p.len() {
                assert((p + q)[j] == q[j - p.len()]);
            }
        }
    }
    lemma_removed_tagged_untouched(p + q, "<write_file"@, "</write_file>"@);
    lemma_removed_tagged_untouched(p + q, sm, em);
    assert(plan_without_tags(p + q) == p + q);
}

} // verus!
