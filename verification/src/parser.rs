//! Reading tool calls out of a model answer.
//!
//! Answers mix prose, Markdown and several tool-call syntaxes. The parser finds
//! `<write_file path="...">` blocks, XML-style `<read_file .../>`, `<list_dir .../>`
//! and `<shell .../>` tags, `<tool_call>` blocks, fenced JSON and fenced shell blocks,
//! line-delimited JSON and a few malformed shapes. Deciding whether a text is a JSON
//! tool call is the JSON decoder's job: the parser names the texts it needs decoded
//! (`tool_call_json_candidates`) and reads the verdicts from a `ToolCallDecodings`.
use vstd::prelude::*;
use crate::profile::ModelProfile;
use crate::scan::{
    attr_error_message, attr_lookup, attr_or_default, attr_or_empty, attr_value, extract_attr,
    extract_json_string_field, field_error_message, json_field_lookup, AttrError, AttrErrorView,
    FieldError, FieldErrorView,
    fence_body, fence_tag, json_string_field, looks_like_json_call, looks_like_json_tool_call,
    next_fence, next_fence_from,
};
use crate::text::{
    chars_of, contains, contains_chars, ends_with, ends_with_chars, eq_chars, find, find_from,
    lines, lines_of, lowercase, push_chars, push_str, replace_all, replace_chars, seq_views, slice_vec, strings_of, strings_view,
    starts_with, starts_with_chars, string_of, to_lowercase, trim, trim_bounds, trim_chars,
};
use crate::types::{
    call_view, calls_view, ToolCall, ToolCallDecodings, ToolCallView,
};

verus! {

/// Why an answer could not be read as tool calls.
#[derive(Debug)]
pub enum ParseError {
    /// A `<write_file ...>` opening tag without a readable `path` attribute (the tag, and
    /// why the attribute could not be read).
    MissingWriteFilePath(String, AttrError),
    /// A `<tool_call>` block whose body is not a tool call (the body, and the decoder's
    /// reason).
    MalformedToolCall(String, String),
    /// A malformed JSON `write_file` call without a readable `path` field (the trimmed
    /// answer, and why the field could not be read).
    MissingMalformedWriteFilePath(String, FieldError),
}

pub enum ParseErrorView {
    MissingWriteFilePath(Seq<char>, AttrErrorView),
    MalformedToolCall(Seq<char>, Seq<char>),
    MissingMalformedWriteFilePath(Seq<char>, FieldErrorView),
}

impl View for ParseError {
    type V = ParseErrorView;

    open spec fn view(&self) -> ParseErrorView {
        match self {
            ParseError::MissingWriteFilePath(t, e) => ParseErrorView::MissingWriteFilePath(t@, e@),
            ParseError::MalformedToolCall(t, r) => ParseErrorView::MalformedToolCall(t@, r@),
            ParseError::MissingMalformedWriteFilePath(t, e) =>
                ParseErrorView::MissingMalformedWriteFilePath(t@, e@),
        }
    }
}

impl ParseError {
    /// The error message.
    pub fn message(&self) -> (r: String)
        ensures
            r@ == match self@ {
                ParseErrorView::MissingWriteFilePath(t, _) => "missing path in write_file tag: "@ + t,
                ParseErrorView::MalformedToolCall(t, _) => "malformed tool call: "@ + t,
                ParseErrorView::MissingMalformedWriteFilePath(t, _) =>
                    "missing path in malformed write_file call: "@ + t,
            },
    {
        let (mut head, tail) = match self {
            ParseError::MissingWriteFilePath(t, _) => (
                "missing path in write_file tag: ".to_owned(),
                t.as_str(),
            ),
            ParseError::MalformedToolCall(t, _) => ("malformed tool call: ".to_owned(), t.as_str()),
            ParseError::MissingMalformedWriteFilePath(t, _) => (
                "missing path in malformed write_file call: ".to_owned(),
                t.as_str(),
            ),
        };
        head.append(tail);
        head
    }

    /// What caused the error: why the attribute or the field could not be read, or the
    /// decoder's reason.
    pub fn cause(&self) -> (r: String)
        ensures
            r@ == match self@ {
                ParseErrorView::MissingWriteFilePath(_, e) => attr_error_message(e),
                ParseErrorView::MalformedToolCall(_, reason) => reason,
                ParseErrorView::MissingMalformedWriteFilePath(_, e) => field_error_message(e),
            },
    {
        match self {
            ParseError::MissingWriteFilePath(_, e) => e.message(),
            ParseError::MalformedToolCall(_, reason) => reason.clone(),
            ParseError::MissingMalformedWriteFilePath(_, e) => e.message(),
        }
    }
}

// ---------------------------------------------------------------------------
// Specifications
// ---------------------------------------------------------------------------

pub open spec fn empty_calls() -> Seq<ToolCallView> {
    Seq::empty()
}

/// Calls found earlier put in front of a result that may be an error.
pub open spec fn prepend<E>(acc: Seq<ToolCallView>, r: Result<Seq<ToolCallView>, E>) -> Result<
    Seq<ToolCallView>,
    E,
> {
    match r {
        Ok(v) => Ok(acc + v),
        Err(e) => Err(e),
    }
}

/// The trimmed bodies of the complete `<tool_call>...</tool_call>` blocks, in order.
pub open spec fn tagged_bodies(s: Seq<char>) -> Seq<Seq<char>>
    decreases s.len(),
{
    let om = "<tool_call>"@;
    let cm = "</tool_call>"@;
    match find(s, om) {
        None => Seq::empty(),
        Some(st) => if !(0 <= st && st + om.len() <= s.len()) {
            Seq::empty()
        } else {
            let after = s.skip(st + om.len());
            match find(after, cm) {
                None => Seq::empty(),
                Some(e) => if !(0 <= e && e + cm.len() <= after.len() && cm.len() > 0) {
                    Seq::empty()
                } else {
                    seq![trim(after.take(e))] + tagged_bodies(after.skip(e + cm.len()))
                },
            }
        },
    }
}

/// Every body decoded, or the first body that does not decode.
pub open spec fn decode_every(bodies: Seq<Seq<char>>, d: ToolCallDecodings) -> Result<
    Seq<ToolCallView>,
    Seq<char>,
>
    decreases bodies.len(),
{
    if bodies.len() == 0 {
        Ok(Seq::empty())
    } else {
        match d.decode(bodies[0]) {
            None => Err(bodies[0]),
            Some(c) => match decode_every(bodies.drop_first(), d) {
                Ok(r) => Ok(seq![c] + r),
                Err(e) => Err(e),
            },
        }
    }
}

/// The decoded texts, skipping those that do not decode.
pub open spec fn decoded_only(texts: Seq<Seq<char>>, d: ToolCallDecodings) -> Seq<ToolCallView>
    decreases texts.len(),
{
    if texts.len() == 0 {
        Seq::empty()
    } else {
        let rest = decoded_only(texts.drop_first(), d);
        match d.decode(texts[0]) {
            Some(c) => seq![c] + rest,
            None => rest,
        }
    }
}

/// The `<write_file path="...">content</write_file>` blocks as `write_file` calls, or the
/// first opening tag whose `path` cannot be read, with the reason.
pub open spec fn write_file_blocks(s: Seq<char>, p: ModelProfile) -> Result<
    Seq<ToolCallView>,
    (Seq<char>, AttrErrorView),
>
    decreases s.len(),
{
    let om = "<write_file"@;
    let cm = "</write_file>"@;
    match find(s, om) {
        None => Ok(empty_calls()),
        Some(st) => if !(0 <= st <= s.len()) {
            Ok(empty_calls())
        } else {
            match find(s.skip(st), seq!['>']) {
                None => Ok(empty_calls()),
                Some(rel) => if !(0 <= rel && st + rel < s.len()) {
                    Ok(empty_calls())
                } else {
                    let oe = st + rel;
                    let tag = s.subrange(st, oe + 1);
                    match attr_lookup(tag, "path"@) {
                        Err(e) => Err((tag, e)),
                        Ok(path) => {
                            let cs = oe + 1;
                            match find(s.skip(cs), cm) {
                                None => Ok(empty_calls()),
                                Some(cl) => if !(0 <= cl && cs + cl + cm.len() <= s.len()) {
                                    Ok(empty_calls())
                                } else {
                                    let call = call_view(
                                        "write_file"@,
                                        Seq::empty(),
                                        Seq::empty(),
                                        path,
                                        p.block_content(s.subrange(cs, cs + cl)),
                                    );
                                    match write_file_blocks(s.skip(cs + cl + cm.len()), p) {
                                        Ok(r) => Ok(seq![call] + r),
                                        Err(t) => Err(t),
                                    }
                                },
                            }
                        },
                    }
                },
            }
        },
    }
}

/// The self-closing `<tool .../>` tags as calls of `tool` with their `cmd`, `cwd` and
/// `path` attributes.
pub open spec fn xml_calls(s: Seq<char>, tool: Seq<char>) -> Seq<ToolCallView>
    decreases s.len(),
{
    let open = seq!['<'] + tool;
    match find(s, open) {
        None => empty_calls(),
        Some(st) => if !(0 <= st <= s.len()) {
            empty_calls()
        } else {
            match find(s.skip(st), seq!['/', '>']) {
                None => empty_calls(),
                Some(rel) => if !(0 <= rel && st + rel + 2 <= s.len()) {
                    empty_calls()
                } else {
                    let tag = s.subrange(st, st + rel + 2);
                    seq![
                        call_view(
                            tool,
                            attr_or_empty(tag, "cmd"@),
                            attr_or_empty(tag, "cwd"@),
                            attr_or_empty(tag, "path"@),
                            Seq::empty(),
                        ),
                    ] + xml_calls(s.skip(st + rel + 2), tool)
                },
            }
        },
    }
}

pub open spec fn xml_style_calls(s: Seq<char>) -> Seq<ToolCallView> {
    xml_calls(s, "read_file"@) + xml_calls(s, "list_dir"@) + xml_calls(s, "shell"@)
}

/// The trimmed bodies of fenced blocks that start with `{` and mention `"tool"`.
pub open spec fn fenced_json_bodies(s: Seq<char>) -> Seq<Seq<char>>
    decreases s.len(),
{
    match next_fence(s) {
        None => Seq::empty(),
        Some(f) => if !(0 <= f.1 <= f.2 && f.2 + 3 <= s.len()) {
            Seq::empty()
        } else {
            let body = fence_body(s, f);
            let rest = fenced_json_bodies(s.skip(f.2 + 3));
            if starts_with(body, seq!['{']) && contains(body, "\"tool\""@) {
                seq![body] + rest
            } else {
                rest
            }
        },
    }
}

/// Fenced `bash`, `sh` or `shell` blocks with a non-empty body that is not a JSON tool
/// call, as shell calls running that body.
pub open spec fn fenced_shell_calls(s: Seq<char>) -> Seq<ToolCallView>
    decreases s.len(),
{
    match next_fence(s) {
        None => empty_calls(),
        Some(f) => if !(0 <= f.1 <= f.2 && f.2 + 3 <= s.len()) {
            empty_calls()
        } else {
            let tag = fence_tag(s, f);
            let body = fence_body(s, f);
            let rest = fenced_shell_calls(s.skip(f.2 + 3));
            if shell_language(tag) && body.len() > 0
                && !looks_like_json_call(body) {
                seq![call_view("shell"@, body, Seq::empty(), Seq::empty(), Seq::empty())] + rest
            } else {
                rest
            }
        },
    }
}

/// A trimmed line that looks like a one-line JSON tool call.
pub open spec fn is_json_line(t: Seq<char>) -> bool {
    t.len() > 0 && starts_with(t, seq!['{']) && ends_with(t, seq!['}']) && contains(
        t,
        "\"tool\""@,
    )
}

/// The trimmed lines that look like one-line JSON tool calls.
pub open spec fn json_line_candidates(ls: Seq<Seq<char>>) -> Seq<Seq<char>>
    decreases ls.len(),
{
    if ls.len() == 0 {
        Seq::empty()
    } else {
        let t = trim(ls[0]);
        let rest = json_line_candidates(ls.drop_first());
        if is_json_line(t) {
            seq![t] + rest
        } else {
            rest
        }
    }
}

/// A one-line shell call whose command holds unescaped quotes:
/// `{"tool":"shell","cmd":"..."}` with `\"` and `\\` in the command unescaped.
pub open spec fn lenient_shell(line: Seq<char>) -> Option<ToolCallView> {
    let pre = "{\"tool\":\"shell\",\"cmd\":\""@;
    let suf = "\"}"@;
    if starts_with(line, pre) {
        let r = line.skip(pre.len() as int);
        if ends_with(r, suf) {
            let body = r.take(r.len() - suf.len());
            Some(
                call_view(
                    "shell"@,
                    replace_all(replace_all(body, "\\\""@, "\""@), "\\\\"@, "\\"@),
                    Seq::empty(),
                    Seq::empty(),
                    Seq::empty(),
                ),
            )
        } else {
            None
        }
    } else {
        None
    }
}

/// Each candidate line decoded, or else read leniently as a shell call, or else skipped.
pub open spec fn line_calls(cands: Seq<Seq<char>>, d: ToolCallDecodings) -> Seq<ToolCallView>
    decreases cands.len(),
{
    if cands.len() == 0 {
        Seq::empty()
    } else {
        let rest = line_calls(cands.drop_first(), d);
        match d.decode(cands[0]) {
            Some(c) => seq![c] + rest,
            None => match lenient_shell(cands[0]) {
                Some(c) => seq![c] + rest,
                None => rest,
            },
        }
    }
}

/// The content of a malformed `"content"=...` value: trimmed, one opening quote, one
/// closing brace and one closing quote removed, then `\n` and `\"` unescaped.
pub open spec fn malformed_content(raw: Seq<char>) -> Seq<char> {
    let c1 = if starts_with(raw, seq!['"']) {
        raw.skip(1)
    } else {
        raw
    };
    let c2 = if ends_with(c1, seq!['}']) {
        c1.drop_last()
    } else {
        c1
    };
    let c3 = if ends_with(c2, seq!['"']) {
        c2.drop_last()
    } else {
        c2
    };
    replace_all(replace_all(c3, "\\n"@, "\n"@), "\\\""@, "\""@)
}

/// A JSON-like `write_file` call that writes `"content"=` instead of `"content":`.
pub open spec fn malformed_write_file(a: Seq<char>) -> Result<
    Option<ToolCallView>,
    (Seq<char>, FieldErrorView),
> {
    let t = trim(a);
    let w = "\"tool\":\"write_file\""@;
    let c = "\"content\"="@;
    if !contains(t, w) || !contains(t, c) {
        Ok(None)
    } else {
        match json_field_lookup(t, "path"@) {
            Err(e) => Err((t, e)),
            Ok(path) => match find(t, c) {
                None => Ok(None),
                Some(cs) => if !(0 <= cs && cs + c.len() <= t.len()) {
                    Ok(None)
                } else {
                    Ok(
                        Some(
                            call_view(
                                "write_file"@,
                                Seq::empty(),
                                Seq::empty(),
                                path,
                                malformed_content(trim(t.skip(cs + c.len()))),
                            ),
                        ),
                    )
                },
            },
        }
    }
}

/// The texts whose JSON decoding `parse_tool_calls` consults, in the order it consults them.
pub open spec fn json_candidates(a: Seq<char>) -> Seq<Seq<char>> {
    tagged_bodies(a) + fenced_json_bodies(a) + json_line_candidates(lines(a)) + seq![trim(a)]
}

/// The tool calls in an answer.
///
/// Write-file blocks, XML-style tags, `<tool_call>` blocks, fenced JSON and fenced shell
/// blocks are read together, in that order. Only when they yield nothing are
/// line-delimited JSON calls tried, then the whole answer as one JSON call, then the
/// malformed `write_file` shape.
pub open spec fn parsed_calls(a: Seq<char>, p: ModelProfile, d: ToolCallDecodings) -> Result<
    Seq<ToolCallView>,
    ParseErrorView,
> {
    match write_file_blocks(a, p) {
        Err((tag, e)) => Err(ParseErrorView::MissingWriteFilePath(tag, e)),
        Ok(w) => match decode_every(tagged_bodies(a), d) {
            Err(j) => Err(ParseErrorView::MalformedToolCall(j, d.reason(j))),
            Ok(t) => {
                let all = w + xml_style_calls(a) + t + decoded_only(fenced_json_bodies(a), d)
                    + fenced_shell_calls(a);
                if all.len() > 0 {
                    Ok(all)
                } else {
                    let l = line_calls(json_line_candidates(lines(a)), d);
                    if l.len() > 0 {
                        Ok(l)
                    } else {
                        match d.decode(trim(a)) {
                            Some(c) => Ok(seq![c]),
                            None => match malformed_write_file(a) {
                                Err((t, e)) => Err(ParseErrorView::MissingMalformedWriteFilePath(t, e)),
                                Ok(Some(c)) => Ok(seq![c]),
                                Ok(None) => Ok(empty_calls()),
                            },
                        }
                    }
                }
            },
        },
    }
}

/// An answer that asks for a tool Mini Codex does not have (such as a Python library).
pub open spec fn unsupported_tool_request(a: Seq<char>) -> bool {
    missing_tool_request(lowercase(a))
}

/// A lowercased answer that asks for a tool call and names a tool Mini Codex does not
/// have.
pub open spec fn missing_tool_request(lower: Seq<char>) -> bool {
    (contains(lower, "tool call"@) || contains(lower, "tool_calls"@)) && (contains(
        lower,
        "beautifulsoup"@,
    ) || contains(lower, "```python"@) || contains(lower, "\"parser\""@) || contains(
        lower,
        "unsupported tool"@,
    ) || contains(lower, "library will help"@))
}

pub open spec fn unsupported_tool_feedback_text() -> Seq<char> {
    "The previous response requested an unsupported tool. Mini Codex only supports shell, read_file, write_file, patch_file, and list_dir. If parsing HTML or structured text is needed, use the shell tool to run an available command or script. Output only the next supported tool call if more work is needed."@
}

// ---------------------------------------------------------------------------
// Implementation
// ---------------------------------------------------------------------------

/// The trimmed bodies of the `<tool_call>` blocks of `s`.
fn tagged_bodies_of(s: &[char]) -> (r: Vec<Vec<char>>)
    ensures
        seq_views(r@) == tagged_bodies(s@),
{
    let om = chars_of("<tool_call>");
    let cm = chars_of("</tool_call>");
    proof {
        reveal_strlit("</tool_call>");
    }
    let mut r: Vec<Vec<char>> = Vec::new();
    let mut pos: usize = 0;
    assert(s@.skip(0) =~= s@);
    assert(seq_views(r@) + tagged_bodies(s@) =~= tagged_bodies(s@));
    loop
        invariant
            pos <= s@.len(),
            om@ == "<tool_call>"@,
            cm@ == "</tool_call>"@,
            cm@.len() > 0,
            tagged_bodies(s@) == seq_views(r@) + tagged_bodies(s@.skip(pos as int)),
        decreases s@.len() - pos,
    {
        let ghost rest = s@.skip(pos as int);
        let st = match find_from(s, pos, &om) {
            None => {
                assert(seq_views(r@) + tagged_bodies(rest) =~= seq_views(r@));
                return r;
            },
            Some(k) => k,
        };
        let a = pos + st + om.len();
        assert(rest.skip(st + om@.len()) =~= s@.skip(a as int));
        let e = match find_from(s, a, &cm) {
            None => {
                assert(seq_views(r@) + tagged_bodies(rest) =~= seq_views(r@));
                return r;
            },
            Some(k) => k,
        };
        let (b0, b1) = trim_bounds(s, a, a + e);
        let body = slice_vec(s, b0, b1);
        assert(s@.skip(a as int).take(e as int) =~= s@.subrange(a as int, a + e));
        assert(s@.skip(a as int).skip(e + cm@.len()) =~= s@.skip(a + e + cm@.len()));
        let ghost before = seq_views(r@);
        r.push(body);
        assert(seq_views(r@) =~= before.push(body@));
        pos = a + e + cm.len();
        assert(before + tagged_bodies(rest) =~= seq_views(r@) + tagged_bodies(
            s@.skip(pos as int),
        ));
    }
}

/// Every body decoded, or the first that does not decode.
fn decode_every_of(bodies: &Vec<Vec<char>>, d: &ToolCallDecodings) -> (r: Result<
    Vec<ToolCall>,
    Vec<char>,
>)
    ensures
        match r {
            Ok(v) => decode_every(seq_views(bodies@), *d) == Ok::<_, Seq<char>>(calls_view(v@)),
            Err(e) => decode_every(seq_views(bodies@), *d) == Err::<Seq<ToolCallView>, _>(e@),
        },
{
    let ghost bs = seq_views(bodies@);
    let mut out: Vec<ToolCall> = Vec::new();
    let mut i: usize = 0;
    assert(bs.skip(0) =~= bs);
    assert(calls_view(out@) =~= Seq::<ToolCallView>::empty());
    proof {
        match decode_every(bs, *d) {
            Ok(v) => assert(Seq::<ToolCallView>::empty() + v =~= v),
            Err(_) => {},
        }
    }
    while i < bodies.len()
        invariant
            i <= bodies@.len(),
            bs == seq_views(bodies@),
            decode_every(bs, *d) == prepend(calls_view(out@), decode_every(bs.skip(i as int), *d)),
        decreases bodies@.len() - i,
    {
        let ghost rest = bs.skip(i as int);
        assert(rest[0] == bodies@[i as int]@);
        assert(rest.drop_first() =~= bs.skip(i + 1));
        match d.lookup(&bodies[i]) {
            None => {
                let mut e: Vec<char> = Vec::new();
                push_chars(&mut e, &bodies[i]);
                assert(e@ =~= bodies@[i as int]@);
                return Err(e);
            },
            Some(c) => {
                let ghost before = calls_view(out@);
                let ghost cv = c@;
                out.push(c);
                assert(calls_view(out@) =~= before.push(cv));
                proof {
                    match decode_every(bs.skip(i + 1), *d) {
                        Ok(v) => assert(before + (seq![cv] + v) =~= before.push(cv) + v),
                        Err(_) => {},
                    }
                }
            },
        }
        i = i + 1;
    }
    assert(bs.skip(i as int) =~= Seq::<Seq<char>>::empty());
    assert(calls_view(out@) + Seq::<ToolCallView>::empty() =~= calls_view(out@));
    Ok(out)
}

/// The decoded texts, skipping those that do not decode.
fn decoded_only_of(texts: &Vec<Vec<char>>, d: &ToolCallDecodings) -> (r: Vec<ToolCall>)
    ensures
        calls_view(r@) == decoded_only(seq_views(texts@), *d),
{
    let ghost ts = seq_views(texts@);
    let mut out: Vec<ToolCall> = Vec::new();
    let mut i: usize = 0;
    assert(ts.skip(0) =~= ts);
    assert(calls_view(out@) + decoded_only(ts, *d) =~= decoded_only(ts, *d));
    while i < texts.len()
        invariant
            i <= texts@.len(),
            ts == seq_views(texts@),
            decoded_only(ts, *d) == calls_view(out@) + decoded_only(ts.skip(i as int), *d),
        decreases texts@.len() - i,
    {
        let ghost rest = ts.skip(i as int);
        assert(rest[0] == texts@[i as int]@);
        assert(rest.drop_first() =~= ts.skip(i + 1));
        let ghost before = calls_view(out@);
        match d.lookup(&texts[i]) {
            None => {},
            Some(c) => {
                let ghost cv = c@;
                out.push(c);
                assert(calls_view(out@) =~= before.push(cv));
                assert(before + (seq![cv] + decoded_only(ts.skip(i + 1), *d)) =~= calls_view(
                    out@,
                ) + decoded_only(ts.skip(i + 1), *d));
            },
        }
        i = i + 1;
    }
    assert(ts.skip(i as int) =~= Seq::<Seq<char>>::empty());
    assert(calls_view(out@) + Seq::<ToolCallView>::empty() =~= calls_view(out@));
    out
}

/// The `<write_file>` blocks of `s`.
pub fn parse_write_file_blocks(s: &[char], p: &ModelProfile) -> (r: Result<
    Vec<ToolCall>,
    (Vec<char>, AttrError),
>)
    ensures
        match r {
            Ok(v) => write_file_blocks(s@, *p) == Ok::<_, (Seq<char>, AttrErrorView)>(
                calls_view(v@),
            ),
            Err((t, e)) => write_file_blocks(s@, *p) == Err::<Seq<ToolCallView>, _>((t@, e@)),
        },
{
    let om = chars_of("<write_file");
    let cm = chars_of("</write_file>");
    let gt = ['>'];
    assert(gt@ =~= seq!['>']);
    let mut out: Vec<ToolCall> = Vec::new();
    let mut pos: usize = 0;
    assert(s@.skip(0) =~= s@);
    assert(calls_view(out@) =~= Seq::<ToolCallView>::empty());
    proof {
        match write_file_blocks(s@, *p) {
            Ok(v) => assert(Seq::<ToolCallView>::empty() + v =~= v),
            Err(_) => {},
        }
    }
    loop
        invariant
            pos <= s@.len(),
            om@ == "<write_file"@,
            cm@ == "</write_file>"@,
            gt@ == seq!['>'],
            write_file_blocks(s@, *p) == prepend(
                calls_view(out@),
                write_file_blocks(s@.skip(pos as int), *p),
            ),
        decreases s@.len() - pos,
    {
        let ghost rest = s@.skip(pos as int);
        let st = match find_from(s, pos, &om) {
            None => {
                assert(calls_view(out@) + empty_calls() =~= calls_view(out@));
                return Ok(out);
            },
            Some(k) => k,
        };
        let a = pos + st;
        assert(rest.skip(st as int) =~= s@.skip(a as int));
        let rel = match find_from(s, a, &gt) {
            None => {
                assert(calls_view(out@) + empty_calls() =~= calls_view(out@));
                return Ok(out);
            },
            Some(k) => k,
        };
        let oe = a + rel;
        let tag = slice_vec(s, a, oe + 1);
        assert(rest.subrange(st as int, st + rel + 1) =~= tag@);
        let path = match extract_attr(&tag, "path") {
            Err(e) => return Err((tag, e)),
            Ok(v) => v,
        };
        let cs = oe + 1;
        assert(rest.skip(st + rel + 1) =~= s@.skip(cs as int));
        let cl = match find_from(s, cs, &cm) {
            None => {
                assert(calls_view(out@) + empty_calls() =~= calls_view(out@));
                return Ok(out);
            },
            Some(k) => k,
        };
        let raw = slice_vec(s, cs, cs + cl);
        assert(rest.subrange(st + rel + 1, st + rel + 1 + cl) =~= raw@);
        let content = p.normalize_block(&raw);
        let call = ToolCall::build(
            "write_file",
            String::new(),
            String::new(),
            string_of(&path),
            string_of(&content),
        );
        let ghost cv = call@;
        let ghost before = calls_view(out@);
        out.push(call);
        assert(calls_view(out@) =~= before.push(cv));
        pos = cs + cl + cm.len();
        assert(rest.skip(st + rel + 1 + cl + cm@.len()) =~= s@.skip(pos as int));
        proof {
            match write_file_blocks(s@.skip(pos as int), *p) {
                Ok(v) => assert(before + (seq![cv] + v) =~= calls_view(out@) + v),
                Err(_) => {},
            }
        }
    }
}

/// The self-closing `<tool .../>` tags of `s`.
pub fn parse_xml_style_named_tool_calls(s: &[char], tool: &str) -> (r: Vec<ToolCall>)
    ensures
        calls_view(r@) == xml_calls(s@, tool@),
{
    let mut open: Vec<char> = Vec::new();
    open.push('<');
    push_str(&mut open, tool);
    assert(open@ =~= seq!['<'] + tool@);
    let close = ['/', '>'];
    assert(close@ =~= seq!['/', '>']);
    let mut out: Vec<ToolCall> = Vec::new();
    let mut pos: usize = 0;
    assert(s@.skip(0) =~= s@);
    assert(calls_view(out@) + xml_calls(s@, tool@) =~= xml_calls(s@, tool@));
    loop
        invariant
            pos <= s@.len(),
            open@ == seq!['<'] + tool@,
            close@ == seq!['/', '>'],
            xml_calls(s@, tool@) == calls_view(out@) + xml_calls(s@.skip(pos as int), tool@),
        decreases s@.len() - pos,
    {
        let ghost rest = s@.skip(pos as int);
        let st = match find_from(s, pos, &open) {
            None => {
                assert(calls_view(out@) + empty_calls() =~= calls_view(out@));
                return out;
            },
            Some(k) => k,
        };
        let a = pos + st;
        assert(rest.skip(st as int) =~= s@.skip(a as int));
        let rel = match find_from(s, a, &close) {
            None => {
                assert(calls_view(out@) + empty_calls() =~= calls_view(out@));
                return out;
            },
            Some(k) => k,
        };
        let e = a + rel + 2;
        let tag = slice_vec(s, a, e);
        assert(rest.subrange(st as int, st + rel + 2) =~= tag@);
        let cmd = attr_or_default(&tag, "cmd");
        let cwd = attr_or_default(&tag, "cwd");
        let path = attr_or_default(&tag, "path");
        let call = ToolCall::build(tool, cmd, cwd, path, String::new());
        let ghost cv = call@;
        let ghost before = calls_view(out@);
        out.push(call);
        assert(calls_view(out@) =~= before.push(cv));
        pos = e;
        assert(rest.skip(st + rel + 2) =~= s@.skip(pos as int));
        assert(before + (seq![cv] + xml_calls(s@.skip(pos as int), tool@)) =~= calls_view(out@)
            + xml_calls(s@.skip(pos as int), tool@));
    }
}

/// The XML-style `read_file`, `list_dir` and `shell` tags of `s`, grouped by tool.
pub fn parse_xml_style_tool_calls(s: &[char]) -> (r: Vec<ToolCall>)
    ensures
        calls_view(r@) == xml_style_calls(s@),
{
    let mut a = parse_xml_style_named_tool_calls(s, "read_file");
    let mut b = parse_xml_style_named_tool_calls(s, "list_dir");
    let mut c = parse_xml_style_named_tool_calls(s, "shell");
    let ghost (av, bv, cv) = (calls_view(a@), calls_view(b@), calls_view(c@));
    a.append(&mut b);
    a.append(&mut c);
    assert(calls_view(a@) =~= av + bv + cv);
    a
}

/// The trimmed fenced bodies of `s` that look like JSON tool calls.
fn fenced_json_bodies_of(s: &[char]) -> (r: Vec<Vec<char>>)
    ensures
        seq_views(r@) == fenced_json_bodies(s@),
{
    let brace = ['{'];
    assert(brace@ =~= seq!['{']);
    let tool_key = chars_of("\"tool\"");
    let mut out: Vec<Vec<char>> = Vec::new();
    let mut pos: usize = 0;
    assert(s@.skip(0) =~= s@);
    assert(seq_views(out@) + fenced_json_bodies(s@) =~= fenced_json_bodies(s@));
    loop
        invariant
            pos <= s@.len(),
            brace@ == seq!['{'],
            tool_key@ == "\"tool\""@,
            fenced_json_bodies(s@) == seq_views(out@) + fenced_json_bodies(s@.skip(pos as int)),
        decreases s@.len() - pos,
    {
        let ghost rest = s@.skip(pos as int);
        let f = match next_fence_from(s, pos) {
            None => {
                assert(seq_views(out@) + Seq::<Seq<char>>::empty() =~= seq_views(out@));
                return out;
            },
            Some(f) => f,
        };
        let ghost fr = (f.start - pos, f.body_start - pos, f.body_end - pos);
        let (b0, b1) = trim_bounds(s, f.body_start, f.body_end);
        let body = slice_vec(s, b0, b1);
        assert(rest.subrange(fr.1, fr.2) =~= s@.subrange(f.body_start as int, f.body_end as int));
        assert(body@ == crate::scan::fence_body(rest, fr));
        let next = f.body_end + 3;
        assert(rest.skip(fr.2 + 3) =~= s@.skip(next as int));
        let ghost before = seq_views(out@);
        if starts_with_chars(&body, &brace) && contains_chars(&body, &tool_key) {
            let ghost bv = body@;
            out.push(body);
            assert(seq_views(out@) =~= before.push(bv));
            assert(before + (seq![bv] + fenced_json_bodies(s@.skip(next as int))) =~= seq_views(
                out@,
            ) + fenced_json_bodies(s@.skip(next as int)));
        }
        pos = next;
    }
}

/// The fenced shell blocks of `s`, as shell calls.
pub fn parse_fenced_shell_tool_calls(s: &[char]) -> (r: Vec<ToolCall>)
    ensures
        calls_view(r@) == fenced_shell_calls(s@),
{
    let mut out: Vec<ToolCall> = Vec::new();
    let mut pos: usize = 0;
    assert(s@.skip(0) =~= s@);
    assert(calls_view(out@) + fenced_shell_calls(s@) =~= fenced_shell_calls(s@));
    loop
        invariant
            pos <= s@.len(),
            fenced_shell_calls(s@) == calls_view(out@) + fenced_shell_calls(s@.skip(pos as int)),
        decreases s@.len() - pos,
    {
        let ghost rest = s@.skip(pos as int);
        let f = match next_fence_from(s, pos) {
            None => {
                assert(calls_view(out@) + empty_calls() =~= calls_view(out@));
                return out;
            },
            Some(f) => f,
        };
        let ghost fr = (f.start - pos, f.body_start - pos, f.body_end - pos);
        let lang_raw = slice_vec(s, f.start + 3, f.body_start - 1);
        assert(rest.subrange(fr.0 + 3, fr.1 - 1) =~= lang_raw@);
        let lang_trim = trim_chars(&lang_raw);
        let lang = chars_of(to_lowercase(string_of(&lang_trim).as_str()).as_str());
        assert(lang@ == fence_tag(rest, fr));
        let (b0, b1) = trim_bounds(s, f.body_start, f.body_end);
        let body = slice_vec(s, b0, b1);
        assert(rest.subrange(fr.1, fr.2) =~= s@.subrange(f.body_start as int, f.body_end as int));
        assert(body@ == fence_body(rest, fr));
        let next = f.body_end + 3;
        assert(rest.skip(fr.2 + 3) =~= s@.skip(next as int));
        let is_shell_lang = is_shell_language(&lang);
        if is_shell_lang && body.len() > 0 && !looks_like_json_tool_call(&body) {
            let call = ToolCall::build(
                "shell",
                string_of(&body),
                String::new(),
                String::new(),
                String::new(),
            );
            let ghost cv = call@;
            let ghost before = calls_view(out@);
            out.push(call);
            assert(calls_view(out@) =~= before.push(cv));
            assert(before + (seq![cv] + fenced_shell_calls(s@.skip(next as int))) =~= calls_view(
                out@,
            ) + fenced_shell_calls(s@.skip(next as int)));
        }
        pos = next;
    }
}

/// The trimmed lines of `s` that look like one-line JSON tool calls.
fn json_line_candidates_of(s: &[char]) -> (r: Vec<Vec<char>>)
    ensures
        seq_views(r@) == json_line_candidates(lines(s@)),
{
    let ls = lines_of(s);
    let ghost lv = seq_views(ls@);
    let brace = ['{'];
    let close = ['}'];
    assert(brace@ =~= seq!['{']);
    assert(close@ =~= seq!['}']);
    let tool_key = chars_of("\"tool\"");
    let mut out: Vec<Vec<char>> = Vec::new();
    let mut i: usize = 0;
    assert(lv.skip(0) =~= lv);
    assert(seq_views(out@) + json_line_candidates(lv) =~= json_line_candidates(lv));
    while i < ls.len()
        invariant
            i <= ls@.len(),
            lv == seq_views(ls@),
            brace@ == seq!['{'],
            close@ == seq!['}'],
            tool_key@ == "\"tool\""@,
            json_line_candidates(lv) == seq_views(out@) + json_line_candidates(lv.skip(i as int)),
        decreases ls@.len() - i,
    {
        let ghost rest = lv.skip(i as int);
        assert(rest[0] == ls@[i as int]@);
        assert(rest.drop_first() =~= lv.skip(i + 1));
        let t = trim_chars(&ls[i]);
        let ghost before = seq_views(out@);
        if t.len() > 0 && starts_with_chars(&t, &brace) && ends_with_chars(&t, &close)
            && contains_chars(&t, &tool_key) {
            let ghost tv = t@;
            out.push(t);
            assert(seq_views(out@) =~= before.push(tv));
            assert(before + (seq![tv] + json_line_candidates(lv.skip(i + 1))) =~= seq_views(out@)
                + json_line_candidates(lv.skip(i + 1)));
        }
        i = i + 1;
    }
    assert(lv.skip(i as int) =~= Seq::<Seq<char>>::empty());
    assert(seq_views(out@) + Seq::<Seq<char>>::empty() =~= seq_views(out@));
    out
}

/// A one-line shell call with unescaped quotes in its command.
pub fn parse_lenient_shell_json_tool_call(line: &[char]) -> (r: Option<ToolCall>)
    ensures
        crate::types::opt_call_view(r) == lenient_shell(line@),
{
    let pre = chars_of("{\"tool\":\"shell\",\"cmd\":\"");
    let suf = chars_of("\"}");
    if !starts_with_chars(line, &pre) {
        return None;
    }
    let r = slice_vec(line, pre.len(), line.len());
    assert(r@ =~= line@.skip(pre@.len() as int));
    if !ends_with_chars(&r, &suf) {
        return None;
    }
    let body = slice_vec(&r, 0, r.len() - suf.len());
    assert(body@ =~= r@.take(r@.len() - suf@.len()));
    let esc_quote = chars_of("\\\"");
    let quote = chars_of("\"");
    let esc_backslash = chars_of("\\\\");
    let backslash = chars_of("\\");
    proof {
        reveal_strlit("\\\"");
        reveal_strlit("\\\\");
    }
    let step = replace_chars(&body, &esc_quote, &quote);
    let cmd = replace_chars(&step, &esc_backslash, &backslash);
    Some(ToolCall::build("shell", string_of(&cmd), String::new(), String::new(), String::new()))
}

/// Each candidate line decoded, or read leniently, or skipped.
fn line_calls_of(cands: &Vec<Vec<char>>, d: &ToolCallDecodings) -> (r: Vec<ToolCall>)
    ensures
        calls_view(r@) == line_calls(seq_views(cands@), *d),
{
    let ghost cs = seq_views(cands@);
    let mut out: Vec<ToolCall> = Vec::new();
    let mut i: usize = 0;
    assert(cs.skip(0) =~= cs);
    assert(calls_view(out@) + line_calls(cs, *d) =~= line_calls(cs, *d));
    while i < cands.len()
        invariant
            i <= cands@.len(),
            cs == seq_views(cands@),
            line_calls(cs, *d) == calls_view(out@) + line_calls(cs.skip(i as int), *d),
        decreases cands@.len() - i,
    {
        let ghost rest = cs.skip(i as int);
        assert(rest[0] == cands@[i as int]@);
        assert(rest.drop_first() =~= cs.skip(i + 1));
        let ghost before = calls_view(out@);
        let found = match d.lookup(&cands[i]) {
            Some(c) => Some(c),
            None => parse_lenient_shell_json_tool_call(&cands[i]),
        };
        match found {
            Some(c) => {
                let ghost cv = c@;
                out.push(c);
                assert(calls_view(out@) =~= before.push(cv));
                assert(before + (seq![cv] + line_calls(cs.skip(i + 1), *d)) =~= calls_view(out@)
                    + line_calls(cs.skip(i + 1), *d));
            },
            None => {},
        }
        i = i + 1;
    }
    assert(cs.skip(i as int) =~= Seq::<Seq<char>>::empty());
    assert(calls_view(out@) + Seq::<ToolCallView>::empty() =~= calls_view(out@));
    out
}

/// The malformed `write_file` shape.
pub fn parse_malformed_write_file_call(a: &[char]) -> (r: Result<
    Option<ToolCall>,
    (Vec<char>, FieldError),
>)
    ensures
        match r {
            Ok(o) => malformed_write_file(a@) == Ok::<_, (Seq<char>, FieldErrorView)>(
                crate::types::opt_call_view(o),
            ),
            Err((t, e)) => malformed_write_file(a@) == Err::<Option<ToolCallView>, _>((t@, e@)),
        },
{
    let t = trim_chars(a);
    let w = chars_of("\"tool\":\"write_file\"");
    let c = chars_of("\"content\"=");
    if !contains_chars(&t, &w) || !contains_chars(&t, &c) {
        return Ok(None);
    }
    let path = match extract_json_string_field(&t, "path") {
        Err(e) => return Err((t, e)),
        Ok(v) => v,
    };
    assert(t@.skip(0) =~= t@);
    let cs = match find_from(&t, 0, &c) {
        None => return Ok(None),
        Some(k) => k,
    };
    let raw = trim_chars(&slice_vec(&t, cs + c.len(), t.len()));
    assert(t@.subrange(cs + c@.len(), t@.len() as int) =~= t@.skip(cs + c@.len()));
    let quote = ['"'];
    let close = ['}'];
    assert(quote@ =~= seq!['"']);
    assert(close@ =~= seq!['}']);
    let c1 = if starts_with_chars(&raw, &quote) {
        slice_vec(&raw, 1, raw.len())
    } else {
        slice_vec(&raw, 0, raw.len())
    };
    assert(raw@.subrange(1, raw@.len() as int) =~= raw@.skip(1));
    assert(raw@.subrange(0, raw@.len() as int) =~= raw@);
    let c2 = if ends_with_chars(&c1, &close) {
        slice_vec(&c1, 0, c1.len() - 1)
    } else {
        slice_vec(&c1, 0, c1.len())
    };
    assert(c1@.subrange(0, c1@.len() - 1) =~= c1@.drop_last());
    assert(c1@.subrange(0, c1@.len() as int) =~= c1@);
    let c3 = if ends_with_chars(&c2, &quote) {
        slice_vec(&c2, 0, c2.len() - 1)
    } else {
        slice_vec(&c2, 0, c2.len())
    };
    assert(c2@.subrange(0, c2@.len() - 1) =~= c2@.drop_last());
    assert(c2@.subrange(0, c2@.len() as int) =~= c2@);
    let esc_n = chars_of("\\n");
    let nl = chars_of("\n");
    let esc_quote = chars_of("\\\"");
    let q = chars_of("\"");
    proof {
        reveal_strlit("\\n");
        reveal_strlit("\\\"");
    }
    let step = replace_chars(&c3, &esc_n, &nl);
    let content = replace_chars(&step, &esc_quote, &q);
    Ok(
        Some(
            ToolCall::build(
                "write_file",
                String::new(),
                String::new(),
                string_of(&path),
                string_of(&content),
            ),
        ),
    )
}

/// The `<tool_call>` blocks decoded, or the first body that does not decode.
pub fn parse_tagged_tool_call_blocks(s: &[char], d: &ToolCallDecodings) -> (r: Result<
    Vec<ToolCall>,
    Vec<char>,
>)
    ensures
        match r {
            Ok(v) => decode_every(tagged_bodies(s@), *d) == Ok::<_, Seq<char>>(calls_view(v@)),
            Err(e) => decode_every(tagged_bodies(s@), *d) == Err::<Seq<ToolCallView>, _>(e@),
        },
{
    let bodies = tagged_bodies_of(s);
    decode_every_of(&bodies, d)
}

/// The fenced JSON tool calls that decode.
pub fn parse_fenced_tool_calls(s: &[char], d: &ToolCallDecodings) -> (r: Vec<ToolCall>)
    ensures
        calls_view(r@) == decoded_only(fenced_json_bodies(s@), *d),
{
    let bodies = fenced_json_bodies_of(s);
    decoded_only_of(&bodies, d)
}

/// The one-line JSON tool calls, decoded or read leniently.
pub fn parse_line_delimited_json_tool_calls(s: &[char], d: &ToolCallDecodings) -> (r: Vec<
    ToolCall,
>)
    ensures
        calls_view(r@) == line_calls(json_line_candidates(lines(s@)), *d),
{
    let cands = json_line_candidates_of(s);
    line_calls_of(&cands, d)
}

/// The texts of `answer` that the JSON decoder must judge before `parse_tool_calls`
/// can read it: `<tool_call>` bodies, fenced JSON bodies, JSON-looking lines and the
/// whole trimmed answer.
pub fn tool_call_json_candidates(answer: &str) -> (r: Vec<String>)
    ensures
        strings_view(r@) == json_candidates(answer@),
{
    let a = chars_of(answer);
    let mut v = tagged_bodies_of(&a);
    let mut f = fenced_json_bodies_of(&a);
    let mut l = json_line_candidates_of(&a);
    let ghost (vv, fv, lv) = (seq_views(v@), seq_views(f@), seq_views(l@));
    v.append(&mut f);
    v.append(&mut l);
    let whole = trim_chars(&a);
    let ghost wv = whole@;
    v.push(whole);
    assert(seq_views(v@) =~= vv + fv + lv + seq![wv]);
    strings_of(&v)
}

/// The tool calls in a model answer, given the decoder's verdicts on its candidate texts.
pub fn parse_tool_calls(
    answer: &str,
    model_profile: &ModelProfile,
    decodings: &ToolCallDecodings,
) -> (r: Result<Vec<ToolCall>, ParseError>)
    ensures
        match r {
            Ok(v) => parsed_calls(answer@, *model_profile, *decodings) == Ok::<
                _,
                ParseErrorView,
            >(calls_view(v@)),
            Err(e) => parsed_calls(answer@, *model_profile, *decodings) == Err::<
                Seq<ToolCallView>,
                _,
            >(e@),
        },
{
    let a = chars_of(answer);
    let mut calls = match parse_write_file_blocks(&a, model_profile) {
        Err((t, e)) => return Err(ParseError::MissingWriteFilePath(string_of(&t), e)),
        Ok(v) => v,
    };
    let mut xml = parse_xml_style_tool_calls(&a);
    let mut tagged = match parse_tagged_tool_call_blocks(&a, decodings) {
        Err(j) => {
            let reason = decodings.reason_for(&j);
            return Err(ParseError::MalformedToolCall(string_of(&j), reason));
        },
        Ok(v) => v,
    };
    let mut fenced = parse_fenced_tool_calls(&a, decodings);
    let mut shell = parse_fenced_shell_tool_calls(&a);
    let ghost parts = (
        calls_view(calls@),
        calls_view(xml@),
        calls_view(tagged@),
        calls_view(fenced@),
        calls_view(shell@),
    );
    calls.append(&mut xml);
    calls.append(&mut tagged);
    calls.append(&mut fenced);
    calls.append(&mut shell);
    assert(calls_view(calls@) =~= parts.0 + parts.1 + parts.2 + parts.3 + parts.4);
    if calls.len() > 0 {
        return Ok(calls);
    }
    let line_calls = parse_line_delimited_json_tool_calls(&a, decodings);
    if line_calls.len() > 0 {
        return Ok(line_calls);
    }
    let whole = trim_chars(&a);
    match decodings.lookup(&whole) {
        Some(c) => {
            let mut v: Vec<ToolCall> = Vec::new();
            let ghost cv = c@;
            v.push(c);
            assert(calls_view(v@) =~= seq![cv]);
            return Ok(v);
        },
        None => {},
    }
    match parse_malformed_write_file_call(&a) {
        Err((t, e)) => Err(ParseError::MissingMalformedWriteFilePath(string_of(&t), e)),
        Ok(Some(c)) => {
            let mut v: Vec<ToolCall> = Vec::new();
            let ghost cv = c@;
            v.push(c);
            assert(calls_view(v@) =~= seq![cv]);
            Ok(v)
        },
        Ok(None) => {
            let v: Vec<ToolCall> = Vec::new();
            assert(calls_view(v@) =~= empty_calls());
            Ok(v)
        },
    }
}

/// Whether the answer asks for a tool that does not exist, such as a parsing library.
pub fn looks_like_unsupported_tool_request(answer: &str) -> (b: bool)
    ensures
        b == unsupported_tool_request(answer@),
{
    let lower = to_lowercase(answer);
    asks_for_missing_tool(lower.as_str())
}

/// Whether an already lowercased answer asks for a tool call and names a tool that does
/// not exist.
pub fn asks_for_missing_tool(lower: &str) -> (b: bool)
    ensures
        b == missing_tool_request(lower@),
{
    let lower = chars_of(lower);
    let asks_for_call = contains_chars(&lower, &chars_of("tool call")) || contains_chars(
        &lower,
        &chars_of("tool_calls"),
    );
    asks_for_call && (contains_chars(&lower, &chars_of("beautifulsoup")) || contains_chars(
        &lower,
        &chars_of("```python"),
    ) || contains_chars(&lower, &chars_of("\"parser\"")) || contains_chars(
        &lower,
        &chars_of("unsupported tool"),
    ) || contains_chars(&lower, &chars_of("library will help")))
}

/// A fence language tag (already trimmed and lowercased) that marks a shell block.
pub open spec fn shell_language(tag: Seq<char>) -> bool {
    tag == "bash"@ || tag == "sh"@ || tag == "shell"@
}

/// Whether a trimmed, lowercased fence language tag marks a shell block.
pub fn is_shell_language(tag: &[char]) -> (b: bool)
    ensures
        b == shell_language(tag@),
{
    eq_chars(tag, &chars_of("bash")) || eq_chars(tag, &chars_of("sh")) || eq_chars(
        tag,
        &chars_of("shell"),
    )
}

/// The message that asks the model to use a supported tool instead.
pub fn unsupported_tool_feedback() -> (r: String)
    ensures
        r@ == unsupported_tool_feedback_text(),
{
    "The previous response requested an unsupported tool. Mini Codex only supports shell, read_file, write_file, patch_file, and list_dir. If parsing HTML or structured text is needed, use the shell tool to run an available command or script. Output only the next supported tool call if more work is needed.".to_owned()
}

/// The two decoders give the same verdict, and the same reason, on each of `texts`.
pub open spec fn agree_on(texts: Seq<Seq<char>>, d1: ToolCallDecodings, d2: ToolCallDecodings) -> bool {
    forall|i: int|
        0 <= i < texts.len() ==> d1.decode(#[trigger] texts[i]) == d2.decode(texts[i])
            && d1.reason(texts[i]) == d2.reason(texts[i])
}

pub(crate) proof fn lemma_agree_split(x: Seq<Seq<char>>, y: Seq<Seq<char>>, d1: ToolCallDecodings, d2: ToolCallDecodings)
    requires
        agree_on(x + y, d1, d2),
    ensures
        agree_on(x, d1, d2),
        agree_on(y, d1, d2),
{
    assert forall|i: int| 0 <= i < x.len() implies d1.decode(#[trigger] x[i]) == d2.decode(x[i])
        && d1.reason(x[i]) == d2.reason(x[i]) by {
        assert((x + y)[i] == x[i]);
    }
    assert forall|i: int| 0 <= i < y.len() implies d1.decode(#[trigger] y[i]) == d2.decode(y[i])
        && d1.reason(y[i]) == d2.reason(y[i]) by {
        assert((x + y)[x.len() + i] == y[i]);
    }
}

pub(crate) proof fn lemma_agree_rest(x: Seq<Seq<char>>, d1: ToolCallDecodings, d2: ToolCallDecodings)
    requires
        agree_on(x, d1, d2),
        x.len() > 0,
    ensures
        agree_on(x.drop_first(), d1, d2),
        d1.decode(x[0]) == d2.decode(x[0]),
        d1.reason(x[0]) == d2.reason(x[0]),
{
    assert forall|i: int| 0 <= i < x.drop_first().len() implies d1.decode(#[trigger] x.drop_first()[i]) == d2.decode(x.drop_first()[i])
        && d1.reason(x.drop_first()[i]) == d2.reason(x.drop_first()[i]) by {
        assert(x.drop_first()[i] == x[i + 1]);
    }
}

proof fn lemma_decode_every_agree(b: Seq<Seq<char>>, d1: ToolCallDecodings, d2: ToolCallDecodings)
    requires
        agree_on(b, d1, d2),
    ensures
        decode_every(b, d1) == decode_every(b, d2),
        decode_every(b, d1) matches Err(j) ==> d1.reason(j) == d2.reason(j),
    decreases b.len(),
{
    if b.len() > 0 {
        lemma_agree_rest(b, d1, d2);
        lemma_decode_every_agree(b.drop_first(), d1, d2);
    }
}

proof fn lemma_decoded_only_agree(b: Seq<Seq<char>>, d1: ToolCallDecodings, d2: ToolCallDecodings)
    requires
        agree_on(b, d1, d2),
    ensures
        decoded_only(b, d1) == decoded_only(b, d2),
    decreases b.len(),
{
    if b.len() > 0 {
        lemma_agree_rest(b, d1, d2);
        lemma_decoded_only_agree(b.drop_first(), d1, d2);
    }
}

proof fn lemma_line_calls_agree(b: Seq<Seq<char>>, d1: ToolCallDecodings, d2: ToolCallDecodings)
    requires
        agree_on(b, d1, d2),
    ensures
        line_calls(b, d1) == line_calls(b, d2),
    decreases b.len(),
{
    if b.len() > 0 {
        lemma_agree_rest(b, d1, d2);
        lemma_line_calls_agree(b.drop_first(), d1, d2);
    }
}

/// The parser consults the JSON decoder on the candidate texts of the answer and on
/// nothing else: two decoders that agree on every text of `json_candidates(a)` parse
/// the answer alike. So a table of verdicts on just those texts parses as the decoder
/// itself would.
pub proof fn lemma_parse_reads_only_candidates(
    a: Seq<char>,
    p: ModelProfile,
    d1: ToolCallDecodings,
    d2: ToolCallDecodings,
)
    requires
        agree_on(json_candidates(a), d1, d2),
    ensures
        parsed_calls(a, p, d1) == parsed_calls(a, p, d2),
{
    let tb = tagged_bodies(a);
    let fb = fenced_json_bodies(a);
    let lc = json_line_candidates(lines(a));
    let w = seq![trim(a)];
    assert(json_candidates(a) == tb + fb + lc + w);
    lemma_agree_split(tb + fb + lc, w, d1, d2);
    lemma_agree_split(tb + fb, lc, d1, d2);
    lemma_agree_split(tb, fb, d1, d2);
    lemma_decode_every_agree(tb, d1, d2);
    lemma_decoded_only_agree(fb, d1, d2);
    lemma_line_calls_agree(lc, d1, d2);
    assert(w[0] == trim(a));
}

/// A fenced block whose language tag, trimmed and lowercased, is `bash`, `sh` or
/// `shell`, and whose trimmed body is non-empty and not shaped like a JSON tool call, is
/// read as one shell call that runs the body, ahead of the calls of the blocks after it.
pub proof fn lemma_shell_fence_is_a_call(s: Seq<char>)
    requires
        next_fence(s) is Some,
        ({
            let f = next_fence(s)->0;
            let tag = lowercase(trim(s.subrange(f.0 + 3, f.1 - 1)));
            let body = trim(s.subrange(f.1, f.2));
            &&& tag == "bash"@ || tag == "sh"@ || tag == "shell"@
            &&& body.len() > 0
            &&& !looks_like_json_call(body)
        }),
    ensures
        ({
            let f = next_fence(s)->0;
            fenced_shell_calls(s) == seq![
                call_view("shell"@, trim(s.subrange(f.1, f.2)), Seq::empty(), Seq::empty(), Seq::empty()),
            ] + fenced_shell_calls(s.skip(f.2 + 3))
        }),
{
    crate::scan::lemma_next_fence(s);
}

/// The shell calls of fenced blocks are part of what an answer parses to: when there
/// are any and the answer parses, the parsed calls end with them.
pub proof fn lemma_parse_keeps_shell_fences(a: Seq<char>, p: ModelProfile, d: ToolCallDecodings)
    ensures
        parsed_calls(a, p, d) matches Ok(v) ==> (fenced_shell_calls(a).len() > 0 ==> v.skip(
            v.len() - fenced_shell_calls(a).len(),
        ) == fenced_shell_calls(a)),
{
    match write_file_blocks(a, p) {
        Err(_) => {},
        Ok(w) => match decode_every(tagged_bodies(a), d) {
            Err(_) => {},
            Ok(t) => {
                let sh = fenced_shell_calls(a);
                let front = w + xml_style_calls(a) + t + decoded_only(fenced_json_bodies(a), d);
                let all = front + sh;
                if sh.len() > 0 {
                    assert(all.skip(all.len() - sh.len()) =~= sh);
                }
            },
        },
    }
}

} // verus!
