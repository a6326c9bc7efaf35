//! Scanning primitives for model answers: fenced Markdown blocks, tag attributes,
//! JSON-style string fields and the shape of a JSON tool call.
use vstd::prelude::*;
use crate::text::{
    chars_of, contains, contains_chars, ends_with, ends_with_chars, find, find_from, lowercase,
    push_str, slice_vec, starts_with, starts_with_chars, string_of, trim, trim_chars,
};

verus! {

pub open spec fn fence_mark() -> Seq<char> {
    seq!['`', '`', '`']
}

pub open spec fn newline() -> Seq<char> {
    seq!['\n']
}

pub open spec fn quote() -> Seq<char> {
    seq!['"']
}

/// The next complete fenced block of `s`: the index of its opening fence, the index
/// where its body starts (after the first newline that follows the opening fence) and
/// the index of the closing fence.
pub open spec fn next_fence(s: Seq<char>) -> Option<(int, int, int)> {
    match find(s, fence_mark()) {
        None => None,
        Some(fs) => if !(0 <= fs && fs + 3 <= s.len()) {
            None
        } else {
            match find(s.skip(fs + 3), newline()) {
                None => None,
                Some(nl) => if !(0 <= nl && fs + 3 + nl + 1 <= s.len()) {
                    None
                } else {
                    let bs = fs + 3 + nl + 1;
                    match find(s.skip(bs), fence_mark()) {
                        None => None,
                        Some(rel) => if !(0 <= rel && bs + rel + 3 <= s.len()) {
                            None
                        } else {
                            Some((fs, bs, bs + rel))
                        },
                    }
                },
            }
        },
    }
}

/// The text between the opening fence and the newline that ends the fence line.
pub open spec fn fence_language(s: Seq<char>, f: (int, int, int)) -> Seq<char> {
    s.subrange(f.0 + 3, f.1 - 1)
}

/// The trimmed body of a fenced block.
pub open spec fn fence_body(s: Seq<char>, f: (int, int, int)) -> Seq<char> {
    trim(s.subrange(f.1, f.2))
}

/// The fence line's language tag as the code compares it: trimmed and lowercased.
pub open spec fn fence_tag(s: Seq<char>, f: (int, int, int)) -> Seq<char> {
    lowercase(trim(fence_language(s, f)))
}

pub proof fn lemma_next_fence(s: Seq<char>)
    ensures
        next_fence(s) matches Some(f) ==> 0 <= f.0 && f.0 + 4 <= f.1 <= f.2 && f.2 + 3
            <= s.len(),
{
}

/// A located fenced block of a character vector: absolute positions of the opening
/// fence, the body start and the closing fence.
pub struct Fence {
    pub start: usize,
    pub body_start: usize,
    pub body_end: usize,
}

/// The next fenced block in `s[pos..]`, at absolute positions.
pub fn next_fence_from(s: &[char], pos: usize) -> (r: Option<Fence>)
    requires
        pos <= s@.len(),
    ensures
        match r {
            Some(f) => next_fence(s@.skip(pos as int)) == Some(
                (f.start - pos, f.body_start - pos, f.body_end - pos),
            ) && pos <= f.start && f.start + 4 <= f.body_start <= f.body_end && f.body_end + 3
                <= s@.len(),
            None => next_fence(s@.skip(pos as int)) is None,
        },
        s@.len() <= usize::MAX,
{
    let _ = s.len();
    let ghost rest = s@.skip(pos as int);
    let fence = ['`', '`', '`'];
    let nl = ['\n'];
    assert(fence@ =~= fence_mark());
    assert(nl@ =~= newline());
    let fs = match find_from(s, pos, &fence) {
        None => return None,
        Some(k) => k,
    };
    let a = pos + fs + 3;
    assert(rest.skip(fs + 3) =~= s@.skip(a as int));
    let n = match find_from(s, a, &nl) {
        None => return None,
        Some(k) => k,
    };
    let bs = a + n + 1;
    assert(rest.skip(fs + 3 + n + 1) =~= s@.skip(bs as int));
    let rel = match find_from(s, bs, &fence) {
        None => return None,
        Some(k) => k,
    };
    Some(Fence { start: pos + fs, body_start: bs, body_end: bs + rel })
}

/// Why an attribute could not be read (each with the attribute's name).
#[derive(Debug)]
pub enum AttrError {
    /// The tag has no `attr="`.
    NotFound(String),
    /// The value has no closing double quote.
    Unterminated(String),
}

pub enum AttrErrorView {
    NotFound(Seq<char>),
    Unterminated(Seq<char>),
}

impl View for AttrError {
    type V = AttrErrorView;

    open spec fn view(&self) -> AttrErrorView {
        match self {
            AttrError::NotFound(a) => AttrErrorView::NotFound(a@),
            AttrError::Unterminated(a) => AttrErrorView::Unterminated(a@),
        }
    }
}

pub open spec fn attr_error_message(e: AttrErrorView) -> Seq<char> {
    match e {
        AttrErrorView::NotFound(a) => "attribute not found: "@ + a,
        AttrErrorView::Unterminated(a) => "unterminated attribute: "@ + a,
    }
}

impl AttrError {
    /// The error message.
    pub fn message(&self) -> (r: String)
        ensures
            r@ == attr_error_message(self@),
    {
        let (mut head, tail) = match self {
            AttrError::NotFound(a) => ("attribute not found: ".to_owned(), a.as_str()),
            AttrError::Unterminated(a) => ("unterminated attribute: ".to_owned(), a.as_str()),
        };
        head.append(tail);
        head
    }
}

/// Reading `attr="..."` in a tag: the text after the first `attr="` up to the next
/// double quote, or why there is none.
pub open spec fn attr_lookup(tag: Seq<char>, attr: Seq<char>) -> Result<Seq<char>, AttrErrorView> {
    let prefix = attr + seq!['=', '"'];
    match find(tag, prefix) {
        None => Err(AttrErrorView::NotFound(attr)),
        Some(st) => if !(0 <= st && st + prefix.len() <= tag.len()) {
            Err(AttrErrorView::NotFound(attr))
        } else {
            let vs = st + prefix.len();
            match find(tag.skip(vs), quote()) {
                None => Err(AttrErrorView::Unterminated(attr)),
                Some(e) => if !(0 <= e && vs + e <= tag.len()) {
                    Err(AttrErrorView::Unterminated(attr))
                } else {
                    Ok(tag.subrange(vs, vs + e))
                },
            }
        },
    }
}

/// The value of `attr="..."` in a tag, if it can be read.
pub open spec fn attr_value(tag: Seq<char>, attr: Seq<char>) -> Option<Seq<char>> {
    match attr_lookup(tag, attr) {
        Ok(v) => Some(v),
        Err(_) => None,
    }
}

/// An attribute's value, or the empty text where it is missing or unterminated.
pub open spec fn attr_or_empty(tag: Seq<char>, attr: Seq<char>) -> Seq<char> {
    match attr_value(tag, attr) {
        Some(v) => v,
        None => Seq::empty(),
    }
}

/// The value of `attr="..."` in `tag`, or why it cannot be read.
pub fn extract_attr(tag: &[char], attr: &str) -> (r: Result<Vec<char>, AttrError>)
    ensures
        match r {
            Ok(v) => attr_lookup(tag@, attr@) == Ok::<_, AttrErrorView>(v@),
            Err(e) => attr_lookup(tag@, attr@) == Err::<Seq<char>, _>(e@),
        },
{
    let mut prefix = chars_of(attr);
    prefix.push('=');
    prefix.push('"');
    assert(prefix@ =~= attr@ + seq!['=', '"']);
    assert(tag@.skip(0) =~= tag@);
    let st = match find_from(tag, 0, &prefix) {
        None => return Err(AttrError::NotFound(attr.to_owned())),
        Some(k) => k,
    };
    let vs = st + prefix.len();
    let q = ['"'];
    assert(q@ =~= quote());
    let e = match find_from(tag, vs, &q) {
        None => return Err(AttrError::Unterminated(attr.to_owned())),
        Some(k) => k,
    };
    Ok(slice_vec(tag, vs, vs + e))
}

/// An attribute's value as a string, empty where it is missing or unterminated.
pub fn attr_or_default(tag: &[char], attr: &str) -> (r: String)
    ensures
        r@ == attr_or_empty(tag@, attr@),
{
    match extract_attr(tag, attr) {
        Ok(v) => string_of(&v),
        Err(_) => String::new(),
    }
}

/// The characters that a JSON-style escape `\c` stands for.
pub open spec fn escape_value(c: char) -> Seq<char> {
    if c == 'n' {
        seq!['\n']
    } else if c == 't' {
        seq!['\t']
    } else if c == 'r' {
        seq!['\r']
    } else if c == '"' {
        seq!['"']
    } else if c == '\\' {
        seq!['\\']
    } else {
        seq!['\\', c]
    }
}

/// The unescaped contents of a string whose opening quote has been consumed, up to the
/// first unescaped closing quote; none when the string is unterminated.
pub open spec fn scan_string(s: Seq<char>) -> Option<Seq<char>>
    decreases s.len(),
{
    if s.len() == 0 {
        None
    } else if s[0] == '\\' {
        if s.len() == 1 {
            None
        } else {
            match scan_string(s.skip(2)) {
                Some(rest) => Some(escape_value(s[1]) + rest),
                None => None,
            }
        }
    } else if s[0] == '"' {
        Some(Seq::empty())
    } else {
        match scan_string(s.drop_first()) {
            Some(rest) => Some(seq![s[0]] + rest),
            None => None,
        }
    }
}

/// Why a JSON-style string field could not be read (each with the field's name).
#[derive(Debug)]
pub enum FieldError {
    /// The input has no `"field":`.
    NotFound(String),
    /// The value does not start with a double quote.
    NotAString(String),
    /// The string has no unescaped closing quote.
    Unterminated(String),
}

pub enum FieldErrorView {
    NotFound(Seq<char>),
    NotAString(Seq<char>),
    Unterminated(Seq<char>),
}

impl View for FieldError {
    type V = FieldErrorView;

    open spec fn view(&self) -> FieldErrorView {
        match self {
            FieldError::NotFound(f) => FieldErrorView::NotFound(f@),
            FieldError::NotAString(f) => FieldErrorView::NotAString(f@),
            FieldError::Unterminated(f) => FieldErrorView::Unterminated(f@),
        }
    }
}

pub open spec fn field_error_message(e: FieldErrorView) -> Seq<char> {
    match e {
        FieldErrorView::NotFound(f) => "field not found: "@ + f,
        FieldErrorView::NotAString(f) => "field is not a string: "@ + f,
        FieldErrorView::Unterminated(f) => "unterminated string field: "@ + f,
    }
}

impl FieldError {
    /// The error message.
    pub fn message(&self) -> (r: String)
        ensures
            r@ == field_error_message(self@),
    {
        let (mut head, tail) = match self {
            FieldError::NotFound(f) => ("field not found: ".to_owned(), f.as_str()),
            FieldError::NotAString(f) => ("field is not a string: ".to_owned(), f.as_str()),
            FieldError::Unterminated(f) => ("unterminated string field: ".to_owned(), f.as_str()),
        };
        head.append(tail);
        head
    }
}

/// Reading the string value of `"field":"..."` in `input`, leniently: escapes `\n`, `\t`,
/// `\r`, `\"` and `\\` are decoded and any other escape is kept as written. Or why it
/// cannot be read.
pub open spec fn json_field_lookup(input: Seq<char>, field: Seq<char>) -> Result<
    Seq<char>,
    FieldErrorView,
> {
    let prefix = seq!['"'] + field + seq!['"', ':'];
    match find(input, prefix) {
        None => Err(FieldErrorView::NotFound(field)),
        Some(st) => if !(0 <= st && st + prefix.len() <= input.len()) {
            Err(FieldErrorView::NotFound(field))
        } else {
            let value = input.skip(st + prefix.len());
            if value.len() > 0 && value[0] == '"' {
                match scan_string(value.drop_first()) {
                    Some(v) => Ok(v),
                    None => Err(FieldErrorView::Unterminated(field)),
                }
            } else {
                Err(FieldErrorView::NotAString(field))
            }
        },
    }
}

/// The string value of `"field":"..."` in `input`, if it can be read.
pub open spec fn json_string_field(input: Seq<char>, field: Seq<char>) -> Option<Seq<char>> {
    match json_field_lookup(input, field) {
        Ok(v) => Some(v),
        Err(_) => None,
    }
}

/// Decodes the string that starts at `s[pos..]` (after its opening quote).
pub fn scan_string_from(s: &[char], pos: usize) -> (r: Option<Vec<char>>)
    requires
        pos <= s@.len(),
    ensures
        match r {
            Some(v) => scan_string(s@.skip(pos as int)) == Some(v@),
            None => scan_string(s@.skip(pos as int)) is None,
        },
{
    let mut out: Vec<char> = Vec::new();
    let mut i: usize = pos;
    let slen = s.len();
    // The unescaped text so far, followed by what the rest decodes to, is what the
    // whole string decodes to.
    while i < slen
        invariant
            pos <= i <= slen,
            slen == s@.len(),
            scan_string(s@.skip(pos as int)) == match scan_string(s@.skip(i as int)) {
                Some(rest) => Some(out@ + rest),
                None => None::<Seq<char>>,
            },
        decreases slen - i,
    {
        let ghost rest = s@.skip(i as int);
        let c = s[i];
        if c == '\\' {
            if i + 1 >= slen {
                assert(rest.len() == 1);
                return None;
            }
            let e = s[i + 1];
            let ghost before = out@;
            if e == 'n' {
                out.push('\n');
            } else if e == 't' {
                out.push('\t');
            } else if e == 'r' {
                out.push('\r');
            } else if e == '"' {
                out.push('"');
            } else if e == '\\' {
                out.push('\\');
            } else {
                out.push('\\');
                out.push(e);
            }
            assert(out@ =~= before + escape_value(rest[1]));
            assert(rest.skip(2) =~= s@.skip(i + 2));
            proof {
                match scan_string(s@.skip(i + 2)) {
                    Some(r2) => {
                        assert(before + (escape_value(rest[1]) + r2) =~= out@ + r2);
                    },
                    None => {},
                }
            }
            i = i + 2;
        } else if c == '"' {
            assert(scan_string(rest) == Some(Seq::<char>::empty()));
            assert(out@ + Seq::<char>::empty() =~= out@);
            return Some(out);
        } else {
            let ghost before = out@;
            out.push(c);
            assert(rest.drop_first() =~= s@.skip(i + 1));
            proof {
                match scan_string(s@.skip(i + 1)) {
                    Some(r2) => {
                        assert(before + (seq![c] + r2) =~= out@ + r2);
                    },
                    None => {},
                }
            }
            i = i + 1;
        }
    }
    assert(s@.skip(i as int).len() == 0);
    None
}

/// The string value of `"field":"..."` in `input`, or why it cannot be read.
pub fn extract_json_string_field(input: &[char], field: &str) -> (r: Result<Vec<char>, FieldError>)
    ensures
        match r {
            Ok(v) => json_field_lookup(input@, field@) == Ok::<_, FieldErrorView>(v@),
            Err(e) => json_field_lookup(input@, field@) == Err::<Seq<char>, _>(e@),
        },
{
    let mut prefix: Vec<char> = Vec::new();
    prefix.push('"');
    push_str(&mut prefix, field);
    prefix.push('"');
    prefix.push(':');
    assert(prefix@ =~= seq!['"'] + field@ + seq!['"', ':']);
    assert(input@.skip(0) =~= input@);
    let st = match find_from(input, 0, &prefix) {
        None => return Err(FieldError::NotFound(field.to_owned())),
        Some(k) => k,
    };
    let vs = st + prefix.len();
    let ghost value = input@.skip(vs as int);
    if vs < input.len() && input[vs] == '"' {
        assert(value.drop_first() =~= input@.skip(vs + 1));
        match scan_string_from(input, vs + 1) {
            Some(v) => Ok(v),
            None => Err(FieldError::Unterminated(field.to_owned())),
        }
    } else {
        Err(FieldError::NotAString(field.to_owned()))
    }
}

/// A text shaped like a JSON tool call: trimmed, it starts with `{`, ends with `}`
/// and mentions `"tool"`.
pub open spec fn looks_like_json_call(input: Seq<char>) -> bool {
    let t = trim(input);
    starts_with(t, seq!['{']) && ends_with(t, seq!['}']) && contains(t, "\"tool\""@)
}

/// Whether `input` is shaped like a JSON tool call.
pub fn looks_like_json_tool_call(input: &[char]) -> (b: bool)
    ensures
        b == looks_like_json_call(input@),
{
    let t = trim_chars(input);
    let open = ['{'];
    let close = ['}'];
    assert(open@ =~= seq!['{']);
    assert(close@ =~= seq!['}']);
    let tool_key = chars_of("\"tool\"");
    starts_with_chars(&t, &open) && ends_with_chars(&t, &close) && contains_chars(&t, &tool_key)
}

} // verus!
