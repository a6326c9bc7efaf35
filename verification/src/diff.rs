//! What the user and the model see of file edits: previews, a line diff, the hint to
//! prefer `patch_file` for small edits, and the edit outcomes themselves.
use vstd::prelude::*;
use crate::guidance::unchanged;
use crate::text::{
    count_char, lemma_join_lines_count, lemma_join_prefix, lemma_lines_no_newline,
    lemma_no_newline_count, no_newline, starts_with, chars_of, contains, lemma_find, contains_chars, eq_chars, find, find_from, join, join_chars, lines,
    lines_of, push_chars, push_str, seq_views, slice_vec, string_of, trim, trim_bounds,
};
use crate::types::{ChangedFile, ChangedFileView, ToolOutcome, ToolOutcomeView};

verus! {

pub const PREVIEW_MAX_CHARS: usize = 2000;

pub const DIFF_MAX_LINES: usize = 120;

pub open spec fn min(a: int, b: int) -> int {
    if a <= b {
        a
    } else {
        b
    }
}

pub open spec fn max(a: int, b: int) -> int {
    if a >= b {
        a
    } else {
        b
    }
}

/// At most the first 2000 characters, marked when cut; `<empty>` when nothing but
/// whitespace remains.
pub open spec fn preview_text(content: Seq<char>) -> Seq<char> {
    let head = content.take(min(PREVIEW_MAX_CHARS as int, content.len() as int));
    let p = if content.len() > PREVIEW_MAX_CHARS {
        head + "\n... <truncated>"@
    } else {
        head
    };
    if trim(p).len() == 0 {
        "<empty>"@
    } else {
        p
    }
}

/// A preview of file content.
pub fn preview(content: &str) -> (r: String)
    ensures
        r@ == preview_text(content@),
{
    let c = chars_of(content);
    let n = if c.len() < PREVIEW_MAX_CHARS {
        c.len()
    } else {
        PREVIEW_MAX_CHARS
    };
    let mut p = slice_vec(&c, 0, n);
    assert(p@ =~= c@.take(min(PREVIEW_MAX_CHARS as int, c@.len() as int)));
    if c.len() > PREVIEW_MAX_CHARS {
        push_str(&mut p, "\n... <truncated>");
    }
    let (a, b) = trim_bounds(&p, 0, p.len());
    assert(p@.subrange(0, p@.len() as int) =~= p@);
    if a == b {
        "<empty>".to_owned()
    } else {
        string_of(&p)
    }
}

/// The diff lines for line `i`: kept (`  `), changed (`- ` then `+ `), removed or added.
pub open spec fn diff_entry(b: Seq<Seq<char>>, a: Seq<Seq<char>>, i: int) -> Seq<Seq<char>> {
    if i < b.len() && i < a.len() {
        if b[i] == a[i] {
            seq!["  "@ + b[i]]
        } else {
            seq!["- "@ + b[i], "+ "@ + a[i]]
        }
    } else if i < b.len() {
        seq!["- "@ + b[i]]
    } else if i < a.len() {
        seq!["+ "@ + a[i]]
    } else {
        Seq::empty()
    }
}

/// The diff lines from line `i` on, given that `count` lines were written before; once
/// 120 lines are written, a truncation marker ends the diff.
pub open spec fn diff_lines_from(b: Seq<Seq<char>>, a: Seq<Seq<char>>, i: int, count: int) -> Seq<
    Seq<char>,
>
    decreases max(b.len() as int, a.len() as int) - i,
{
    if i < 0 || i >= max(b.len() as int, a.len() as int) {
        Seq::empty()
    } else if count >= DIFF_MAX_LINES {
        seq!["... <diff truncated>"@]
    } else {
        let e = diff_entry(b, a, i);
        e + diff_lines_from(b, a, i + 1, count + e.len())
    }
}

/// A line-by-line comparison of two texts (line `i` against line `i`, not a minimal diff).
pub open spec fn diff_text(before: Seq<char>, after: Seq<char>) -> Seq<char> {
    if before == after {
        "  <no changes>"@
    } else {
        join(
            seq!["--- before"@, "+++ after"@] + diff_lines_from(lines(before), lines(after), 0, 2),
            "\n"@,
        )
    }
}

fn prefixed(prefix: &str, line: &[char]) -> (r: Vec<char>)
    ensures
        r@ == prefix@ + line@,
{
    let mut v = chars_of(prefix);
    push_chars(&mut v, line);
    v
}

/// A line-by-line diff of two texts, cut after 120 lines.
pub fn simple_diff(before: &str, after: &str) -> (r: String)
    ensures
        r@ == diff_text(before@, after@),
{
    let bc = chars_of(before);
    let ac = chars_of(after);
    let bl = lines_of(&bc);
    let al = lines_of(&ac);
    if eq_chars(&bc, &ac) {
        return "  <no changes>".to_owned();
    }
    let ghost (b, a) = (seq_views(bl@), seq_views(al@));
    let mut out: Vec<Vec<char>> = Vec::new();
    out.push(chars_of("--- before"));
    out.push(chars_of("+++ after"));
    let ghost header = seq!["--- before"@, "+++ after"@];
    assert(seq_views(out@) =~= header);
    let max_len = if bl.len() >= al.len() {
        bl.len()
    } else {
        al.len()
    };
    let mut i: usize = 0;
    assert(header + diff_lines_from(b, a, 0, 2) =~= seq_views(out@) + diff_lines_from(
        b,
        a,
        0,
        out@.len() as int,
    ));
    while i < max_len
        invariant_except_break
            header + diff_lines_from(b, a, 0, 2) == seq_views(out@) + diff_lines_from(
                b,
                a,
                i as int,
                out@.len() as int,
            ),
        invariant
            b == seq_views(bl@),
            a == seq_views(al@),
            max_len == max(b.len() as int, a.len() as int),
            i <= max_len,
        ensures
            header + diff_lines_from(b, a, 0, 2) == seq_views(out@),
        decreases max_len - i,
    {
        let ghost before_out = seq_views(out@);
        if out.len() >= DIFF_MAX_LINES {
            out.push(chars_of("... <diff truncated>"));
            assert(seq_views(out@) =~= before_out + seq!["... <diff truncated>"@]);
            break;
        }
        let ghost e = diff_entry(b, a, i as int);
        if i < bl.len() && i < al.len() {
            if eq_chars(&bl[i], &al[i]) {
                out.push(prefixed("  ", &bl[i]));
            } else {
                out.push(prefixed("- ", &bl[i]));
                out.push(prefixed("+ ", &al[i]));
            }
        } else if i < bl.len() {
            out.push(prefixed("- ", &bl[i]));
        } else {
            out.push(prefixed("+ ", &al[i]));
        }
        assert(seq_views(out@) =~= before_out + e);
        assert(before_out + (e + diff_lines_from(b, a, i + 1, (before_out.len() + e.len()) as int))
            =~= seq_views(out@) + diff_lines_from(b, a, i + 1, out@.len() as int));
        i = i + 1;
        if i >= max_len {
            assert(seq_views(out@) + diff_lines_from(b, a, i as int, out@.len() as int)
                =~= seq_views(out@));
        }
    }
    let joined = join_chars(&out, &chars_of("\n"));
    string_of(&joined)
}

/// The length of the common prefix of `a` and `b`, counting from `i`.
pub open spec fn common_prefix_from(a: Seq<char>, b: Seq<char>, i: int) -> int
    decreases a.len() - i,
{
    if 0 <= i < a.len() && i < b.len() && a[i] == b[i] {
        common_prefix_from(a, b, i + 1)
    } else {
        i
    }
}

/// The length of the common suffix of `a` and `b` that does not reach into the first
/// `p` characters of either, counting from `k`.
pub open spec fn common_suffix_from(a: Seq<char>, b: Seq<char>, p: int, k: int) -> int
    decreases a.len() - k,
{
    if 0 <= p && 0 <= k && k + p < a.len() && k + p < b.len() && a[a.len() - 1 - k] == b[b.len()
        - 1 - k] {
        common_suffix_from(a, b, p, k + 1)
    } else {
        k
    }
}

/// How many characters an edit changed: the longer of the two middle parts left after
/// removing the longest common prefix and then the longest common suffix that does not
/// overlap it.
pub open spec fn changed_count(a: Seq<char>, b: Seq<char>) -> int {
    let p = common_prefix_from(a, b, 0);
    let s = common_suffix_from(a, b, p, 0);
    max(max(a.len() - (p + s), 0), max(b.len() - (p + s), 0))
}

proof fn lemma_prefix_bounds(a: Seq<char>, b: Seq<char>, i: int)
    requires
        0 <= i <= a.len(),
        i <= b.len(),
    ensures
        i <= common_prefix_from(a, b, i) <= a.len(),
        common_prefix_from(a, b, i) <= b.len(),
    decreases a.len() - i,
{
    if i < a.len() && i < b.len() && a[i] == b[i] {
        lemma_prefix_bounds(a, b, i + 1);
    }
}

proof fn lemma_suffix_bounds(a: Seq<char>, b: Seq<char>, p: int, k: int)
    requires
        0 <= p,
        0 <= k,
        k + p <= a.len(),
        k + p <= b.len(),
    ensures
        k <= common_suffix_from(a, b, p, k),
        common_suffix_from(a, b, p, k) + p <= a.len(),
        common_suffix_from(a, b, p, k) + p <= b.len(),
    decreases a.len() - k,
{
    if k + p < a.len() && k + p < b.len() && a[a.len() - 1 - k] == b[b.len() - 1 - k] {
        lemma_suffix_bounds(a, b, p, k + 1);
    }
}

/// How many characters separate `previous` from `next` (see `changed_count`).
pub fn changed_char_count(previous: &str, next: &str) -> (r: usize)
    ensures
        r as int == changed_count(previous@, next@),
{
    let a = chars_of(previous);
    let b = chars_of(next);
    let mut p: usize = 0;
    while p < a.len() && p < b.len() && a[p] == b[p]
        invariant
            p <= a@.len(),
            p <= b@.len(),
            common_prefix_from(a@, b@, 0) == common_prefix_from(a@, b@, p as int),
        decreases a@.len() - p,
    {
        p = p + 1;
    }
    let mut s: usize = 0;
    let alen = a.len();
    let blen = b.len();
    while s + p < alen && s + p < blen && a[alen - 1 - s] == b[blen - 1 - s]
        invariant
            alen == a@.len(),
            blen == b@.len(),
            p <= a@.len(),
            p <= b@.len(),
            s + p <= a@.len(),
            s + p <= b@.len(),
            common_prefix_from(a@, b@, 0) == p,
            common_suffix_from(a@, b@, p as int, 0) == common_suffix_from(a@, b@, p as int, s as int),
        decreases a@.len() - s,
    {
        s = s + 1;
    }
    let pa = a.len() - (p + s);
    let pb = b.len() - (p + s);
    if pa >= pb {
        pa
    } else {
        pb
    }
}

pub open spec fn patch_hint_text(path: Seq<char>) -> Seq<char> {
    "hint: this looks like a small edit to "@ + path + ". Prefer patch_file next time."@
}

/// A hint to use `patch_file`, for an overwrite of a non-empty file with different,
/// non-empty content that changes at most 200 characters or at most a quarter of the
/// longer text.
pub open spec fn patch_hint(previous: Seq<char>, next: Seq<char>, path: Seq<char>) -> Option<
    Seq<char>,
> {
    if previous == next || previous.len() == 0 || next.len() == 0 {
        None
    } else {
        let changed = changed_count(previous, next);
        let larger = max(max(previous.len() as int, next.len() as int), 1);
        if changed <= 200 || changed * 100 <= larger * 25 {
            Some(patch_hint_text(path))
        } else {
            None
        }
    }
}

/// The `patch_file` hint for overwriting `previous` with `next` at `path`, if any.
pub fn patch_hint_for_overwrite(previous: &str, next: &str, path: &str) -> (r: Option<String>)
    requires
        previous@.len() <= usize::MAX / 100,
        next@.len() <= usize::MAX / 100,
    ensures
        match r {
            Some(h) => patch_hint(previous@, next@, path@) == Some(h@),
            None => patch_hint(previous@, next@, path@) is None,
        },
{
    let a = chars_of(previous);
    let b = chars_of(next);
    if eq_chars(&a, &b) || a.len() == 0 || b.len() == 0 {
        return None;
    }
    let changed = changed_char_count(previous, next);
    proof {
        lemma_prefix_bounds(a@, b@, 0);
        lemma_suffix_bounds(a@, b@, common_prefix_from(a@, b@, 0), 0);
    }
    let larger0 = if a.len() >= b.len() {
        a.len()
    } else {
        b.len()
    };
    let larger = if larger0 >= 1 {
        larger0
    } else {
        1
    };
    assert(changed <= larger);
    if changed <= 200 || changed * 100 <= larger * 25 {
        let mut h = "hint: this looks like a small edit to ".to_owned();
        h.append(path);
        h.append(". Prefer patch_file next time.");
        Some(h)
    } else {
        None
    }
}

pub open spec fn previous_summary(previous: Seq<char>, next: Seq<char>, path: Seq<char>) -> Seq<
    char,
> {
    "\nprevious_content_preview:\n"@ + preview_text(previous) + match patch_hint(
        previous,
        next,
        path,
    ) {
        Some(h) => "\n"@ + h,
        None => Seq::empty(),
    }
}

/// The outcome of writing `content` to `path`, where `previous` is what the file held
/// before (none for a new file).
pub fn wrote_file_outcome(path: String, previous: Option<&str>, content: &str) -> (r: ToolOutcome)
    requires
        previous matches Some(p) ==> p@.len() <= usize::MAX / 100,
        content@.len() <= usize::MAX / 100,
    ensures
        r@ == (ToolOutcomeView {
            result: "wrote_file: "@ + path@ + match previous {
                Some(p) => previous_summary(p@, content@, path@),
                None => Seq::empty(),
            },
            changed_file: Some(ChangedFileView { action: "wrote"@, path: path@ }),
            command: None,
        }),
{
    let mut result = "wrote_file: ".to_owned();
    result.append(path.as_str());
    let ghost head = result@;
    match previous {
        Some(p) => {
            result.append("\nprevious_content_preview:\n");
            let pv = preview(p);
            result.append(pv.as_str());
            match patch_hint_for_overwrite(p, content, path.as_str()) {
                Some(h) => {
                    result.append("\n");
                    result.append(h.as_str());
                    assert(result@ =~= head + previous_summary(p@, content@, path@));
                },
                None => {
                    assert(result@ =~= head + previous_summary(p@, content@, path@));
                },
            }
        },
        None => {
            assert(result@ =~= head + Seq::<char>::empty());
        },
    }
    ToolOutcome {
        result,
        changed_file: Some(ChangedFile { action: "wrote".to_owned(), path }),
        command: None,
    }
}

/// Why a patch could not be applied.
#[derive(Debug)]
pub enum PatchError {
    /// The text to replace is empty.
    EmptyOld,
    /// The text to replace does not occur in the file.
    OldNotFound,
}

/// The file content with the first occurrence of `old` replaced by `new`.
pub open spec fn patched(content: Seq<char>, old_text: Seq<char>, new_text: Seq<char>) -> Result<
    Seq<char>,
    PatchError,
> {
    if old_text.len() == 0 {
        Err(PatchError::EmptyOld)
    } else {
        match find(content, old_text) {
            None => Err(PatchError::OldNotFound),
            Some(i) => if 0 <= i && i + old_text.len() <= content.len() {
                Ok(content.take(i) + new_text + content.skip(i + old_text.len()))
            } else {
                Err(PatchError::OldNotFound)
            },
        }
    }
}

/// Replaces the first occurrence of `old` in `content` by `new`.
pub fn apply_patch(content: &str, old: &str, new: &str) -> (r: Result<String, PatchError>)
    ensures
        match r {
            Ok(s) => patched(content@, old@, new@) == Ok::<_, PatchError>(s@),
            Err(e) => patched(content@, old@, new@) == Err::<Seq<char>, _>(e),
        },
{
    let c = chars_of(content);
    let o = chars_of(old);
    if o.len() == 0 {
        return Err(PatchError::EmptyOld);
    }
    assert(c@.skip(0) =~= c@);
    match find_from(&c, 0, &o) {
        None => Err(PatchError::OldNotFound),
        Some(i) => {
            let mut v = slice_vec(&c, 0, i);
            push_str(&mut v, new);
            let tail = slice_vec(&c, i + o.len(), c.len());
            push_chars(&mut v, &tail);
            assert(c@.subrange(0, i as int) =~= c@.take(i as int));
            assert(c@.subrange(i + o@.len(), c@.len() as int) =~= c@.skip(i + o@.len()));
            Ok(string_of(&v))
        },
    }
}

proof fn lemma_diff_lines_bound(b: Seq<Seq<char>>, a: Seq<Seq<char>>, i: int, count: int)
    requires
        count <= DIFF_MAX_LINES + 1,
    ensures
        count + diff_lines_from(b, a, i, count).len() <= DIFF_MAX_LINES + 2,
    decreases max(b.len() as int, a.len() as int) - i,
{
    if i < 0 || i >= max(b.len() as int, a.len() as int) {
    } else if count >= DIFF_MAX_LINES {
    } else {
        let e = diff_entry(b, a, i);
        lemma_diff_lines_bound(b, a, i + 1, count + e.len());
    }
}

/// A diff is short: its two header lines and the compared lines together make at most
/// 122 lines; past 120 lines the rest is cut and marked.
pub proof fn lemma_diff_is_short(before: Seq<char>, after: Seq<char>)
    ensures
        2 + diff_lines_from(lines(before), lines(after), 0, 2).len() <= DIFF_MAX_LINES + 2,
{
    lemma_diff_lines_bound(lines(before), lines(after), 0, 2);
}

/// A preview holds at most 2000 characters of the content and the truncation mark; it
/// is the content itself when that is short and not blank.
pub proof fn lemma_preview_bounds(content: Seq<char>)
    ensures
        preview_text(content).len() <= PREVIEW_MAX_CHARS + 16,
        content.len() <= PREVIEW_MAX_CHARS && trim(content).len() > 0 ==> preview_text(content)
            == content,
{
    reveal_strlit("\n... <truncated>");
    reveal_strlit("<empty>");
    if content.len() <= PREVIEW_MAX_CHARS {
        assert(content.take(content.len() as int) =~= content);
    }
}

/// The changed characters of an edit are no more than the longer text has, and an
/// edit that changes nothing changes no character.
pub proof fn lemma_changed_count_bounds(a: Seq<char>, b: Seq<char>)
    ensures
        0 <= changed_count(a, b) <= max(a.len() as int, b.len() as int),
        a == b ==> changed_count(a, b) == 0,
{
    lemma_prefix_bounds(a, b, 0);
    let p = common_prefix_from(a, b, 0);
    lemma_suffix_bounds(a, b, p, 0);
    if a == b {
        lemma_prefix_equal(a, 0);
        assert(common_suffix_from(a, b, p, 0) == 0) by {
            reveal_with_fuel(common_suffix_from, 2);
        }
    }
}

proof fn lemma_prefix_equal(a: Seq<char>, i: int)
    requires
        0 <= i <= a.len(),
    ensures
        common_prefix_from(a, a, i) == a.len(),
    decreases a.len() - i,
{
    if i < a.len() {
        lemma_prefix_equal(a, i + 1);
    }
}

/// Replacing a text by itself leaves the file as it was; any other successful patch
/// puts the new text where the first occurrence of the old one began, with the rest of
/// the file around it unchanged.
pub proof fn lemma_patch_in_place(content: Seq<char>, old_text: Seq<char>, new_text: Seq<char>)
    requires
        old_text.len() > 0,
        contains(content, old_text),
    ensures
        patched(content, old_text, new_text) is Ok,
        patched(content, old_text, old_text) == Ok::<_, PatchError>(content),
        patched(content, old_text, new_text) matches Ok(r) ==> r.len() == content.len()
            - old_text.len() + new_text.len(),
{
    lemma_find(content, old_text);
    let i = find(content, old_text)->0;
    assert(content.take(i) + old_text + content.skip(i + old_text.len()) =~= content);
}

proof fn lemma_prefix_symmetric(a: Seq<char>, b: Seq<char>, i: int)
    ensures
        common_prefix_from(a, b, i) == common_prefix_from(b, a, i),
    decreases a.len() - i,
{
    if 0 <= i < a.len() && i < b.len() && a[i] == b[i] {
        lemma_prefix_symmetric(a, b, i + 1);
    }
}

proof fn lemma_suffix_symmetric(a: Seq<char>, b: Seq<char>, p: int, k: int)
    ensures
        common_suffix_from(a, b, p, k) == common_suffix_from(b, a, p, k),
    decreases a.len() - k,
{
    if 0 <= p && 0 <= k && k + p < a.len() && k + p < b.len() && a[a.len() - 1 - k] == b[b.len()
        - 1 - k] {
        lemma_suffix_symmetric(a, b, p, k + 1);
    }
}

proof fn lemma_prefix_agrees(a: Seq<char>, b: Seq<char>, i: int)
    requires
        0 <= i,
        forall|j: int| 0 <= j < i ==> a[j] == b[j],
    ensures
        forall|j: int| 0 <= j < common_prefix_from(a, b, i) ==> a[j] == b[j],
    decreases a.len() - i,
{
    if 0 <= i < a.len() && i < b.len() && a[i] == b[i] {
        lemma_prefix_agrees(a, b, i + 1);
    }
}

/// The `j`-th characters from the end of `a` and `b` agree.
spec fn same_from_end(a: Seq<char>, b: Seq<char>, j: int) -> bool {
    a[a.len() - 1 - j] == b[b.len() - 1 - j]
}

proof fn lemma_suffix_agrees(a: Seq<char>, b: Seq<char>, p: int, k: int)
    requires
        0 <= k,
        forall|j: int| 0 <= j < k ==> #[trigger] same_from_end(a, b, j),
    ensures
        forall|j: int| 0 <= j < common_suffix_from(a, b, p, k) ==> #[trigger] same_from_end(a, b, j),
    decreases a.len() - k,
{
    if 0 <= p && 0 <= k && k + p < a.len() && k + p < b.len() && a[a.len() - 1 - k] == b[b.len()
        - 1 - k] {
        lemma_suffix_agrees(a, b, p, k + 1);
    }
}

/// The changed-character count does not depend on which text came first; it is at least
/// the difference of the two lengths; and it is 0 exactly when the texts are equal.
pub proof fn lemma_changed_count_laws(a: Seq<char>, b: Seq<char>)
    ensures
        changed_count(a, b) == changed_count(b, a),
        changed_count(a, b) >= a.len() - b.len(),
        changed_count(a, b) >= b.len() - a.len(),
        (changed_count(a, b) == 0) <==> (a == b),
{
    lemma_prefix_symmetric(a, b, 0);
    let p = common_prefix_from(a, b, 0);
    lemma_suffix_symmetric(a, b, p, 0);
    lemma_prefix_bounds(a, b, 0);
    lemma_suffix_bounds(a, b, p, 0);
    lemma_changed_count_bounds(a, b);
    let q = common_suffix_from(a, b, p, 0);
    if changed_count(a, b) == 0 {
        assert(a.len() == p + q && b.len() == p + q);
        lemma_prefix_agrees(a, b, 0);
        lemma_suffix_agrees(a, b, p, 0);
        assert forall|j: int| 0 <= j < a.len() implies a[j] == b[j] by {
            if j >= p {
                let m = a.len() - 1 - j;
                assert(0 <= m < q);
                assert(same_from_end(a, b, m));
            }
        }
        assert(a =~= b);
    }
}

/// A hint is given exactly for an overwrite of a non-empty file with different,
/// non-empty content that changes at most 200 characters or at most a quarter of the
/// longer text, and it names the path.
pub proof fn lemma_patch_hint_exact(previous: Seq<char>, next: Seq<char>, path: Seq<char>)
    ensures
        (patch_hint(previous, next, path) is Some) <==> (previous != next && previous.len() > 0
            && next.len() > 0 && (changed_count(previous, next) <= 200 || changed_count(
            previous,
            next,
        ) * 100 <= max(max(previous.len() as int, next.len() as int), 1) * 25)),
        patch_hint(previous, next, path) matches Some(h) ==> h == patch_hint_text(path),
{
}

proof fn lemma_no_newline_concat(x: Seq<char>, y: Seq<char>)
    requires
        no_newline(x),
        no_newline(y),
    ensures
        no_newline(x + y),
{
    assert forall|j: int| 0 <= j < (x + y).len() implies (x + y)[j] != '\n' by {
        if j >= x.len() {
            assert((x + y)[j] == y[j - x.len()]);
        }
    }
}

proof fn lemma_diff_lines_no_newline(b: Seq<Seq<char>>, a: Seq<Seq<char>>, i: int, count: int)
    requires
        forall|k: int| 0 <= k < b.len() ==> no_newline(#[trigger] b[k]),
        forall|k: int| 0 <= k < a.len() ==> no_newline(#[trigger] a[k]),
    ensures
        forall|k: int|
            0 <= k < diff_lines_from(b, a, i, count).len() ==> no_newline(
                #[trigger] diff_lines_from(b, a, i, count)[k],
            ),
    decreases max(b.len() as int, a.len() as int) - i,
{
    reveal_strlit("  ");
    reveal_strlit("- ");
    reveal_strlit("+ ");
    reveal_strlit("... <diff truncated>");
    let dl = diff_lines_from(b, a, i, count);
    if i < 0 || i >= max(b.len() as int, a.len() as int) {
    } else if count >= DIFF_MAX_LINES {
        assert(no_newline("... <diff truncated>"@));
    } else {
        let e = diff_entry(b, a, i);
        lemma_diff_lines_no_newline(b, a, i + 1, count + e.len());
        let rest = diff_lines_from(b, a, i + 1, count + e.len());
        assert(no_newline("  "@) && no_newline("- "@) && no_newline("+ "@));
        if i < b.len() {
            lemma_no_newline_concat("  "@, b[i]);
            lemma_no_newline_concat("- "@, b[i]);
        }
        if i < a.len() {
            lemma_no_newline_concat("+ "@, a[i]);
        }
        assert forall|k: int| 0 <= k < e.len() implies no_newline(#[trigger] e[k]) by {}
        assert(dl == e + rest);
        assert forall|k: int| 0 <= k < dl.len() implies no_newline(#[trigger] dl[k]) by {
            if k >= e.len() {
                assert(dl[k] == rest[k - e.len()]);
            } else {
                assert(dl[k] == e[k]);
            }
        }
    }
}

/// The diff of two texts is the no-changes line exactly when they are equal; the diff
/// of different texts starts with its two header lines; and a diff has at most 122
/// lines (at most 121 line breaks).
pub proof fn lemma_diff_text_shape(before: Seq<char>, after: Seq<char>)
    ensures
        (diff_text(before, after) == "  <no changes>"@) <==> (before == after),
        before != after ==> starts_with(diff_text(before, after), "--- before\n+++ after"@),
        count_char(diff_text(before, after), '\n') <= DIFF_MAX_LINES + 1,
{
    reveal_strlit("  <no changes>");
    reveal_strlit("--- before");
    reveal_strlit("+++ after");
    reveal_strlit("\n");
    reveal_strlit("--- before\n+++ after");
    if before == after {
        assert(no_newline("  <no changes>"@));
        lemma_no_newline_count("  <no changes>"@);
    } else {
        let b = lines(before);
        let a = lines(after);
        lemma_lines_no_newline(before);
        lemma_lines_no_newline(after);
        lemma_diff_lines_no_newline(b, a, 0, 2);
        lemma_diff_is_short(before, after);
        let header = seq!["--- before"@, "+++ after"@];
        let dl = diff_lines_from(b, a, 0, 2);
        let parts = header + dl;
        assert("\n"@ =~= seq!['\n']);
        assert(diff_text(before, after) == join(parts, seq!['\n']));
        assert forall|k: int| 0 <= k < parts.len() implies no_newline(#[trigger] parts[k]) by {
            if k >= 2 {
                assert(parts[k] == dl[k - 2]);
            } else if k == 0 {
                assert(no_newline("--- before"@));
            } else {
                assert(no_newline("+++ after"@));
            }
        }
        lemma_join_lines_count(parts);
        lemma_join_prefix(parts, seq!['\n'], 2);
        assert(parts.take(2) =~= header);
        assert(join(header, seq!['\n']) =~= "--- before\n+++ after"@) by {
            assert(header.drop_last() =~= seq!["--- before"@]);
            assert(join(seq!["--- before"@], seq!['\n']) == "--- before"@);
            assert(join(header, seq!['\n']) == join(header.drop_last(), seq!['\n']) + seq!['\n']
                + "+++ after"@);
        }
        let t = diff_text(before, after);
        let lit = "--- before\n+++ after"@;
        assert(starts_with(t, lit));
        assert(t.subrange(0, lit.len() as int)[0] == t[0]);
        assert(t[0] == '-');
        assert(("  <no changes>"@)[0] == ' ');
    }
}

} // verus!
