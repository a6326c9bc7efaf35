//! Character-level text model shared by the whole library: substring
//! search, trimming, line splitting, replacement and joining, each with a
//! mathematical definition over `Seq<char>` and a verified implementation.
use vstd::prelude::*;

verus! {

// ---------------------------------------------------------------------------
// Specifications
// ---------------------------------------------------------------------------

/// `p` occurs in `s` at character index `i`.
pub open spec fn matches_at(s: Seq<char>, p: Seq<char>, i: int) -> bool {
    0 <= i && i + p.len() <= s.len() && s.subrange(i, i + p.len()) == p
}

/// The first index at or after `i` where `p` occurs in `s`.
pub open spec fn find_at(s: Seq<char>, p: Seq<char>, i: int) -> Option<int>
    decreases s.len() - i,
{
    if i < 0 || i + p.len() > s.len() {
        None
    } else if s.subrange(i, i + p.len()) == p {
        Some(i)
    } else if i >= s.len() {
        None
    } else {
        find_at(s, p, i + 1)
    }
}

/// The first index where `p` occurs in `s` (what `str::find` returns, counted in characters).
pub open spec fn find(s: Seq<char>, p: Seq<char>) -> Option<int> {
    find_at(s, p, 0)
}

/// `p` occurs somewhere in `s`.
pub open spec fn contains(s: Seq<char>, p: Seq<char>) -> bool {
    find(s, p) is Some
}

pub open spec fn starts_with(s: Seq<char>, p: Seq<char>) -> bool {
    p.len() <= s.len() && s.subrange(0, p.len() as int) == p
}

pub open spec fn ends_with(s: Seq<char>, p: Seq<char>) -> bool {
    p.len() <= s.len() && s.subrange(s.len() - p.len(), s.len() as int) == p
}

/// The Unicode `White_Space` property, which `char::is_whitespace` tests.
pub open spec fn is_ws(c: char) -> bool {
    let u = c as u32;
    (0x09 <= u && u <= 0x0D) || u == 0x20 || u == 0x85 || u == 0xA0 || u == 0x1680 || (0x2000
        <= u && u <= 0x200A) || u == 0x2028 || u == 0x2029 || u == 0x202F || u == 0x205F || u
        == 0x3000
}

pub open spec fn trim_start(s: Seq<char>) -> Seq<char>
    decreases s.len(),
{
    if s.len() > 0 && is_ws(s[0]) {
        trim_start(s.drop_first())
    } else {
        s
    }
}

pub open spec fn trim_end(s: Seq<char>) -> Seq<char>
    decreases s.len(),
{
    if s.len() > 0 && is_ws(s.last()) {
        trim_end(s.drop_last())
    } else {
        s
    }
}

/// `str::trim`: leading and trailing whitespace removed.
pub open spec fn trim(s: Seq<char>) -> Seq<char> {
    trim_end(trim_start(s))
}

/// A line without the `\r` of a `\r\n` terminator.
pub open spec fn strip_cr(l: Seq<char>) -> Seq<char> {
    if l.len() > 0 && l.last() == '\r' {
        l.drop_last()
    } else {
        l
    }
}

/// `str::lines`: split at `\n`, dropping the terminator and a `\r` before it;
/// a final terminator does not start an empty line.
pub open spec fn lines(s: Seq<char>) -> Seq<Seq<char>>
    decreases s.len(),
{
    if s.len() == 0 {
        Seq::empty()
    } else {
        match find(s, seq!['\n']) {
            None => seq![s],
            Some(i) => if 0 <= i < s.len() {
                seq![strip_cr(s.take(i))] + lines(s.skip(i + 1))
            } else {
                seq![s]
            },
        }
    }
}

/// `str::replace` for a non-empty `from`: every non-overlapping occurrence of `from`, left
/// to right, replaced by `to`.
pub open spec fn replace_all(s: Seq<char>, from: Seq<char>, to: Seq<char>) -> Seq<char>
    decreases s.len(),
{
    if from.len() == 0 {
        s
    } else {
        match find(s, from) {
            None => s,
            Some(i) => if 0 <= i && i + from.len() <= s.len() {
                s.take(i) + to + replace_all(s.skip(i + from.len()), from, to)
            } else {
                s
            },
        }
    }
}

/// The parts separated by `sep` (what `join` on a slice of strings gives).
pub open spec fn join(parts: Seq<Seq<char>>, sep: Seq<char>) -> Seq<char>
    decreases parts.len(),
{
    if parts.len() == 0 {
        Seq::empty()
    } else if parts.len() == 1 {
        parts[0]
    } else {
        join(parts.drop_last(), sep) + sep + parts.last()
    }
}

/// How many times `c` occurs in `s`.
pub open spec fn count_char(s: Seq<char>, c: char) -> nat
    decreases s.len(),
{
    if s.len() == 0 {
        0
    } else {
        count_char(s.drop_last(), c) + if s.last() == c {
            1nat
        } else {
            0nat
        }
    }
}

/// `s` holds no line break.
pub open spec fn no_newline(s: Seq<char>) -> bool {
    forall|j: int| 0 <= j < s.len() ==> s[j] != '\n'
}

/// The decimal digit for `d < 10`.
pub open spec fn digit(d: nat) -> char {
    ((48 + d) as u8) as char
}

/// The decimal representation of `n`, as `Display` writes an unsigned integer.
pub open spec fn decimal(n: nat) -> Seq<char>
    decreases n,
{
    if n < 10 {
        seq![digit(n)]
    } else {
        decimal(n / 10).push(digit(n % 10))
    }
}

/// What `str::to_lowercase` returns for a string with these characters.
pub uninterp spec fn lowercase(s: Seq<char>) -> Seq<char>;

/// An ASCII character in lower case: `A`–`Z` become `a`–`z`, everything else is kept.
pub open spec fn ascii_lower(c: char) -> char {
    if 65 <= (c as u32) && (c as u32) <= 90 {
        ((c as u32) + 32) as char
    } else {
        c
    }
}

/// Every character is ASCII.
pub open spec fn all_ascii(s: Seq<char>) -> bool {
    forall|i: int| 0 <= i < s.len() ==> (#[trigger] s[i] as u32) < 128
}

/// The character sequences held by a sequence of character vectors.
pub open spec fn seq_views(v: Seq<Vec<char>>) -> Seq<Seq<char>> {
    v.map_values(|x: Vec<char>| x@)
}

/// The character sequences held by a sequence of strings.
pub open spec fn strings_view(v: Seq<String>) -> Seq<Seq<char>> {
    v.map_values(|x: String| x@)
}

pub open spec fn opt_int(o: Option<usize>) -> Option<int> {
    match o {
        Some(k) => Some(k as int),
        None => None,
    }
}

// ---------------------------------------------------------------------------
// Lemmas
// ---------------------------------------------------------------------------

/// `find_at` returns the first match at or after `i`, or none when there is none.
pub proof fn lemma_find_at(s: Seq<char>, p: Seq<char>, i: int)
    requires
        0 <= i,
    ensures
        match find_at(s, p, i) {
            Some(k) => i <= k && matches_at(s, p, k) && forall|j: int|
                i <= j < k ==> !matches_at(s, p, j),
            None => forall|j: int| i <= j ==> !matches_at(s, p, j),
        },
    decreases s.len() - i,
{
    if i + p.len() > s.len() {
    } else if s.subrange(i, i + p.len()) == p {
    } else if i >= s.len() {
        assert(s.subrange(i, i + p.len()) =~= p);
    } else {
        lemma_find_at(s, p, i + 1);
    }
}

/// `find` returns the first occurrence, or none when `p` does not occur.
pub proof fn lemma_find(s: Seq<char>, p: Seq<char>)
    ensures
        match find(s, p) {
            Some(k) => 0 <= k && k + p.len() <= s.len() && s.subrange(k, k + p.len()) == p
                && forall|j: int| 0 <= j < k ==> !matches_at(s, p, j),
            None => forall|j: int| 0 <= j ==> !matches_at(s, p, j),
        },
{
    lemma_find_at(s, p, 0);
}

/// A match at `k` with none before it is what `find` returns.
pub proof fn lemma_find_first(s: Seq<char>, p: Seq<char>, k: int)
    requires
        matches_at(s, p, k),
        forall|j: int| 0 <= j < k ==> !matches_at(s, p, j),
    ensures
        find(s, p) == Some(k),
{
    lemma_find(s, p);
    match find(s, p) {
        Some(k2) => {
            if k2 < k {
                assert(matches_at(s, p, k2));
            }
            if k < k2 {
                assert(!matches_at(s, p, k));
            }
        },
        None => {
            assert(!matches_at(s, p, k));
        },
    }
}

/// A text without the first character of `p` does not contain `p`.
pub proof fn lemma_find_missing_first_char(s: Seq<char>, p: Seq<char>)
    requires
        p.len() > 0,
        forall|j: int| 0 <= j < s.len() ==> s[j] != p[0],
    ensures
        find(s, p) is None,
{
    lemma_find(s, p);
    if let Some(k) = find(s, p) {
        assert(s.subrange(k, k + p.len())[0] == s[k]);
    }
}

/// A text with `p` at `k` contains `p`.
pub proof fn lemma_contains_at(s: Seq<char>, p: Seq<char>, k: int)
    requires
        matches_at(s, p, k),
    ensures
        contains(s, p),
{
    lemma_find(s, p);
}

/// Counting over a concatenation adds the counts.
pub proof fn lemma_count_char_concat(a: Seq<char>, b: Seq<char>, c: char)
    ensures
        count_char(a + b, c) == count_char(a, c) + count_char(b, c),
    decreases b.len(),
{
    if b.len() == 0 {
        assert(a + b =~= a);
    } else {
        assert((a + b).drop_last() =~= a + b.drop_last());
        assert((a + b).last() == b.last());
        lemma_count_char_concat(a, b.drop_last(), c);
    }
}

/// A text without line breaks counts none.
pub proof fn lemma_no_newline_count(s: Seq<char>)
    requires
        no_newline(s),
    ensures
        count_char(s, '\n') == 0,
    decreases s.len(),
{
    if s.len() > 0 {
        assert(no_newline(s.drop_last()));
        lemma_no_newline_count(s.drop_last());
    }
}

/// The lines of a text hold no line breaks.
pub proof fn lemma_lines_no_newline(s: Seq<char>)
    ensures
        forall|i: int| 0 <= i < lines(s).len() ==> no_newline(#[trigger] lines(s)[i]),
    decreases s.len(),
{
    if s.len() > 0 {
        lemma_find(s, seq!['\n']);
        match find(s, seq!['\n']) {
            None => {
                assert forall|j: int| 0 <= j < s.len() implies s[j] != '\n' by {
                    if s[j] == '\n' {
                        assert(s.subrange(j, j + 1) =~= seq!['\n']);
                        assert(matches_at(s, seq!['\n'], j));
                    }
                }
            },
            Some(i) => {
                if 0 <= i < s.len() {
                    lemma_lines_no_newline(s.skip(i + 1));
                    let first = strip_cr(s.take(i));
                    assert forall|j: int| 0 <= j < first.len() implies first[j] != '\n' by {
                        if first[j] == '\n' {
                            assert(s[j] == '\n');
                            assert(s.subrange(j, j + 1) =~= seq!['\n']);
                            assert(matches_at(s, seq!['\n'], j));
                        }
                    }
                    let ls = lines(s);
                    let rest = lines(s.skip(i + 1));
                    assert(ls == seq![first] + rest);
                    assert forall|k: int| 0 <= k < ls.len() implies no_newline(#[trigger] ls[k]) by {
                        if k > 0 {
                            assert(ls[k] == rest[k - 1]);
                        }
                    }
                } else {
                    assert forall|j: int| 0 <= j < s.len() implies s[j] != '\n' by {
                        if s[j] == '\n' {
                            assert(s.subrange(j, j + 1) =~= seq!['\n']);
                        }
                    }
                }
            },
        }
    }
}

/// Joining parts that hold no line breaks with line breaks gives one line break fewer
/// than there are parts.
pub proof fn lemma_join_lines_count(parts: Seq<Seq<char>>)
    requires
        parts.len() > 0,
        forall|i: int| 0 <= i < parts.len() ==> no_newline(#[trigger] parts[i]),
    ensures
        count_char(join(parts, seq!['\n']), '\n') == parts.len() - 1,
    decreases parts.len(),
{
    let sep = seq!['\n'];
    if parts.len() == 1 {
        lemma_no_newline_count(parts[0]);
    } else {
        let d = parts.drop_last();
        assert forall|i: int| 0 <= i < d.len() implies no_newline(#[trigger] d[i]) by {
            assert(d[i] == parts[i]);
        }
        lemma_join_lines_count(d);
        let j = join(d, sep);
        lemma_count_char_concat(j, sep, '\n');
        lemma_count_char_concat(j + sep, parts.last(), '\n');
        lemma_no_newline_count(parts.last());
        assert(count_char(sep, '\n') == 1) by {
            assert(sep.drop_last() =~= Seq::<char>::empty());
            reveal_with_fuel(count_char, 2);
        }
    }
}

/// A join of parts starts with the join of its first `k` parts.
pub proof fn lemma_join_prefix(parts: Seq<Seq<char>>, sep: Seq<char>, k: int)
    requires
        1 <= k <= parts.len(),
    ensures
        starts_with(join(parts, sep), join(parts.take(k), sep)),
    decreases parts.len(),
{
    if k == parts.len() {
        assert(parts.take(k) =~= parts);
        assert(join(parts, sep).subrange(0, join(parts, sep).len() as int) =~= join(parts, sep));
    } else {
        lemma_join_prefix(parts.drop_last(), sep, k);
        assert(parts.drop_last().take(k) =~= parts.take(k));
        let j = join(parts.drop_last(), sep);
        let p = join(parts.take(k), sep);
        assert((j + sep + parts.last()).subrange(0, p.len() as int) =~= j.subrange(0, p.len() as int));
    }
}

/// Trimming the start of a concatenation.
pub proof fn lemma_trim_start_concat(x: Seq<char>, y: Seq<char>)
    ensures
        trim_start(x + y) == if trim_start(x).len() > 0 {
            trim_start(x) + y
        } else {
            trim_start(y)
        },
    decreases x.len(),
{
    if x.len() == 0 {
        assert(x + y =~= y);
    } else if is_ws(x[0]) {
        assert((x + y).drop_first() =~= x.drop_first() + y);
        assert((x + y)[0] == x[0]);
        lemma_trim_start_concat(x.drop_first(), y);
    } else {
        assert((x + y)[0] == x[0]);
    }
}

/// Trimming the end gives a prefix that ends in no whitespace.
pub proof fn lemma_trim_end_prefix(s: Seq<char>)
    ensures
        trim_end(s).len() <= s.len(),
        trim_end(s) == s.take(trim_end(s).len() as int),
        trim_end(s).len() > 0 ==> !is_ws(trim_end(s).last()),
    decreases s.len(),
{
    if s.len() > 0 && is_ws(s.last()) {
        lemma_trim_end_prefix(s.drop_last());
        assert(s.drop_last().take(trim_end(s).len() as int) =~= s.take(trim_end(s).len() as int));
    } else {
        assert(s.take(s.len() as int) =~= s);
    }
}

/// Trimming is idempotent.
pub proof fn lemma_trim_idempotent(s: Seq<char>)
    ensures
        trim(trim(s)) == trim(s),
{
    let y = trim_start(s);
    let z = trim_end(y);
    lemma_trim_end_prefix(y);
    lemma_trim_end_prefix(z);
    assert(trim_end(z) == z) by {
        if z.len() > 0 {
            assert(!is_ws(z.last()));
        }
    }
    if z.len() > 0 {
        assert(z[0] == y[0]);
        assert(y.len() > 0);
        assert(!is_ws(y[0])) by {
            if is_ws(y[0]) {
                lemma_trim_start_first(s);
            }
        }
    }
}

proof fn lemma_trim_start_first(s: Seq<char>)
    ensures
        trim_start(s).len() > 0 ==> !is_ws(trim_start(s)[0]),
    decreases s.len(),
{
    if s.len() > 0 && is_ws(s[0]) {
        lemma_trim_start_first(s.drop_first());
    }
}

/// A trailing line break does not change what trimming leaves.
pub proof fn lemma_trim_trailing_newline(s: Seq<char>)
    ensures
        trim(s + seq!['\n']) == trim(s),
{
    let nl = seq!['\n'];
    lemma_trim_start_concat(s, nl);
    let y = trim_start(s);
    assert(is_ws('\n'));
    if y.len() > 0 {
        assert((y + nl).drop_last() =~= y);
    } else {
        assert(nl.drop_first() =~= Seq::<char>::empty());
        assert(trim_start(nl) == trim_start(Seq::<char>::empty()));
        assert(trim_start(Seq::<char>::empty()) =~= Seq::<char>::empty());
    }
}

/// Joining a part in front of further parts.
pub proof fn lemma_join_cons(x: Seq<char>, rest: Seq<Seq<char>>, sep: Seq<char>)
    requires
        rest.len() > 0,
    ensures
        join(seq![x] + rest, sep) == x + sep + join(rest, sep),
    decreases rest.len(),
{
    let all = seq![x] + rest;
    assert(join(all, sep) == join(all.drop_last(), sep) + sep + all.last());
    assert(all.last() == rest.last());
    if rest.len() == 1 {
        assert(all.drop_last() =~= seq![x]);
        assert(join(seq![x], sep) == x);
        assert(join(rest, sep) == rest[0]);
    } else {
        assert(all.drop_last() =~= seq![x] + rest.drop_last());
        lemma_join_cons(x, rest.drop_last(), sep);
        assert(join(rest, sep) == join(rest.drop_last(), sep) + sep + rest.last());
        assert(x + sep + join(rest.drop_last(), sep) + sep + rest.last() =~= x + sep + (join(
            rest.drop_last(),
            sep,
        ) + sep + rest.last()));
    }
}

/// A text without carriage returns is the join of its lines, or that join followed by
/// one line break.
pub proof fn lemma_lines_join(s: Seq<char>)
    requires
        forall|j: int| 0 <= j < s.len() ==> s[j] != '\r',
    ensures
        s == join(lines(s), seq!['\n']) || s == join(lines(s), seq!['\n']) + seq!['\n'],
    decreases s.len(),
{
    let nl = seq!['\n'];
    if s.len() > 0 {
        lemma_find(s, nl);
        match find(s, nl) {
            None => {},
            Some(i) => {
                if 0 <= i < s.len() {
                    let first = s.take(i);
                    assert(strip_cr(first) == first) by {
                        if first.len() > 0 {
                            assert(first.last() == s[i - 1]);
                        }
                    }
                    let rest = s.skip(i + 1);
                    assert(s[i] == '\n') by {
                        assert(s.subrange(i, i + 1) == nl);
                        assert(s.subrange(i, i + 1)[0] == s[i]);
                    }
                    assert(s =~= first + nl + rest);
                    if rest.len() == 0 {
                        assert(lines(rest) =~= Seq::<Seq<char>>::empty());
                        assert(lines(s) =~= seq![first]);
                        assert(s =~= first + nl);
                    } else {
                        assert forall|j: int| 0 <= j < rest.len() implies rest[j] != '\r' by {
                            assert(rest[j] == s[i + 1 + j]);
                        }
                        lemma_lines_join(rest);
                        let lr = lines(rest);
                        assert(lr.len() > 0);
                        lemma_join_cons(first, lr, nl);
                        assert(lines(s) == seq![first] + lr);
                        let jr = join(lr, nl);
                        if rest == jr {
                            assert(s =~= first + nl + jr);
                        } else {
                            assert(s =~= first + nl + jr + nl);
                        }
                    }
                }
            },
        }
    } else {
        assert(s =~= join(lines(s), nl));
    }
}

/// A join of parts starts with its first part.
pub proof fn lemma_join_starts_with_first(parts: Seq<Seq<char>>, sep: Seq<char>)
    requires
        parts.len() > 0,
    ensures
        starts_with(join(parts, sep), parts[0]),
    decreases parts.len(),
{
    if parts.len() > 1 {
        lemma_join_starts_with_first(parts.drop_last(), sep);
        let j = join(parts.drop_last(), sep);
        assert(parts.drop_last()[0] == parts[0]);
        assert(join(parts, sep) == j + sep + parts.last());
        assert((j + sep + parts.last()).subrange(0, parts[0].len() as int) =~= j.subrange(
            0,
            parts[0].len() as int,
        ));
    } else {
        assert(join(parts, sep) == parts[0]);
        assert(parts[0].subrange(0, parts[0].len() as int) =~= parts[0]);
    }
}

/// Each part occurs in the join of the parts, at the returned index.
pub proof fn lemma_join_has_part(parts: Seq<Seq<char>>, sep: Seq<char>, i: int) -> (k: int)
    requires
        0 <= i < parts.len(),
    ensures
        matches_at(join(parts, sep), parts[i], k),
    decreases parts.len(),
{
    if parts.len() == 1 {
        assert(join(parts, sep).subrange(0, parts[0].len() as int) =~= parts[0]);
        0
    } else {
        let j = join(parts.drop_last(), sep);
        let whole = j + sep + parts.last();
        if i == parts.len() - 1 {
            let k = (j.len() + sep.len()) as int;
            assert(whole.subrange(k, k + parts[i].len()) =~= parts[i]);
            k
        } else {
            let k = lemma_join_has_part(parts.drop_last(), sep, i);
            assert(parts.drop_last()[i] == parts[i]);
            assert(whole.subrange(k, k + parts[i].len()) =~= j.subrange(k, k + parts[i].len()));
            k
        }
    }
}

pub proof fn lemma_trim_start_suffix(s: Seq<char>)
    ensures
        exists|k: int| 0 <= k <= s.len() && trim_start(s) == s.subrange(k, s.len() as int),
    decreases s.len(),
{
    if s.len() > 0 && is_ws(s[0]) {
        lemma_trim_start_suffix(s.drop_first());
        let k = choose|k: int|
            0 <= k <= s.drop_first().len() && trim_start(s.drop_first())
                == s.drop_first().subrange(k, s.drop_first().len() as int);
        assert(s.drop_first().subrange(k, s.drop_first().len() as int) =~= s.subrange(
            k + 1,
            s.len() as int,
        ));
    } else {
        assert(s =~= s.subrange(0, s.len() as int));
    }
}

// ---------------------------------------------------------------------------
// Conversions
// ---------------------------------------------------------------------------

/// `String::push` appends one character to the end of the string.
pub assume_specification[ String::push ](s: &mut String, ch: char)
    ensures
        final(s)@ == old(s)@.push(ch),
;

/// `str::to_lowercase` (the standard library): the result is named by `lowercase`,
/// a function of the characters alone. Of its contents only the ASCII case is claimed:
/// Unicode lowercases `A`–`Z` to `a`–`z` and keeps every other ASCII character, so an
/// all-ASCII string is lowercased character by character.
#[verifier::external_body]
pub(crate) fn to_lowercase(s: &str) -> (r: String)
    ensures
        r@ == lowercase(s@),
        all_ascii(s@) ==> r@ == s@.map_values(|c: char| ascii_lower(c)),
{
    s.to_lowercase()
}

/// The characters of a string slice, in order.
pub fn chars_of(s: &str) -> (v: Vec<char>)
    ensures
        v@ == s@,
{
    let mut v: Vec<char> = Vec::new();
    for c in it: s.chars()
        invariant
            v@ == it.seq().take(it.index() as int),
            it.seq() == s@,
    {
        v.push(c);
    }
    v
}

/// A string holding exactly the given characters.
pub fn string_of(v: &[char]) -> (s: String)
    ensures
        s@ == v@,
{
    let mut s = String::new();
    let mut i: usize = 0;
    while i < v.len()
        invariant
            i <= v@.len(),
            s@ == v@.take(i as int),
        decreases v@.len() - i,
    {
        s.push(v[i]);
        assert(v@.take(i as int + 1) =~= v@.take(i as int).push(v@[i as int]));
        i = i + 1;
    }
    assert(v@.take(i as int) =~= v@);
    s
}

/// Strings holding the given character vectors.
pub fn strings_of(v: &Vec<Vec<char>>) -> (r: Vec<String>)
    ensures
        strings_view(r@) == seq_views(v@),
{
    let mut r: Vec<String> = Vec::new();
    let mut i: usize = 0;
    while i < v.len()
        invariant
            i <= v@.len(),
            strings_view(r@) == seq_views(v@).take(i as int),
        decreases v@.len() - i,
    {
        let ghost before = strings_view(r@);
        let s = string_of(&v[i]);
        let ghost sv = s@;
        r.push(s);
        assert(strings_view(r@) =~= before.push(sv));
        assert(seq_views(v@).take(i + 1) =~= seq_views(v@).take(i as int).push(v@[i as int]@));
        i = i + 1;
    }
    assert(seq_views(v@).take(i as int) =~= seq_views(v@));
    r
}

/// Appends the characters of `s` to `out`.
pub fn push_str(out: &mut Vec<char>, s: &str)
    ensures
        final(out)@ == old(out)@ + s@,
{
    let mut v = chars_of(s);
    out.append(&mut v);
}

/// Appends the characters of `s` to `out`.
pub fn push_chars(out: &mut Vec<char>, s: &[char])
    ensures
        final(out)@ == old(out)@ + s@,
{
    let mut i: usize = 0;
    while i < s.len()
        invariant
            i <= s@.len(),
            out@ == old(out)@ + s@.take(i as int),
        decreases s@.len() - i,
    {
        out.push(s[i]);
        assert(s@.take(i as int + 1) =~= s@.take(i as int).push(s@[i as int]));
        i = i + 1;
    }
    assert(s@.take(i as int) =~= s@);
}

/// A copy of `s[from..to]`.
pub fn slice_vec(s: &[char], from: usize, to: usize) -> (v: Vec<char>)
    requires
        from <= to <= s@.len(),
    ensures
        v@ == s@.subrange(from as int, to as int),
{
    let mut v: Vec<char> = Vec::new();
    let mut i: usize = from;
    while i < to
        invariant
            from <= i <= to,
            to <= s@.len(),
            v@ == s@.subrange(from as int, i as int),
        decreases to - i,
    {
        v.push(s[i]);
        assert(s@.subrange(from as int, i + 1) =~= s@.subrange(from as int, i as int).push(
            s@[i as int],
        ));
        i = i + 1;
    }
    v
}

// ---------------------------------------------------------------------------
// Search
// ---------------------------------------------------------------------------

/// Whether `p` occurs in `s` at index `at`.
pub fn matches_here(s: &[char], at: usize, p: &[char]) -> (b: bool)
    requires
        at <= s@.len(),
    ensures
        b == matches_at(s@, p@, at as int),
{
    let slen = s.len();
    if p.len() > slen - at {
        return false;
    }
    let mut t: usize = 0;
    while t < p.len()
        invariant
            slen == s@.len(),
            t <= p@.len(),
            at + p@.len() <= s@.len(),
            s@.subrange(at as int, at + t) =~= p@.take(t as int),
        decreases p@.len() - t,
    {
        if s[at + t] != p[t] {
            assert(s@.subrange(at as int, at + p@.len())[t as int] != p@[t as int]);
            return false;
        }
        assert(s@.subrange(at as int, at + t + 1) =~= p@.take(t + 1));
        t = t + 1;
    }
    assert(p@.take(t as int) =~= p@);
    true
}

/// The first occurrence of `p` in `s[from..]`, counted from `from`.
pub fn find_from(s: &[char], from: usize, p: &[char]) -> (r: Option<usize>)
    requires
        from <= s@.len(),
    ensures
        opt_int(r) == find(s@.skip(from as int), p@),
        r matches Some(k) ==> from + k + p@.len() <= s@.len(),
        s@.len() <= usize::MAX,
{
    let ghost rest = s@.skip(from as int);
    let slen = s.len();
    let n = slen - from;
    let m = p.len();
    if m > n {
        assert(find_at(rest, p@, 0) is None);
        return None;
    }
    let mut j: usize = 0;
    while j <= n - m
        invariant
            m <= n,
            n == rest.len(),
            m == p@.len(),
            rest == s@.skip(from as int),
            from + n == s@.len(),
            slen == s@.len(),
            j <= n - m + 1,
            find(rest, p@) == find_at(rest, p@, j as int),
        decreases n - m + 1 - j,
    {
        let hit = matches_here(s, from + j, p);
        assert(rest.subrange(j as int, j + m) =~= s@.subrange(from + j, from + j + m));
        if hit {
            return Some(j);
        }
        if m == 0 {
            assert(rest.subrange(j as int, j as int) =~= p@);
        }
        j = j + 1;
    }
    None
}

/// Whether `p` occurs in `s`.
pub fn contains_chars(s: &[char], p: &[char]) -> (b: bool)
    ensures
        b == contains(s@, p@),
{
    assert(s@.skip(0) =~= s@);
    find_from(s, 0, p).is_some()
}

pub fn starts_with_chars(s: &[char], p: &[char]) -> (b: bool)
    ensures
        b == starts_with(s@, p@),
{
    matches_here(s, 0, p)
}

pub fn ends_with_chars(s: &[char], p: &[char]) -> (b: bool)
    ensures
        b == ends_with(s@, p@),
{
    if p.len() > s.len() {
        return false;
    }
    matches_here(s, s.len() - p.len(), p)
}

pub fn eq_chars(a: &[char], b: &[char]) -> (r: bool)
    ensures
        r == (a@ == b@),
{
    if a.len() != b.len() {
        return false;
    }
    let r = matches_here(a, 0, b);
    assert(a@.subrange(0, b@.len() as int) =~= a@);
    r
}

// ---------------------------------------------------------------------------
// Trimming
// ---------------------------------------------------------------------------

pub fn is_whitespace(c: char) -> (b: bool)
    ensures
        b == is_ws(c),
{
    let u = c as u32;
    (0x09 <= u && u <= 0x0D) || u == 0x20 || u == 0x85 || u == 0xA0 || u == 0x1680 || (0x2000
        <= u && u <= 0x200A) || u == 0x2028 || u == 0x2029 || u == 0x202F || u == 0x205F || u
        == 0x3000
}

/// The bounds of `s[from..to]` with surrounding whitespace removed.
pub fn trim_bounds(s: &[char], from: usize, to: usize) -> (r: (usize, usize))
    requires
        from <= to <= s@.len(),
    ensures
        from <= r.0 <= r.1 <= to,
        s@.subrange(r.0 as int, r.1 as int) == trim(s@.subrange(from as int, to as int)),
{
    let mut a = from;
    while a < to && is_whitespace(s[a])
        invariant
            from <= a <= to,
            to <= s@.len(),
            trim_start(s@.subrange(from as int, to as int)) == trim_start(
                s@.subrange(a as int, to as int),
            ),
        decreases to - a,
    {
        assert(s@.subrange(a as int, to as int).drop_first() =~= s@.subrange(a + 1, to as int));
        a = a + 1;
    }
    let ghost t = s@.subrange(a as int, to as int);
    assert(trim_start(t) == t);
    let mut b = to;
    while b > a && is_whitespace(s[b - 1])
        invariant
            from <= a <= b <= to,
            to <= s@.len(),
            trim_end(t) == trim_end(s@.subrange(a as int, b as int)),
            t == s@.subrange(a as int, to as int),
        decreases b - a,
    {
        assert(s@.subrange(a as int, b as int).drop_last() =~= s@.subrange(a as int, b - 1));
        b = b - 1;
    }
    (a, b)
}

/// `trim` of a character sequence.
pub fn trim_chars(s: &[char]) -> (r: Vec<char>)
    ensures
        r@ == trim(s@),
{
    let (a, b) = trim_bounds(s, 0, s.len());
    assert(s@.subrange(0, s@.len() as int) =~= s@);
    slice_vec(s, a, b)
}

/// `str::trim`, as an owned string.
pub fn trim_str(s: &str) -> (r: String)
    ensures
        r@ == trim(s@),
{
    let v = chars_of(s);
    let t = trim_chars(&v);
    string_of(&t)
}

// ---------------------------------------------------------------------------
// Lines, replacement, joining, numbers
// ---------------------------------------------------------------------------

/// `str::lines` of a character sequence.
pub fn lines_of(s: &[char]) -> (r: Vec<Vec<char>>)
    ensures
        seq_views(r@) == lines(s@),
{
    let mut r: Vec<Vec<char>> = Vec::new();
    let mut pos: usize = 0;
    let nl = ['\n'];
    assert(nl@ =~= seq!['\n']);
    assert(s@.skip(0) =~= s@);
    assert(seq_views(r@) + lines(s@) =~= lines(s@));
    while pos < s.len()
        invariant
            pos <= s@.len(),
            nl@ == seq!['\n'],
            lines(s@) == seq_views(r@) + lines(s@.skip(pos as int)),
        decreases s@.len() - pos,
    {
        let ghost rest = s@.skip(pos as int);
        match find_from(s, pos, &nl) {
            None => {
                let line = slice_vec(s, pos, s.len());
                assert(line@ =~= rest);
                assert(lines(rest) == seq![rest]);
                assert(lines(s@.skip(s@.len() as int)) =~= Seq::<Seq<char>>::empty()) by {
                    assert(s@.skip(s@.len() as int).len() == 0);
                }
                let ghost before = seq_views(r@);
                r.push(line);
                assert(seq_views(r@) =~= before.push(line@));
                pos = s.len();
                assert(before + lines(rest) =~= seq_views(r@) + lines(s@.skip(pos as int)));
            },
            Some(k) => {
                let mut end = pos + k;
                if end > pos && s[end - 1] == '\r' {
                    end = end - 1;
                }
                let line = slice_vec(s, pos, end);
                assert(line@ =~= strip_cr(rest.take(k as int)));
                assert(rest.skip(k + 1) =~= s@.skip(pos + k + 1));
                let ghost before = seq_views(r@);
                r.push(line);
                assert(seq_views(r@) =~= before.push(line@));
                pos = pos + k + 1;
                assert(lines(s@) == seq_views(r@) + lines(s@.skip(pos as int))) by {
                    assert(lines(rest) == seq![strip_cr(rest.take(k as int))] + lines(
                        rest.skip(k + 1),
                    ));
                    assert(before + lines(rest) =~= seq_views(r@) + lines(
                        s@.skip(pos as int),
                    ));
                }
            },
        }
    }
    assert(s@.skip(pos as int) =~= Seq::<char>::empty());
    assert(seq_views(r@) + lines(s@.skip(pos as int)) =~= seq_views(r@));
    r
}

/// `str::replace` on character sequences.
pub fn replace_chars(s: &[char], from: &[char], to: &[char]) -> (r: Vec<char>)
    requires
        from@.len() > 0,
    ensures
        r@ == replace_all(s@, from@, to@),
{
    let mut out: Vec<char> = Vec::new();
    let mut pos: usize = 0;
    let slen = s.len();
    assert(s@.skip(0) =~= s@);
    assert(out@ + replace_all(s@, from@, to@) =~= replace_all(s@, from@, to@));
    loop
        invariant
            pos <= s@.len(),
            slen == s@.len(),
            from@.len() > 0,
            replace_all(s@, from@, to@) == out@ + replace_all(s@.skip(pos as int), from@, to@),
        decreases s@.len() - pos,
    {
        let ghost rest = s@.skip(pos as int);
        match find_from(s, pos, from) {
            None => {
                let tail = slice_vec(s, pos, s.len());
                assert(tail@ =~= rest);
                push_chars(&mut out, &tail);
                return out;
            },
            Some(k) => {
                let head = slice_vec(s, pos, pos + k);
                assert(head@ =~= rest.take(k as int));
                push_chars(&mut out, &head);
                push_chars(&mut out, to);
                assert(rest.skip(k + from@.len()) =~= s@.skip(pos + k + from@.len()));
                pos = pos + k + from.len();
                assert(replace_all(s@, from@, to@) == out@ + replace_all(
                    s@.skip(pos as int),
                    from@,
                    to@,
                )) by {
                    assert(replace_all(rest, from@, to@) == rest.take(k as int) + to@
                        + replace_all(rest.skip(k + from@.len()), from@, to@));
                }
            },
        }
    }
}

/// The parts joined with `sep` between them.
pub fn join_chars(parts: &Vec<Vec<char>>, sep: &[char]) -> (r: Vec<char>)
    ensures
        r@ == join(seq_views(parts@), sep@),
{
    let mut out: Vec<char> = Vec::new();
    let mut i: usize = 0;
    let ghost ps = seq_views(parts@);
    assert(ps.take(0) =~= Seq::<Seq<char>>::empty());
    while i < parts.len()
        invariant
            i <= parts@.len(),
            ps == seq_views(parts@),
            out@ == join(ps.take(i as int), sep@),
        decreases parts@.len() - i,
    {
        if i > 0 {
            push_chars(&mut out, sep);
        }
        push_chars(&mut out, &parts[i]);
        assert(ps.take(i + 1).drop_last() =~= ps.take(i as int));
        assert(ps.take(i + 1).last() == parts@[i as int]@);
        if i == 0 {
            assert(ps.take(1) =~= seq![parts@[0]@]);
        }
        i = i + 1;
    }
    assert(ps.take(i as int) =~= ps);
    out
}

/// The decimal digits of `n`.
pub fn decimal_chars(n: usize) -> (r: Vec<char>)
    ensures
        r@ == decimal(n as nat),
    decreases n,
{
    if n < 10 {
        let d = ((48 + n) as u8) as char;
        let mut v: Vec<char> = Vec::new();
        v.push(d);
        assert(v@ =~= seq![digit(n as nat)]);
        v
    } else {
        let mut v = decimal_chars(n / 10);
        let d = ((48 + n % 10) as u8) as char;
        v.push(d);
        v
    }
}

} // verus!
