//! Which tool a call asks for, and the parts of running a tool that need no file
//! system: the working directory of a shell call, the messages of a refused patch and
//! the text of a directory listing.
use vstd::prelude::*;
use vstd::relations::{sorted_by, total_ordering};
use vstd::seq_lib::lemma_sorted_unique;
use crate::diff::PatchError;
use crate::text::{chars_of, eq_chars, join, seq_views, string_of, strings_view, trim, trim_chars, join_chars};
use crate::workspace::{resolved_path, workspace_path, AppConfig, PathError, PathErrorView};

verus! {

/// The tools the agent offers.
#[derive(Debug, Clone, Copy, PartialEq, Eq, Structural)]
pub enum ToolKind {
    Shell,
    ReadFile,
    WriteFile,
    PatchFile,
    ListDir,
}

pub open spec fn tool_kind_of(name: Seq<char>) -> Option<ToolKind> {
    if name == "shell"@ {
        Some(ToolKind::Shell)
    } else if name == "read_file"@ {
        Some(ToolKind::ReadFile)
    } else if name == "write_file"@ {
        Some(ToolKind::WriteFile)
    } else if name == "patch_file"@ {
        Some(ToolKind::PatchFile)
    } else if name == "list_dir"@ {
        Some(ToolKind::ListDir)
    } else {
        None
    }
}

/// A call of a tool that does not exist.
#[derive(Debug)]
pub struct UnsupportedTool {
    pub tool: String,
}

impl UnsupportedTool {
    /// The error message.
    pub fn message(&self) -> (r: String)
        ensures
            r@ == "unsupported tool: "@ + self.tool@,
    {
        let mut r = "unsupported tool: ".to_owned();
        r.append(self.tool.as_str());
        r
    }
}

/// The tool that `name` names.
pub fn tool_kind(name: &str) -> (r: Result<ToolKind, UnsupportedTool>)
    ensures
        match r {
            Ok(k) => tool_kind_of(name@) == Some(k),
            Err(e) => tool_kind_of(name@) is None && e.tool@ == name@,
        },
{
    let n = chars_of(name);
    if eq_chars(&n, &chars_of("shell")) {
        Ok(ToolKind::Shell)
    } else if eq_chars(&n, &chars_of("read_file")) {
        Ok(ToolKind::ReadFile)
    } else if eq_chars(&n, &chars_of("write_file")) {
        Ok(ToolKind::WriteFile)
    } else if eq_chars(&n, &chars_of("patch_file")) {
        Ok(ToolKind::PatchFile)
    } else if eq_chars(&n, &chars_of("list_dir")) {
        Ok(ToolKind::ListDir)
    } else {
        Err(UnsupportedTool { tool: name.to_owned() })
    }
}

/// The working directory of a shell call: the workspace when `cwd` is blank, otherwise
/// `cwd` resolved as any tool path is.
pub open spec fn shell_cwd_of(
    workspace: Seq<char>,
    cwd: Seq<char>,
    canonical: Option<Seq<char>>,
) -> Result<Seq<char>, PathErrorView> {
    if trim(cwd).len() == 0 {
        Ok(workspace)
    } else {
        resolved_path(workspace, cwd, canonical)
    }
}

/// The working directory of a shell call whose `cwd` field is `cwd`; `canonical` is
/// what canonicalizing `cwd` gave (see `workspace_path`).
pub fn shell_cwd(config: &AppConfig, cwd: &str, canonical: Option<&str>) -> (r: Result<
    String,
    PathError,
>)
    ensures
        match r {
            Ok(p) => shell_cwd_of(
                config.workspace@,
                cwd@,
                match canonical {
                    Some(c) => Some(c@),
                    None => None,
                },
            ) == Ok::<_, PathErrorView>(p@),
            Err(e) => shell_cwd_of(
                config.workspace@,
                cwd@,
                match canonical {
                    Some(c) => Some(c@),
                    None => None,
                },
            ) == Err::<Seq<char>, _>(e@),
        },
{
    let t = trim_chars(&chars_of(cwd));
    if t.len() == 0 {
        Ok(config.workspace.clone())
    } else {
        workspace_path(config, cwd, canonical)
    }
}

impl PatchError {
    /// The error message for a patch of the file at `path`.
    pub fn message(&self, path: &str) -> (r: String)
        ensures
            r@ == match self {
                PatchError::EmptyOld => "patch_file old text must not be empty"@,
                PatchError::OldNotFound => "old text not found in "@ + path@,
            },
    {
        match self {
            PatchError::EmptyOld => "patch_file old text must not be empty".to_owned(),
            PatchError::OldNotFound => {
                let mut r = "old text not found in ".to_owned();
                r.append(path);
                r
            },
        }
    }
}

/// `a` comes no later than `b` in the order of strings: lexicographic by code point.
pub open spec fn chars_le(a: Seq<char>, b: Seq<char>) -> bool
    decreases a.len(),
{
    if a.len() == 0 {
        true
    } else if b.len() == 0 {
        false
    } else if (a[0] as int) < (b[0] as int) {
        true
    } else if a[0] == b[0] {
        chars_le(a.drop_first(), b.drop_first())
    } else {
        false
    }
}

pub open spec fn sorted_names(s: Seq<Seq<char>>) -> bool {
    forall|i: int, j: int| 0 <= i < j < s.len() ==> chars_le(#[trigger] s[i], #[trigger] s[j])
}

proof fn lemma_chars_le_reflexive(a: Seq<char>)
    ensures
        chars_le(a, a),
    decreases a.len(),
{
    if a.len() > 0 {
        lemma_chars_le_reflexive(a.drop_first());
    }
}

proof fn lemma_chars_le_antisymmetric(a: Seq<char>, b: Seq<char>)
    requires
        chars_le(a, b),
        chars_le(b, a),
    ensures
        a == b,
    decreases a.len(),
{
    if a.len() == 0 {
        assert(b.len() == 0);
        assert(a =~= b);
    } else {
        assert(a[0] == b[0]);
        lemma_chars_le_antisymmetric(a.drop_first(), b.drop_first());
        assert(a =~= seq![a[0]] + a.drop_first());
        assert(b =~= seq![b[0]] + b.drop_first());
    }
}

proof fn lemma_chars_le_transitive(a: Seq<char>, b: Seq<char>, c: Seq<char>)
    requires
        chars_le(a, b),
        chars_le(b, c),
    ensures
        chars_le(a, c),
    decreases a.len(),
{
    if a.len() > 0 && b.len() > 0 && c.len() > 0 && a[0] == b[0] && b[0] == c[0] {
        lemma_chars_le_transitive(a.drop_first(), b.drop_first(), c.drop_first());
    }
}

proof fn lemma_chars_le_total(a: Seq<char>, b: Seq<char>)
    ensures
        chars_le(a, b) || chars_le(b, a),
    decreases a.len(),
{
    if a.len() > 0 && b.len() > 0 {
        if a[0] == b[0] {
            lemma_chars_le_total(a.drop_first(), b.drop_first());
        } else {
            assert((a[0] as int) != (b[0] as int));
        }
    }
}

proof fn lemma_chars_le_total_ordering()
    ensures
        total_ordering(|a: Seq<char>, b: Seq<char>| chars_le(a, b)),
{
    let leq = |a: Seq<char>, b: Seq<char>| chars_le(a, b);
    assert forall|x: Seq<char>| #[trigger] leq(x, x) by {
        lemma_chars_le_reflexive(x);
    }
    assert forall|x: Seq<char>, y: Seq<char>| #[trigger] leq(x, y) && #[trigger] leq(y, x) implies x
        == y by {
        lemma_chars_le_antisymmetric(x, y);
    }
    assert forall|x: Seq<char>, y: Seq<char>, z: Seq<char>| #[trigger] leq(x, y) && #[trigger] leq(
        y,
        z,
    ) implies leq(x, z) by {
        lemma_chars_le_transitive(x, y, z);
    }
    assert forall|x: Seq<char>, y: Seq<char>| #[trigger] leq(x, y) || #[trigger] leq(y, x) by {
        lemma_chars_le_total(x, y);
    }
}

/// A directory listing is fixed by the directory's entries: two sorted arrangements of
/// the same names give the same text, whatever order the entries were read in.
pub proof fn lemma_listing_fixed(path: Seq<char>, a: Seq<Seq<char>>, b: Seq<Seq<char>>)
    requires
        a.to_multiset() == b.to_multiset(),
        sorted_names(a),
        sorted_names(b),
    ensures
        listing_text(path, a) == listing_text(path, b),
{
    let leq = |x: Seq<char>, y: Seq<char>| chars_le(x, y);
    lemma_chars_le_total_ordering();
    assert(sorted_by(a, leq));
    assert(sorted_by(b, leq));
    lemma_sorted_unique(a, b, leq);
}

/// Calls `sort` on a vector of strings. Its documentation promises a sort of the
/// elements (a permutation of them) in the order of `String`, which orders strings
/// lexicographically by their bytes, that is by the positions of their code points.
#[verifier::external_body]
fn sort_strings(v: &mut Vec<String>)
    ensures
        strings_view(final(v)@).to_multiset() == strings_view(old(v)@).to_multiset(),
        sorted_names(strings_view(final(v)@)),
{
    v.sort();
}

/// The name of a directory entry as listed: directories end in `/`.
pub open spec fn entry_name(e: (Seq<char>, bool)) -> Seq<char> {
    if e.1 {
        e.0 + "/"@
    } else {
        e.0
    }
}

pub open spec fn entry_names(es: Seq<(Seq<char>, bool)>) -> Seq<Seq<char>> {
    es.map_values(|e: (Seq<char>, bool)| entry_name(e))
}

pub open spec fn entries_view(v: Seq<(String, bool)>) -> Seq<(Seq<char>, bool)> {
    v.map_values(|e: (String, bool)| (e.0@, e.1))
}

/// The listing of the directory `path` with the given names, one per line.
pub open spec fn listing_text(path: Seq<char>, names: Seq<Seq<char>>) -> Seq<char> {
    "list_dir: "@ + path + "\n"@ + join(names, "\n"@)
}

/// The listing of the directory `path` whose entries are `entries` (each a name and
/// whether it is a directory), in any order: the names sorted, directories marked.
pub fn list_dir_listing(path: &str, entries: &Vec<(String, bool)>) -> (r: String)
    ensures
        exists|names: Seq<Seq<char>>|
            {
                &&& names.to_multiset() == entry_names(entries_view(entries@)).to_multiset()
                &&& sorted_names(names)
                &&& r@ == listing_text(path@, names)
            },
{
    let mut names: Vec<String> = Vec::new();
    let mut i: usize = 0;
    while i < entries.len()
        invariant
            i <= entries@.len(),
            strings_view(names@) == entry_names(entries_view(entries@)).take(i as int),
        decreases entries@.len() - i,
    {
        let mut n = entries[i].0.clone();
        if entries[i].1 {
            n.append("/");
        }
        let ghost before = strings_view(names@);
        names.push(n);
        assert(strings_view(names@) =~= before.push(n@));
        assert(entry_names(entries_view(entries@)).take(i + 1) =~= entry_names(
            entries_view(entries@),
        ).take(i as int).push(n@));
        i = i + 1;
    }
    assert(entry_names(entries_view(entries@)).take(i as int) =~= entry_names(
        entries_view(entries@),
    ));
    sort_strings(&mut names);
    let mut parts: Vec<Vec<char>> = Vec::new();
    let mut k: usize = 0;
    while k < names.len()
        invariant
            k <= names@.len(),
            seq_views(parts@) == strings_view(names@).take(k as int),
        decreases names@.len() - k,
    {
        let ghost before = seq_views(parts@);
        let c = chars_of(names[k].as_str());
        parts.push(c);
        assert(seq_views(parts@) =~= before.push(names@[k as int]@));
        assert(strings_view(names@).take(k + 1) =~= strings_view(names@).take(k as int).push(
            names@[k as int]@,
        ));
        k = k + 1;
    }
    assert(strings_view(names@).take(k as int) =~= strings_view(names@));
    let mut out = chars_of("list_dir: ");
    let mut pc = chars_of(path);
    out.append(&mut pc);
    out.push('\n');
    let mut body = join_chars(&parts, &chars_of("\n"));
    out.append(&mut body);
    proof {
        reveal_strlit("\n");
        assert(out@ =~= listing_text(path@, strings_view(names@)));
    }
    string_of(&out)
}

} // verus!
