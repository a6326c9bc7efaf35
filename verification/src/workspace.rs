//! The workspace: resolving tool paths inside it, and deciding which shell commands
//! may run and for how long.
use vstd::prelude::*;
use crate::text::{
    chars_of, contains, contains_chars, lowercase, matches_at, matches_here, string_of,
    to_lowercase, trim, trim_chars,
};

verus! {

// ---------------------------------------------------------------------------
// Paths
// ---------------------------------------------------------------------------

/// A Unix path is absolute when it starts at the root.
pub open spec fn is_absolute_path(p: Seq<char>) -> bool {
    p.len() > 0 && p[0] == '/'
}

/// `PathBuf::push` on Unix: an absolute `p` replaces `base`; otherwise `p` is appended,
/// with a `/` in between unless `base` is empty or already ends with one.
pub open spec fn join_path(base: Seq<char>, p: Seq<char>) -> Seq<char> {
    if is_absolute_path(p) {
        p
    } else if base.len() > 0 && base.last() != '/' {
        base + seq!['/'] + p
    } else {
        base + p
    }
}

pub open spec fn dotdot() -> Seq<char> {
    seq!['.', '.']
}

/// `..` is one of the `/`-separated components of `p`.
pub open spec fn has_parent_component(p: Seq<char>) -> bool {
    exists|i: int|
        #![trigger matches_at(p, dotdot(), i)]
        matches_at(p, dotdot(), i) && (i == 0 || p[i - 1] == '/') && (i + 2 == p.len() || p[i
            + 2] == '/')
}

/// What `Path::starts_with` returns: whether `base` is a component-wise prefix of `path`.
pub uninterp spec fn path_starts_with(path: Seq<char>, base: Seq<char>) -> bool;

/// What `Path::ends_with` returns: whether `child` is a component-wise suffix of `path`.
pub uninterp spec fn path_ends_with(path: Seq<char>, child: Seq<char>) -> bool;

/// `Path::starts_with` (the standard library), compared component by component; the
/// result is named by `path_starts_with`, nothing more is claimed of it.
#[verifier::external_body]
pub(crate) fn path_has_prefix(path: &str, base: &str) -> (b: bool)
    ensures
        b == path_starts_with(path@, base@),
{
    std::path::Path::new(path).starts_with(base)
}

/// `Path::ends_with` (the standard library), compared component by component; the
/// result is named by `path_ends_with`, nothing more is claimed of it.
#[verifier::external_body]
pub(crate) fn path_has_suffix(path: &str, child: &str) -> (b: bool)
    ensures
        b == path_ends_with(path@, child@),
{
    std::path::Path::new(path).ends_with(child)
}

pub fn is_absolute(p: &[char]) -> (b: bool)
    ensures
        b == is_absolute_path(p@),
{
    p.len() > 0 && p[0] == '/'
}

/// `base` joined with `p`, as `Path::join` does on Unix.
pub fn join(base: &str, p: &str) -> (r: String)
    ensures
        r@ == join_path(base@, p@),
{
    let pv = chars_of(p);
    let bv = chars_of(base);
    if is_absolute(&pv) {
        return p.to_owned();
    }
    let mut r = base.to_owned();
    if bv.len() > 0 && bv[bv.len() - 1] != '/' {
        r.push('/');
    }
    r.append(p);
    r
}

/// Whether `..` is one of the components of `p`.
pub fn has_parent_dir(p: &[char]) -> (b: bool)
    ensures
        b == has_parent_component(p@),
{
    let dots = ['.', '.'];
    assert(dots@ =~= dotdot());
    let n = p.len();
    let mut i: usize = 0;
    while i < n
        invariant
            n == p@.len(),
            dots@ == dotdot(),
            i <= n,
            forall|j: int|
                0 <= j < i ==> !(matches_at(p@, dotdot(), j) && (j == 0 || p@[j - 1] == '/')
                    && (j + 2 == p@.len() || p@[j + 2] == '/')),
        decreases n - i,
    {
        if matches_here(p, i, &dots) && (i == 0 || p[i - 1] == '/') && (i + 2 == n || p[i + 2]
            == '/') {
            return true;
        }
        i = i + 1;
    }
    proof {
        assert forall|j: int|
            #![trigger matches_at(p@, dotdot(), j)]
            matches_at(p@, dotdot(), j) implies !((j == 0 || p@[j - 1] == '/') && (j + 2
                == p@.len() || p@[j + 2] == '/')) by {
            assert(j < n);
        }
    }
    false
}

// ---------------------------------------------------------------------------
// Configuration and path resolution
// ---------------------------------------------------------------------------

/// Where the agent works and where it logs the session.
#[derive(Debug)]
pub struct AppConfig {
    pub workspace: String,
    pub session_log_path: String,
}

pub open spec fn session_log_path_for(workspace: Seq<char>) -> Seq<char> {
    join_path(join_path(workspace, ".mini-codex"@), "session.jsonl"@)
}

impl AppConfig {
    /// The configuration for a (canonical) workspace, logging to
    /// `<workspace>/.mini-codex/session.jsonl`.
    pub fn new(workspace: String) -> (r: AppConfig)
        ensures
            r.workspace@ == workspace@,
            r.session_log_path@ == session_log_path_for(workspace@),
    {
        let dir = join(workspace.as_str(), ".mini-codex");
        let log = join(dir.as_str(), "session.jsonl");
        AppConfig { workspace, session_log_path: log }
    }
}

/// Why a tool path was refused.
#[derive(Debug)]
pub enum PathError {
    /// An absolute path that could not be canonicalized (the path as given).
    ResolveFailed(String),
    /// An absolute path whose canonical form lies outside the workspace.
    EscapesWorkspace(String),
    /// A relative path with a `..` component.
    ParentDirNotAllowed(String),
}

pub enum PathErrorView {
    ResolveFailed(Seq<char>),
    EscapesWorkspace(Seq<char>),
    ParentDirNotAllowed(Seq<char>),
}

impl View for PathError {
    type V = PathErrorView;

    open spec fn view(&self) -> PathErrorView {
        match self {
            PathError::ResolveFailed(p) => PathErrorView::ResolveFailed(p@),
            PathError::EscapesWorkspace(p) => PathErrorView::EscapesWorkspace(p@),
            PathError::ParentDirNotAllowed(p) => PathErrorView::ParentDirNotAllowed(p@),
        }
    }
}

impl PathError {
    /// The error message.
    pub fn message(&self) -> (r: String)
        ensures
            r@ == match self@ {
                PathErrorView::ResolveFailed(p) => "failed to resolve "@ + p,
                PathErrorView::EscapesWorkspace(p) => "absolute path escapes workspace: "@ + p,
                PathErrorView::ParentDirNotAllowed(p) => "parent directory segments are not allowed: "@
                    + p,
            },
    {
        let (mut head, tail) = match self {
            PathError::ResolveFailed(p) => ("failed to resolve ".to_owned(), p.as_str()),
            PathError::EscapesWorkspace(p) => (
                "absolute path escapes workspace: ".to_owned(),
                p.as_str(),
            ),
            PathError::ParentDirNotAllowed(p) => (
                "parent directory segments are not allowed: ".to_owned(),
                p.as_str(),
            ),
        };
        head.append(tail);
        head
    }
}

/// Where a tool path points: an absolute path is accepted in its canonical form
/// (`canonical`, the result of canonicalizing it, none when that failed) only when it
/// lies inside the workspace; a relative path is joined to the workspace unless it has
/// a `..` component.
pub open spec fn resolved_path(
    workspace: Seq<char>,
    path: Seq<char>,
    canonical: Option<Seq<char>>,
) -> Result<Seq<char>, PathErrorView> {
    if is_absolute_path(path) {
        match canonical {
            None => Err(PathErrorView::ResolveFailed(path)),
            Some(c) => if path_starts_with(c, workspace) {
                Ok(c)
            } else {
                Err(PathErrorView::EscapesWorkspace(path))
            },
        }
    } else if has_parent_component(path) {
        Err(PathErrorView::ParentDirNotAllowed(path))
    } else {
        Ok(join_path(workspace, path))
    }
}

/// Whether resolving `path` needs its canonical form from the file system.
pub fn needs_canonical_path(path: &str) -> (b: bool)
    ensures
        b == is_absolute_path(path@),
{
    is_absolute(&chars_of(path))
}

/// Resolves a tool path against the workspace. `canonical` is what canonicalizing
/// `path` on the file system gave (consulted only for absolute paths).
pub fn workspace_path(config: &AppConfig, path: &str, canonical: Option<&str>) -> (r: Result<
    String,
    PathError,
>)
    ensures
        match r {
            Ok(p) => resolved_path(
                config.workspace@,
                path@,
                match canonical {
                    Some(c) => Some(c@),
                    None => None,
                },
            ) == Ok::<_, PathErrorView>(p@),
            Err(e) => resolved_path(
                config.workspace@,
                path@,
                match canonical {
                    Some(c) => Some(c@),
                    None => None,
                },
            ) == Err::<Seq<char>, _>(e@),
        },
{
    let pv = chars_of(path);
    if is_absolute(&pv) {
        match canonical {
            None => Err(PathError::ResolveFailed(path.to_owned())),
            Some(c) => {
                if path_has_prefix(c, config.workspace.as_str()) {
                    Ok(c.to_owned())
                } else {
                    Err(PathError::EscapesWorkspace(path.to_owned()))
                }
            },
        }
    } else if has_parent_dir(&pv) {
        Err(PathError::ParentDirNotAllowed(path.to_owned()))
    } else {
        Ok(join(config.workspace.as_str(), path))
    }
}

// ---------------------------------------------------------------------------
// Shell commands
// ---------------------------------------------------------------------------

pub open spec fn forbidden_tokens() -> Seq<Seq<char>> {
    seq![
        "rm "@,
        "rm\t"@,
        "sudo "@,
        "mkfs"@,
        "dd "@,
        "shutdown"@,
        "reboot"@,
        ":(){"@,
        "chmod -R"@,
        "chown -R"@,
        "> /dev/"@,
        "git reset --hard"@,
        "git checkout --"@,
    ]
}

/// Why a shell command was refused.
#[derive(Debug)]
pub enum ShellRejection {
    Empty,
    /// A potentially destructive command (the trimmed command).
    Destructive(String),
}

pub enum ShellRejectionView {
    Empty,
    Destructive(Seq<char>),
}

impl View for ShellRejection {
    type V = ShellRejectionView;

    open spec fn view(&self) -> ShellRejectionView {
        match self {
            ShellRejection::Empty => ShellRejectionView::Empty,
            ShellRejection::Destructive(c) => ShellRejectionView::Destructive(c@),
        }
    }
}

pub open spec fn rejection_message(r: ShellRejectionView) -> Seq<char> {
    match r {
        ShellRejectionView::Empty => "empty shell command"@,
        ShellRejectionView::Destructive(c) => "refusing potentially destructive command: "@ + c,
    }
}

impl ShellRejection {
    /// The error message.
    pub fn message(&self) -> (r: String)
        ensures
            r@ == rejection_message(self@),
    {
        match self {
            ShellRejection::Empty => "empty shell command".to_owned(),
            ShellRejection::Destructive(c) => {
                let mut m = "refusing potentially destructive command: ".to_owned();
                m.append(c.as_str());
                m
            },
        }
    }
}

/// A command is refused when it is blank or, trimmed, contains a destructive token.
pub open spec fn shell_command_verdict(cmd: Seq<char>) -> Result<(), ShellRejectionView> {
    let t = trim(cmd);
    if t.len() == 0 {
        Err(ShellRejectionView::Empty)
    } else if exists|i: int| 0 <= i < forbidden_tokens().len() && contains(t, #[trigger] forbidden_tokens()[i]) {
        Err(ShellRejectionView::Destructive(t))
    } else {
        Ok(())
    }
}

/// Refuses blank and potentially destructive shell commands.
pub fn validate_shell_command(cmd: &str) -> (r: Result<(), ShellRejection>)
    ensures
        match r {
            Ok(()) => shell_command_verdict(cmd@) == Ok::<(), ShellRejectionView>(()),
            Err(e) => shell_command_verdict(cmd@) == Err::<(), _>(e@),
        },
{
    let cv = chars_of(cmd);
    let t = trim_chars(&cv);
    if t.len() == 0 {
        return Err(ShellRejection::Empty);
    }
    let tokens = [
        "rm ",
        "rm\t",
        "sudo ",
        "mkfs",
        "dd ",
        "shutdown",
        "reboot",
        ":(){",
        "chmod -R",
        "chown -R",
        "> /dev/",
        "git reset --hard",
        "git checkout --",
    ];
    let ghost toks = forbidden_tokens();
    assert(tokens@.map_values(|s: &str| s@) =~= toks);
    let mut i: usize = 0;
    while i < 13
        invariant
            i <= 13,
            tokens@.len() == 13,
            tokens@.map_values(|s: &str| s@) == toks,
            toks == forbidden_tokens(),
            t@ == trim(cmd@),
            t@.len() > 0,
            forall|j: int| 0 <= j < i ==> !contains(t@, #[trigger] toks[j]),
        decreases 13 - i,
    {
        assert(tokens@[i as int]@ == toks[i as int]);
        if contains_chars(&t, &chars_of(tokens[i])) {
            assert(contains(t@, forbidden_tokens()[i as int]));
            let e = ShellRejection::Destructive(string_of(&t));
            return Err(e);
        }
        i = i + 1;
    }
    Ok(())
}

pub open spec fn long_running_markers() -> Seq<Seq<char>> {
    seq![
        "npm run dev"@,
        "npm start"@,
        "yarn dev"@,
        "yarn start"@,
        "pnpm dev"@,
        "pnpm start"@,
        "vite --host"@,
        "vite --watch"@,
        "cargo watch"@,
    ]
}

/// A lowercased command that names a known dev-server or watch command.
pub open spec fn long_running_marker_in(lower: Seq<char>) -> bool {
    exists|i: int|
        0 <= i < long_running_markers().len() && contains(
            lower,
            #[trigger] long_running_markers()[i],
        )
}

/// A command that probably starts a server or a watcher: its lowercase form contains a
/// known dev-server or watch command.
pub open spec fn likely_long_running(cmd: Seq<char>) -> bool {
    long_running_marker_in(lowercase(cmd))
}

pub const DEFAULT_SHELL_TIMEOUT_SECS: u64 = 120;

pub const LONG_RUNNING_SHELL_TIMEOUT_SECS: u64 = 10;

/// Whether an already lowercased command names a known dev-server or watch command.
pub fn has_long_running_marker(lower: &str) -> (b: bool)
    ensures
        b == long_running_marker_in(lower@),
{
    let text = chars_of(lower);
    let markers = [
        "npm run dev",
        "npm start",
        "yarn dev",
        "yarn start",
        "pnpm dev",
        "pnpm start",
        "vite --host",
        "vite --watch",
        "cargo watch",
    ];
    let ghost ms = long_running_markers();
    assert(markers@.map_values(|s: &str| s@) =~= ms);
    let mut i: usize = 0;
    while i < 9
        invariant
            i <= 9,
            markers@.len() == 9,
            markers@.map_values(|s: &str| s@) == ms,
            ms == long_running_markers(),
            text@ == lower@,
            forall|j: int| 0 <= j < i ==> !contains(lower@, #[trigger] ms[j]),
        decreases 9 - i,
    {
        assert(markers@[i as int]@ == ms[i as int]);
        if contains_chars(&text, &chars_of(markers[i])) {
            return true;
        }
        i = i + 1;
    }
    false
}

/// Whether a command probably starts a long-running server or watcher.
pub fn is_likely_long_running_shell_command(cmd: &str) -> (b: bool)
    ensures
        b == likely_long_running(cmd@),
{
    let lower = to_lowercase(cmd);
    has_long_running_marker(lower.as_str())
}

/// How long a shell command may run: briefly for likely servers and watchers, which do
/// not exit on their own, and longer for everything else.
pub fn shell_timeout_secs(cmd: &str) -> (r: u64)
    ensures
        r == if likely_long_running(cmd@) {
            LONG_RUNNING_SHELL_TIMEOUT_SECS
        } else {
            DEFAULT_SHELL_TIMEOUT_SECS
        },
{
    if is_likely_long_running_shell_command(cmd) {
        LONG_RUNNING_SHELL_TIMEOUT_SECS
    } else {
        DEFAULT_SHELL_TIMEOUT_SECS
    }
}

/// A tool path is never resolved outside the workspace: an accepted absolute path is
/// its canonical form and lies inside the workspace, and an accepted relative path has
/// no `..` component and is joined to the workspace.
pub proof fn lemma_resolved_path_inside(
    workspace: Seq<char>,
    path: Seq<char>,
    canonical: Option<Seq<char>>,
)
    ensures
        resolved_path(workspace, path, canonical) matches Ok(p) ==> (if is_absolute_path(path) {
            canonical == Some(p) && path_starts_with(p, workspace)
        } else {
            !has_parent_component(path) && p == join_path(workspace, path)
        }),
{
}

/// A command counts as long-running, and so gets the short timeout, exactly when its
/// lowercase form contains one of `npm run dev`, `npm start`, `yarn dev`, `yarn start`,
/// `pnpm dev`, `pnpm start`, `vite --host`, `vite --watch` or `cargo watch`.
pub proof fn lemma_long_running_commands(cmd: Seq<char>)
    ensures
        likely_long_running(cmd) <==> (contains(lowercase(cmd), "npm run dev"@) || contains(lowercase(cmd), "npm start"@) || contains(lowercase(cmd), "yarn dev"@) || contains(lowercase(cmd), "yarn start"@) || contains(lowercase(cmd), "pnpm dev"@) || contains(lowercase(cmd), "pnpm start"@) || contains(lowercase(cmd), "vite --host"@) || contains(lowercase(cmd), "vite --watch"@) || contains(lowercase(cmd), "cargo watch"@)),
{
    let l = lowercase(cmd);
    let ms = long_running_markers();
    assert(ms[0] == "npm run dev"@);
    assert(ms[1] == "npm start"@);
    assert(ms[2] == "yarn dev"@);
    assert(ms[3] == "yarn start"@);
    assert(ms[4] == "pnpm dev"@);
    assert(ms[5] == "pnpm start"@);
    assert(ms[6] == "vite --host"@);
    assert(ms[7] == "vite --watch"@);
    assert(ms[8] == "cargo watch"@);
    if likely_long_running(cmd) {
        let i = choose|i: int| 0 <= i < ms.len() && contains(l, #[trigger] ms[i]);
    }
}

/// A command is refused as blank exactly when it is blank once trimmed; a non-blank
/// command is refused as destructive, naming its trimmed form, exactly when that form
/// contains one of `rm `, `rm\t`, `sudo `, `mkfs`, `dd `, `shutdown`, `reboot`, `:(){`,
/// `chmod -R`, `chown -R`, `> /dev/`, `git reset --hard` or `git checkout --` as
/// written, and is accepted otherwise.
pub proof fn lemma_shell_verdict(cmd: Seq<char>)
    ensures
        trim(cmd).len() == 0 ==> shell_command_verdict(cmd) == Err::<(), _>(ShellRejectionView::Empty),
        trim(cmd).len() > 0 ==> shell_command_verdict(cmd) == if (contains(trim(cmd), "rm "@) || contains(trim(cmd), "rm\t"@) || contains(trim(cmd), "sudo "@) || contains(trim(cmd), "mkfs"@) || contains(trim(cmd), "dd "@) || contains(trim(cmd), "shutdown"@) || contains(trim(cmd), "reboot"@) || contains(trim(cmd), ":(){"@) || contains(trim(cmd), "chmod -R"@) || contains(trim(cmd), "chown -R"@) || contains(trim(cmd), "> /dev/"@) || contains(trim(cmd), "git reset --hard"@) || contains(trim(cmd), "git checkout --"@)) {
            Err::<(), _>(ShellRejectionView::Destructive(trim(cmd)))
        } else {
            Ok(())
        },
{
    let t = trim(cmd);
    let ts = forbidden_tokens();
    assert(ts[0] == "rm "@);
    assert(ts[1] == "rm\t"@);
    assert(ts[2] == "sudo "@);
    assert(ts[3] == "mkfs"@);
    assert(ts[4] == "dd "@);
    assert(ts[5] == "shutdown"@);
    assert(ts[6] == "reboot"@);
    assert(ts[7] == ":(){"@);
    assert(ts[8] == "chmod -R"@);
    assert(ts[9] == "chown -R"@);
    assert(ts[10] == "> /dev/"@);
    assert(ts[11] == "git reset --hard"@);
    assert(ts[12] == "git checkout --"@);
    if exists|i: int| 0 <= i < ts.len() && contains(t, #[trigger] ts[i]) {
        let i = choose|i: int| 0 <= i < ts.len() && contains(t, #[trigger] ts[i]);
    }
}

} // verus!
