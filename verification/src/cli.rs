//! The decisions of the command line: answers to approval prompts, boolean flags and
//! the workspace arguments.
use vstd::prelude::*;
use crate::text::{chars_of, eq_chars, strings_view, trim, trim_chars};

verus! {

/// The usage line printed for `--help`.
pub const USAGE: &'static str = "Usage: mini-codex [--workspace DIR]";

/// `y`, `Y`, `yes` or `YES`, around whitespace.
pub open spec fn is_yes(answer: Seq<char>) -> bool {
    let t = trim(answer);
    t == "y"@ || t == "Y"@ || t == "yes"@ || t == "YES"@
}

/// Whether an answer to an approval prompt grants the approval.
pub fn approval_granted(answer: &str) -> (b: bool)
    ensures
        b == is_yes(answer@),
{
    let t = trim_chars(&chars_of(answer));
    eq_chars(&t, &chars_of("y")) || eq_chars(&t, &chars_of("Y")) || eq_chars(&t, &chars_of("yes"))
        || eq_chars(&t, &chars_of("YES"))
}

/// `1`, `true`, `TRUE`, `yes` or `YES`, exactly.
pub open spec fn flag_on(value: Seq<char>) -> bool {
    value == "1"@ || value == "true"@ || value == "TRUE"@ || value == "yes"@ || value == "YES"@
}

/// The value of a boolean flag whose setting is `value` (none when it is not set).
pub fn flag_value(value: Option<&str>, default: bool) -> (b: bool)
    ensures
        b == match value {
            Some(v) => flag_on(v@),
            None => default,
        },
{
    match value {
        Some(v) => {
            let c = chars_of(v);
            eq_chars(&c, &chars_of("1")) || eq_chars(&c, &chars_of("true")) || eq_chars(
                &c,
                &chars_of("TRUE"),
            ) || eq_chars(&c, &chars_of("yes")) || eq_chars(&c, &chars_of("YES"))
        },
        None => default,
    }
}

/// What the command-line arguments ask for.
#[derive(Debug)]
pub enum WorkspaceArg {
    /// `--help` or `-h`: print the usage and stop.
    Help,
    /// Work in the last directory given with `--workspace` or `-w`, or in the current
    /// directory when none is given.
    Dir(Option<String>),
}

pub enum WorkspaceArgView {
    Help,
    Dir(Option<Seq<char>>),
}

impl View for WorkspaceArg {
    type V = WorkspaceArgView;

    open spec fn view(&self) -> WorkspaceArgView {
        match self {
            WorkspaceArg::Help => WorkspaceArgView::Help,
            WorkspaceArg::Dir(Some(d)) => WorkspaceArgView::Dir(Some(d@)),
            WorkspaceArg::Dir(None) => WorkspaceArgView::Dir(None),
        }
    }
}

/// Why the command-line arguments were refused.
#[derive(Debug)]
pub enum ArgError {
    /// `--workspace` or `-w` (the flag as given) at the end, without a directory.
    MissingValue(String),
    /// An argument that is not understood.
    Unknown(String),
}

pub enum ArgErrorView {
    MissingValue(Seq<char>),
    Unknown(Seq<char>),
}

impl View for ArgError {
    type V = ArgErrorView;

    open spec fn view(&self) -> ArgErrorView {
        match self {
            ArgError::MissingValue(a) => ArgErrorView::MissingValue(a@),
            ArgError::Unknown(a) => ArgErrorView::Unknown(a@),
        }
    }
}

pub open spec fn arg_error_message(e: ArgErrorView) -> Seq<char> {
    match e {
        ArgErrorView::MissingValue(a) => a + " requires a directory"@,
        ArgErrorView::Unknown(a) => "unknown argument: "@ + a,
    }
}

impl ArgError {
    /// The error message.
    pub fn message(&self) -> (r: String)
        ensures
            r@ == arg_error_message(self@),
    {
        match self {
            ArgError::MissingValue(a) => {
                let mut r = a.clone();
                r.append(" requires a directory");
                r
            },
            ArgError::Unknown(a) => {
                let mut r = "unknown argument: ".to_owned();
                r.append(a.as_str());
                r
            },
        }
    }
}

pub open spec fn is_workspace_flag(a: Seq<char>) -> bool {
    a == "--workspace"@ || a == "-w"@
}

pub open spec fn is_help_flag(a: Seq<char>) -> bool {
    a == "--help"@ || a == "-h"@
}

/// The arguments read from left to right, `dir` being the workspace given so far: a
/// help flag ends the reading, a workspace flag takes the next argument as the
/// directory, anything else is refused.
pub open spec fn parsed_args(args: Seq<Seq<char>>, dir: Option<Seq<char>>) -> Result<
    WorkspaceArgView,
    ArgErrorView,
>
    decreases args.len(),
{
    if args.len() == 0 {
        Ok(WorkspaceArgView::Dir(dir))
    } else if is_workspace_flag(args[0]) {
        if args.len() < 2 {
            Err(ArgErrorView::MissingValue(args[0]))
        } else {
            parsed_args(args.skip(2), Some(args[1]))
        }
    } else if is_help_flag(args[0]) {
        Ok(WorkspaceArgView::Help)
    } else {
        Err(ArgErrorView::Unknown(args[0]))
    }
}

pub open spec fn opt_view(o: Option<String>) -> Option<Seq<char>> {
    match o {
        Some(s) => Some(s@),
        None => None,
    }
}

/// Reads the command-line arguments (the program name left out).
pub fn parse_workspace_args(args: &[String]) -> (r: Result<WorkspaceArg, ArgError>)
    ensures
        match r {
            Ok(a) => parsed_args(strings_view(args@), None) == Ok::<_, ArgErrorView>(a@),
            Err(e) => parsed_args(strings_view(args@), None) == Err::<WorkspaceArgView, _>(e@),
        },
{
    let ghost all = strings_view(args@);
    let mut dir: Option<String> = None;
    let mut i: usize = 0;
    assert(all.skip(0) =~= all);
    while i < args.len()
        invariant
            all == strings_view(args@),
            i <= args@.len(),
            parsed_args(all, None) == parsed_args(all.skip(i as int), opt_view(dir)),
        decreases args@.len() - i,
    {
        let ghost rest = all.skip(i as int);
        assert(rest[0] == args@[i as int]@);
        let a = chars_of(args[i].as_str());
        if eq_chars(&a, &chars_of("--workspace")) || eq_chars(&a, &chars_of("-w")) {
            if i + 1 >= args.len() {
                return Err(ArgError::MissingValue(args[i].clone()));
            }
            assert(rest[1] == args@[i + 1]@);
            assert(rest.skip(2) =~= all.skip(i + 2));
            dir = Some(args[i + 1].clone());
            i = i + 2;
        } else if eq_chars(&a, &chars_of("--help")) || eq_chars(&a, &chars_of("-h")) {
            return Ok(WorkspaceArg::Help);
        } else {
            return Err(ArgError::Unknown(args[i].clone()));
        }
    }
    Ok(WorkspaceArg::Dir(dir))
}

} // verus!
