//! Tool outcomes as the model and the user see them: result texts, the guidance that
//! follows a batch of tool results, and the turn summary.
use vstd::prelude::*;
use crate::text::{
    chars_of, contains, contains_chars, decimal, decimal_chars, find, find_from, join,
    join_chars, push_chars, push_str, seq_views, starts_with, starts_with_chars, string_of,
    trim, trim_bounds,
};
use crate::types::{
    ChangedFile, ChangedFileView, ExecutedCommand, ExecutedCommandView, ToolOutcome,
    ToolOutcomeView, outcomes_view,
};
use crate::workspace::{path_ends_with, path_has_suffix, rejection_message, ShellRejection};

verus! {

// ---------------------------------------------------------------------------
// Outcome texts
// ---------------------------------------------------------------------------

/// An outcome that changed no file and ran no command.
pub fn unchanged(result: String) -> (r: ToolOutcome)
    ensures
        r@ == (ToolOutcomeView { result: result@, changed_file: None, command: None }),
{
    ToolOutcome { result, changed_file: None, command: None }
}

pub open spec fn labeled_result(index: nat, result: Seq<char>) -> Seq<char> {
    "tool_call_"@ + decimal(index + 1) + ":\n"@ + result
}

/// Prefixes an outcome's result with its 1-based position in the batch.
pub fn label_outcome(index: usize, outcome: ToolOutcome) -> (r: ToolOutcome)
    requires
        index < usize::MAX,
    ensures
        r@ == (ToolOutcomeView { result: labeled_result(index as nat, outcome@.result), ..outcome@ }),
{
    let mut v = chars_of("tool_call_");
    let mut n = decimal_chars(index + 1);
    v.append(&mut n);
    push_str(&mut v, ":\n");
    push_str(&mut v, outcome.result.as_str());
    ToolOutcome { result: string_of(&v), changed_file: outcome.changed_file, command: outcome.command }
}

pub open spec fn blocked_result(cwd: Seq<char>, cmd: Seq<char>, reason: Seq<char>) -> Seq<char> {
    "cwd: "@ + cwd + "\nblocked_command: "@ + cmd + "\nstdout:\n\nstderr:\n"@ + reason
}

/// The outcome of a shell command refused before it ran.
pub fn blocked_shell_outcome(cwd: String, cmd: String, rejection: &ShellRejection) -> (r:
    ToolOutcome)
    ensures
        r@ == (ToolOutcomeView {
            result: blocked_result(cwd@, cmd@, rejection_message(rejection@)),
            changed_file: None,
            command: Some(ExecutedCommandView { cmd: cmd@, cwd: cwd@, success: false }),
        }),
{
    let mut result = "cwd: ".to_owned();
    result.append(cwd.as_str());
    result.append("\nblocked_command: ");
    result.append(cmd.as_str());
    result.append("\nstdout:\n\nstderr:\n");
    let reason = rejection.message();
    result.append(reason.as_str());
    ToolOutcome {
        result,
        changed_file: None,
        command: Some(ExecutedCommand { cmd, cwd, success: false }),
    }
}

pub open spec fn timed_out_result(cwd: Seq<char>, secs: nat) -> Seq<char> {
    "cwd: "@ + cwd + "\ntimed_out_after_secs: "@ + decimal(secs)
        + "\nstdout:\n\nstderr:\nCommand did not finish before the timeout. It may be a long-running server command."@
}

/// The outcome of a shell command stopped at its timeout.
pub fn timed_out_shell_outcome(cwd: String, cmd: String, timeout_secs: usize) -> (r: ToolOutcome)
    ensures
        r@ == (ToolOutcomeView {
            result: timed_out_result(cwd@, timeout_secs as nat),
            changed_file: None,
            command: Some(ExecutedCommandView { cmd: cmd@, cwd: cwd@, success: false }),
        }),
{
    let mut v = chars_of("cwd: ");
    push_str(&mut v, cwd.as_str());
    push_str(&mut v, "\ntimed_out_after_secs: ");
    let mut n = decimal_chars(timeout_secs);
    v.append(&mut n);
    push_str(
        &mut v,
        "\nstdout:\n\nstderr:\nCommand did not finish before the timeout. It may be a long-running server command.",
    );
    ToolOutcome {
        result: string_of(&v),
        changed_file: None,
        command: Some(ExecutedCommand { cmd, cwd, success: false }),
    }
}

pub open spec fn finished_result(
    cwd: Seq<char>,
    exit_status: Seq<char>,
    stdout: Seq<char>,
    stderr: Seq<char>,
) -> Seq<char> {
    "cwd: "@ + cwd + "\nexit_status: "@ + exit_status + "\nstdout:\n"@ + stdout + "\nstderr:\n"@
        + stderr
}

/// The outcome of a shell command that ran to completion, with its exit status as
/// displayed, whether it succeeded, and its (lossily decoded) output.
pub fn finished_shell_outcome(
    cwd: String,
    cmd: String,
    exit_status: &str,
    success: bool,
    stdout: &str,
    stderr: &str,
) -> (r: ToolOutcome)
    ensures
        r@ == (ToolOutcomeView {
            result: finished_result(cwd@, exit_status@, stdout@, stderr@),
            changed_file: None,
            command: Some(ExecutedCommandView { cmd: cmd@, cwd: cwd@, success }),
        }),
{
    let mut result = "cwd: ".to_owned();
    result.append(cwd.as_str());
    result.append("\nexit_status: ");
    result.append(exit_status);
    result.append("\nstdout:\n");
    result.append(stdout);
    result.append("\nstderr:\n");
    result.append(stderr);
    ToolOutcome {
        result,
        changed_file: None,
        command: Some(ExecutedCommand { cmd, cwd, success }),
    }
}

/// The outcome of reading a file.
pub fn read_file_outcome(path: &str, content: &str) -> (r: ToolOutcome)
    ensures
        r@ == (ToolOutcomeView {
            result: "read_file: "@ + path@ + "\n\n"@ + content@,
            changed_file: None,
            command: None,
        }),
{
    let mut result = "read_file: ".to_owned();
    result.append(path);
    result.append("\n\n");
    result.append(content);
    unchanged(result)
}

/// The outcome of patching a file.
pub fn patched_file_outcome(path: String) -> (r: ToolOutcome)
    ensures
        r@ == (ToolOutcomeView {
            result: "patched_file: "@ + path@,
            changed_file: Some(ChangedFileView { action: "patched"@, path: path@ }),
            command: None,
        }),
{
    let mut result = "patched_file: ".to_owned();
    result.append(path.as_str());
    ToolOutcome {
        result,
        changed_file: Some(ChangedFile { action: "patched".to_owned(), path }),
        command: None,
    }
}

// ---------------------------------------------------------------------------
// Tool results for the model
// ---------------------------------------------------------------------------

pub open spec fn results_of(os: Seq<ToolOutcomeView>) -> Seq<Seq<char>> {
    os.map_values(|o: ToolOutcomeView| o.result)
}

/// The results of a batch, separated by blank lines.
pub open spec fn tool_results_text(os: Seq<ToolOutcomeView>) -> Seq<char> {
    join(results_of(os), "\n\n"@)
}

/// The results of a batch of tool calls, separated by blank lines.
pub fn format_tool_results(outcomes: &[ToolOutcome]) -> (r: String)
    ensures
        r@ == tool_results_text(outcomes_view(outcomes@)),
{
    let mut parts: Vec<Vec<char>> = Vec::new();
    let mut i: usize = 0;
    let ghost rs = results_of(outcomes_view(outcomes@));
    while i < outcomes.len()
        invariant
            i <= outcomes@.len(),
            rs == results_of(outcomes_view(outcomes@)),
            seq_views(parts@) == rs.take(i as int),
        decreases outcomes@.len() - i,
    {
        let p = chars_of(outcomes[i].result.as_str());
        let ghost before = seq_views(parts@);
        let ghost pv = p@;
        parts.push(p);
        assert(seq_views(parts@) =~= before.push(pv));
        assert(rs.take(i + 1) =~= rs.take(i as int).push(pv));
        i = i + 1;
    }
    assert(rs.take(i as int) =~= rs);
    let joined = join_chars(&parts, &chars_of("\n\n"));
    string_of(&joined)
}

/// The stdout section of a shell result (between `stdout:\n` and the first
/// `\nstderr:` after it) holds more than whitespace.
pub open spec fn stdout_nonempty(r: Seq<char>) -> bool {
    let m = "stdout:\n"@;
    match find(r, m) {
        None => false,
        Some(st) => if !(0 <= st && st + m.len() <= r.len()) {
            false
        } else {
            let rest = r.skip(st + m.len());
            let out = match find(rest, "\nstderr:"@) {
                Some(k) => if 0 <= k <= rest.len() {
                    rest.take(k)
                } else {
                    rest
                },
                None => rest,
            };
            trim(out).len() > 0
        },
    }
}

/// Whether a shell result's stdout section holds more than whitespace.
pub fn stdout_has_content(tool_result: &str) -> (b: bool)
    ensures
        b == stdout_nonempty(tool_result@),
{
    let r = chars_of(tool_result);
    let m = chars_of("stdout:\n");
    assert(r@.skip(0) =~= r@);
    let st = match find_from(&r, 0, &m) {
        None => return false,
        Some(k) => k,
    };
    let a = st + m.len();
    let ghost rest = r@.skip(a as int);
    let end = match find_from(&r, a, &chars_of("\nstderr:")) {
        Some(k) => a + k,
        None => r.len(),
    };
    assert(r@.subrange(a as int, end as int) =~= if end < r@.len() || find(
        rest,
        "\nstderr:"@,
    ) is Some {
        rest.take(end - a)
    } else {
        rest
    });
    let (b0, b1) = trim_bounds(&r, a, end);
    b0 < b1
}

// ---------------------------------------------------------------------------
// Execution guidance
// ---------------------------------------------------------------------------

pub open spec fn ran(o: ToolOutcomeView) -> bool {
    o.command is Some
}

pub open spec fn cmd(o: ToolOutcomeView) -> ExecutedCommandView {
    o.command->Some_0
}

/// The conditions that each guidance item answers, for one outcome:
/// 0 it ran a command; 1 the command succeeded; 2 it succeeded with non-empty stdout;
/// 3 it failed; 4 it was blocked; 5 it used `cd`; 6 it timed out; 7 `npm run dev`
/// failed; 8 npm reported invalid `package.json`; 9 npm ran at the root of the React
/// test workspace; 10 it parsed HTML with grep or sed; 11 `cargo build` failed.
pub open spec fn flag(o: ToolOutcomeView, k: int) -> bool {
    if k == 0 {
        ran(o)
    } else if k == 1 {
        ran(o) && cmd(o).success
    } else if k == 2 {
        ran(o) && cmd(o).success && stdout_nonempty(o.result)
    } else if k == 3 {
        ran(o) && !cmd(o).success
    } else if k == 4 {
        contains(o.result, "blocked_command:"@)
    } else if k == 5 {
        ran(o) && contains(cmd(o).cmd, "cd "@)
    } else if k == 6 {
        contains(o.result, "timed_out_after_secs:"@)
    } else if k == 7 {
        ran(o) && !cmd(o).success && contains(cmd(o).cmd, "npm run dev"@)
    } else if k == 8 {
        contains(o.result, "EJSONPARSE"@) || contains(o.result, "package.json must be actual JSON"@)
    } else if k == 9 {
        ran(o) && (starts_with(cmd(o).cmd, "npm "@) || contains(cmd(o).cmd, "&& npm "@))
            && path_ends_with(cmd(o).cwd, "mini-codex-react-test"@)
    } else if k == 10 {
        ran(o) && (contains(cmd(o).cmd, ".html"@) || contains(cmd(o).cmd, "<h1"@) || contains(
            cmd(o).cmd,
            "grep"@,
        ) || contains(cmd(o).cmd, "sed"@))
    } else if k == 11 {
        ran(o) && !cmd(o).success && contains(cmd(o).cmd, "cargo build"@)
    } else {
        false
    }
}

/// Some outcome of the batch meets condition `k`.
pub open spec fn any_flag(os: Seq<ToolOutcomeView>, k: int) -> bool {
    exists|i: int| 0 <= i < os.len() && flag(#[trigger] os[i], k)
}

pub open spec fn guidance_message(k: int) -> Seq<char> {
    if k == 1 {
        "Do not repeat successful setup commands unless their output is missing or the file changed."@
    } else if k == 2 {
        "If stdout already contains the requested answer, stop calling tools and provide the final answer from that output."@
    } else if k == 3 {
        "One or more commands failed. Do not repeat failed commands unchanged; choose a different supported approach."@
    } else if k == 4 {
        "A command was blocked for safety. Do not repeat it. Use non-destructive file tools or patch the existing files instead."@
    } else if k == 5 {
        "Do not use cd in shell commands. It does not persist between tool calls. Set the shell tool cwd to the target directory instead."@
    } else if k == 6 {
        "A command timed out. It was probably a long-running server; do not repeat it. Use a finite validation command such as a build, test, or file read."@
    } else if k == 7 {
        "Do not use npm run dev for validation. For Vite projects, ensure package.json has scripts, then run npm run build with cwd set to the project directory."@
    } else if k == 8 {
        "npm reported invalid package.json JSON. Do not run npm install again yet. Read package.json, rewrite it as valid strict JSON with no trailing text or JavaScript, then run npm install with cwd set to the project directory."@
    } else if k == 9 {
        "The npm command appears to have run at the workspace root. For named projects, set cwd to the project directory such as meu-react-app."@
    } else if k == 10 {
        "For HTML parsing, prefer shell with python3 and standard-library parsing or a single robust command instead of fragile multi-line grep/sed patterns."@
    } else {
        "For failed Rust builds, inspect Cargo.toml and src/main.rs, patch the compile errors, then run cargo build again. Prefer removing unnecessary external crates for simple apps."@
    }
}

/// The guidance bullets for conditions `from..=11`, in order, each present when some
/// outcome meets its condition.
pub open spec fn guidance_bullets(os: Seq<ToolOutcomeView>, from: int) -> Seq<Seq<char>>
    decreases 12 - from,
{
    if from > 11 {
        Seq::empty()
    } else if any_flag(os, from) {
        seq!["- "@ + guidance_message(from)] + guidance_bullets(os, from + 1)
    } else {
        guidance_bullets(os, from + 1)
    }
}

/// The guidance appended after a batch of tool results: nothing when no command ran,
/// otherwise a list of the hints that the batch calls for.
pub open spec fn guidance_text(os: Seq<ToolOutcomeView>) -> Seq<char> {
    if !any_flag(os, 0) {
        Seq::empty()
    } else {
        let items = guidance_bullets(os, 1);
        if items.len() == 0 {
            Seq::empty()
        } else {
            "\n\nExecution guidance:\n"@ + join(items, "\n"@)
        }
    }
}

fn guidance_message_str(k: usize) -> (r: &'static str)
    requires
        1 <= k <= 11,
    ensures
        r@ == guidance_message(k as int),
{
    if k == 1 {
        "Do not repeat successful setup commands unless their output is missing or the file changed."
    } else if k == 2 {
        "If stdout already contains the requested answer, stop calling tools and provide the final answer from that output."
    } else if k == 3 {
        "One or more commands failed. Do not repeat failed commands unchanged; choose a different supported approach."
    } else if k == 4 {
        "A command was blocked for safety. Do not repeat it. Use non-destructive file tools or patch the existing files instead."
    } else if k == 5 {
        "Do not use cd in shell commands. It does not persist between tool calls. Set the shell tool cwd to the target directory instead."
    } else if k == 6 {
        "A command timed out. It was probably a long-running server; do not repeat it. Use a finite validation command such as a build, test, or file read."
    } else if k == 7 {
        "Do not use npm run dev for validation. For Vite projects, ensure package.json has scripts, then run npm run build with cwd set to the project directory."
    } else if k == 8 {
        "npm reported invalid package.json JSON. Do not run npm install again yet. Read package.json, rewrite it as valid strict JSON with no trailing text or JavaScript, then run npm install with cwd set to the project directory."
    } else if k == 9 {
        "The npm command appears to have run at the workspace root. For named projects, set cwd to the project directory such as meu-react-app."
    } else if k == 10 {
        "For HTML parsing, prefer shell with python3 and standard-library parsing or a single robust command instead of fragile multi-line grep/sed patterns."
    } else {
        "For failed Rust builds, inspect Cargo.toml and src/main.rs, patch the compile errors, then run cargo build again. Prefer removing unnecessary external crates for simple apps."
    }
}

/// Whether one outcome meets guidance condition `k`.
fn outcome_flag(o: &ToolOutcome, k: usize) -> (b: bool)
    requires
        k <= 11,
    ensures
        b == flag(o@, k as int),
{
    let result = chars_of(o.result.as_str());
    match &o.command {
        None => {
            if k == 4 {
                contains_chars(&result, &chars_of("blocked_command:"))
            } else if k == 6 {
                contains_chars(&result, &chars_of("timed_out_after_secs:"))
            } else if k == 8 {
                contains_chars(&result, &chars_of("EJSONPARSE")) || contains_chars(
                    &result,
                    &chars_of("package.json must be actual JSON"),
                )
            } else {
                false
            }
        },
        Some(c) => {
            let cv = chars_of(c.cmd.as_str());
            if k == 0 {
                true
            } else if k == 1 {
                c.success
            } else if k == 2 {
                c.success && stdout_has_content(o.result.as_str())
            } else if k == 3 {
                !c.success
            } else if k == 4 {
                contains_chars(&result, &chars_of("blocked_command:"))
            } else if k == 5 {
                contains_chars(&cv, &chars_of("cd "))
            } else if k == 6 {
                contains_chars(&result, &chars_of("timed_out_after_secs:"))
            } else if k == 7 {
                !c.success && contains_chars(&cv, &chars_of("npm run dev"))
            } else if k == 8 {
                contains_chars(&result, &chars_of("EJSONPARSE")) || contains_chars(
                    &result,
                    &chars_of("package.json must be actual JSON"),
                )
            } else if k == 9 {
                (starts_with_chars(&cv, &chars_of("npm ")) || contains_chars(
                    &cv,
                    &chars_of("&& npm "),
                )) && path_has_suffix(c.cwd.as_str(), "mini-codex-react-test")
            } else if k == 10 {
                contains_chars(&cv, &chars_of(".html")) || contains_chars(&cv, &chars_of("<h1"))
                    || contains_chars(&cv, &chars_of("grep")) || contains_chars(
                    &cv,
                    &chars_of("sed"),
                )
            } else {
                !c.success && contains_chars(&cv, &chars_of("cargo build"))
            }
        },
    }
}

/// Whether some outcome meets guidance condition `k`.
fn any_outcome_flag(outcomes: &[ToolOutcome], k: usize) -> (b: bool)
    requires
        k <= 11,
    ensures
        b == any_flag(outcomes_view(outcomes@), k as int),
{
    let ghost os = outcomes_view(outcomes@);
    let mut i: usize = 0;
    while i < outcomes.len()
        invariant
            i <= outcomes@.len(),
            k <= 11,
            os == outcomes_view(outcomes@),
            forall|j: int| 0 <= j < i ==> !flag(#[trigger] os[j], k as int),
        decreases outcomes@.len() - i,
    {
        if outcome_flag(&outcomes[i], k) {
            assert(flag(os[i as int], k as int));
            return true;
        }
        i = i + 1;
    }
    false
}

/// The guidance that follows a batch of tool results: hints against repeating
/// commands, for stopping once stdout holds the answer, and for the failure patterns
/// the batch shows. Empty when no command ran.
pub fn tool_result_guidance(outcomes: &[ToolOutcome]) -> (r: String)
    ensures
        r@ == guidance_text(outcomes_view(outcomes@)),
{
    let ghost os = outcomes_view(outcomes@);
    if !any_outcome_flag(outcomes, 0) {
        return String::new();
    }
    let mut items: Vec<Vec<char>> = Vec::new();
    let mut k: usize = 1;
    assert(seq_views(items@) + guidance_bullets(os, 1) =~= guidance_bullets(os, 1));
    while k <= 11
        invariant
            1 <= k <= 12,
            os == outcomes_view(outcomes@),
            guidance_bullets(os, 1) == seq_views(items@) + guidance_bullets(os, k as int),
        decreases 12 - k,
    {
        let ghost before = seq_views(items@);
        if any_outcome_flag(outcomes, k) {
            let mut item = chars_of("- ");
            push_str(&mut item, guidance_message_str(k));
            let ghost iv = item@;
            items.push(item);
            assert(seq_views(items@) =~= before.push(iv));
            assert(before + (seq![iv] + guidance_bullets(os, k + 1)) =~= seq_views(items@)
                + guidance_bullets(os, k + 1));
        }
        k = k + 1;
    }
    assert(guidance_bullets(os, 12) =~= Seq::<Seq<char>>::empty());
    assert(seq_views(items@) + Seq::<Seq<char>>::empty() =~= seq_views(items@));
    if items.len() == 0 {
        return String::new();
    }
    let mut v = chars_of("\n\nExecution guidance:\n");
    let mut body = join_chars(&items, &chars_of("\n"));
    v.append(&mut body);
    string_of(&v)
}

// ---------------------------------------------------------------------------
// Turn summary
// ---------------------------------------------------------------------------

pub open spec fn changed_file_line(f: ChangedFileView) -> Seq<char> {
    "- "@ + f.action + " "@ + f.path + "\n"@
}

pub open spec fn command_line(c: ExecutedCommandView) -> Seq<char> {
    "- command `"@ + c.cmd + "` "@ + (if c.success {
        "succeeded"@
    } else {
        "failed"@
    }) + " in "@ + c.cwd + "\n"@
}

/// One line per changed file, in order.
pub open spec fn changed_file_lines(os: Seq<ToolOutcomeView>) -> Seq<char>
    decreases os.len(),
{
    if os.len() == 0 {
        Seq::empty()
    } else {
        changed_file_lines(os.drop_last()) + match os.last().changed_file {
            Some(f) => changed_file_line(f),
            None => Seq::empty(),
        }
    }
}

/// One line per command, in order.
pub open spec fn command_lines(os: Seq<ToolOutcomeView>) -> Seq<char>
    decreases os.len(),
{
    if os.len() == 0 {
        Seq::empty()
    } else {
        command_lines(os.drop_last()) + match os.last().command {
            Some(c) => command_line(c),
            None => Seq::empty(),
        }
    }
}

pub open spec fn changed_any(os: Seq<ToolOutcomeView>) -> bool {
    exists|i: int| 0 <= i < os.len() && (#[trigger] os[i]).changed_file is Some
}

/// The summary printed after a batch of tool calls: the changed files and the commands
/// with how they ended, then the changed files again; nothing when the batch changed no
/// file and ran no command.
pub open spec fn turn_summary_text(os: Seq<ToolOutcomeView>) -> Option<Seq<char>> {
    if !changed_any(os) && !any_flag(os, 0) {
        None
    } else {
        Some(
            "Summary:\n"@ + changed_file_lines(os) + command_lines(os) + "\n"@ + if changed_any(
                os,
            ) {
                "Changed files:\n"@ + changed_file_lines(os) + "\n"@
            } else {
                Seq::empty()
            },
        )
    }
}

/// The text of the summary printed after a batch of tool calls, if any.
pub fn turn_summary(outcomes: &[ToolOutcome]) -> (r: Option<String>)
    ensures
        match r {
            Some(s) => turn_summary_text(outcomes_view(outcomes@)) == Some(s@),
            None => turn_summary_text(outcomes_view(outcomes@)) is None,
        },
{
    let ghost os = outcomes_view(outcomes@);
    let mut files: Vec<char> = Vec::new();
    let mut commands: Vec<char> = Vec::new();
    let mut any_changed = false;
    let mut any_command = false;
    let mut i: usize = 0;
    assert(os.take(0) =~= Seq::<ToolOutcomeView>::empty());
    while i < outcomes.len()
        invariant
            i <= outcomes@.len(),
            os == outcomes_view(outcomes@),
            files@ == changed_file_lines(os.take(i as int)),
            commands@ == command_lines(os.take(i as int)),
            any_changed == exists|j: int| 0 <= j < i && (#[trigger] os[j]).changed_file is Some,
            any_command == exists|j: int| 0 <= j < i && flag(#[trigger] os[j], 0),
        decreases outcomes@.len() - i,
    {
        let o = &outcomes[i];
        assert(os.take(i + 1).drop_last() =~= os.take(i as int));
        assert(os.take(i + 1).last() == o@);
        match &o.changed_file {
            Some(f) => {
                push_str(&mut files, "- ");
                push_str(&mut files, f.action.as_str());
                push_str(&mut files, " ");
                push_str(&mut files, f.path.as_str());
                push_str(&mut files, "\n");
                any_changed = true;
            },
            None => {},
        }
        match &o.command {
            Some(c) => {
                push_str(&mut commands, "- command `");
                push_str(&mut commands, c.cmd.as_str());
                push_str(&mut commands, "` ");
                push_str(&mut commands, if c.success { "succeeded" } else { "failed" });
                push_str(&mut commands, " in ");
                push_str(&mut commands, c.cwd.as_str());
                push_str(&mut commands, "\n");
                any_command = true;
            },
            None => {},
        }
        i = i + 1;
    }
    assert(os.take(i as int) =~= os);
    if !any_changed && !any_command {
        return None;
    }
    let mut text = chars_of("Summary:\n");
    push_chars(&mut text, &files);
    push_chars(&mut text, &commands);
    push_str(&mut text, "\n");
    if any_changed {
        push_str(&mut text, "Changed files:\n");
        push_chars(&mut text, &files);
        push_str(&mut text, "\n");
    }
    Some(string_of(&text))
}

/// A batch in which no command ran gets no execution guidance.
pub proof fn lemma_no_guidance_without_commands(os: Seq<ToolOutcomeView>)
    requires
        forall|i: int| 0 <= i < os.len() ==> !ran(#[trigger] os[i]),
    ensures
        guidance_text(os) == Seq::<char>::empty(),
{
    assert(!any_flag(os, 0));
}

proof fn lemma_messages_distinct(j: int, k: int)
    requires
        1 <= j <= 11,
        1 <= k <= 11,
        j != k,
    ensures
        guidance_message(j).len() != guidance_message(k).len(),
{
    reveal_strlit("Do not repeat successful setup commands unless their output is missing or the file changed.");
    reveal_strlit("If stdout already contains the requested answer, stop calling tools and provide the final answer from that output.");
    reveal_strlit("One or more commands failed. Do not repeat failed commands unchanged; choose a different supported approach.");
    reveal_strlit("A command was blocked for safety. Do not repeat it. Use non-destructive file tools or patch the existing files instead.");
    reveal_strlit("Do not use cd in shell commands. It does not persist between tool calls. Set the shell tool cwd to the target directory instead.");
    reveal_strlit("A command timed out. It was probably a long-running server; do not repeat it. Use a finite validation command such as a build, test, or file read.");
    reveal_strlit("Do not use npm run dev for validation. For Vite projects, ensure package.json has scripts, then run npm run build with cwd set to the project directory.");
    reveal_strlit("npm reported invalid package.json JSON. Do not run npm install again yet. Read package.json, rewrite it as valid strict JSON with no trailing text or JavaScript, then run npm install with cwd set to the project directory.");
    reveal_strlit("The npm command appears to have run at the workspace root. For named projects, set cwd to the project directory such as meu-react-app.");
    reveal_strlit("For HTML parsing, prefer shell with python3 and standard-library parsing or a single robust command instead of fragile multi-line grep/sed patterns.");
    reveal_strlit("For failed Rust builds, inspect Cargo.toml and src/main.rs, patch the compile errors, then run cargo build again. Prefer removing unnecessary external crates for simple apps.");
}

proof fn lemma_bullets(os: Seq<ToolOutcomeView>, from: int)
    requires
        1 <= from <= 12,
    ensures
        forall|x: Seq<char>|
            #[trigger] guidance_bullets(os, from).contains(x) ==> exists|j: int|
                from <= j <= 11 && any_flag(os, j) && x == "- "@ + guidance_message(j),
        forall|k: int|
            from <= k <= 11 && any_flag(os, k) ==> #[trigger] guidance_bullets(os, from).contains(
                "- "@ + guidance_message(k),
            ),
    decreases 12 - from,
{
    let b = guidance_bullets(os, from);
    if from <= 11 {
        lemma_bullets(os, from + 1);
        let r = guidance_bullets(os, from + 1);
        let head = "- "@ + guidance_message(from);
        if any_flag(os, from) {
            assert(b == seq![head] + r);
            assert forall|x: Seq<char>| #[trigger] b.contains(x) implies exists|j: int|
                from <= j <= 11 && any_flag(os, j) && x == "- "@ + guidance_message(j) by {
                let t = choose|t: int| 0 <= t < b.len() && b[t] == x;
                if t > 0 {
                    assert(r[t - 1] == x);
                    assert(r.contains(x));
                }
            }
            assert forall|k: int| from <= k <= 11 && any_flag(os, k) implies #[trigger] b.contains(
                "- "@ + guidance_message(k),
            ) by {
                if k == from {
                    assert(b[0] == head);
                } else {
                    assert(r.contains("- "@ + guidance_message(k)));
                    let t = choose|t: int| 0 <= t < r.len() && r[t] == "- "@ + guidance_message(k);
                    assert(b[t + 1] == r[t]);
                }
            }
        } else {
            assert(b == r);
            assert forall|k: int| from <= k <= 11 && any_flag(os, k) implies #[trigger] b.contains(
                "- "@ + guidance_message(k),
            ) by {
                assert(k != from);
                assert(r.contains("- "@ + guidance_message(k)));
            }
            assert forall|x: Seq<char>| #[trigger] b.contains(x) implies exists|j: int|
                from <= j <= 11 && any_flag(os, j) && x == "- "@ + guidance_message(j) by {
                assert(r.contains(x));
            }
        }
    }
}

/// The execution guidance is empty exactly when no command ran. Otherwise it starts
/// with its heading and first bullet, there is a bullet for a hint exactly when some
/// outcome calls for it (the bullet for successful commands exactly when a command
/// succeeded, the one for failed commands exactly when one failed), and the text holds
/// each such hint.
pub proof fn lemma_guidance_bullets(os: Seq<ToolOutcomeView>)
    ensures
        (guidance_text(os).len() == 0) <==> !any_flag(os, 0),
        any_flag(os, 0) ==> starts_with(guidance_text(os), "\n\nExecution guidance:\n- "@),
        forall|k: int|
            1 <= k <= 11 ==> (#[trigger] guidance_bullets(os, 1).contains(
                "- "@ + guidance_message(k),
            ) <==> any_flag(os, k)),
        forall|k: int|
            1 <= k <= 11 && any_flag(os, 0) && any_flag(os, k) ==> #[trigger] contains(
                guidance_text(os),
                guidance_message(k),
            ),
        any_flag(os, 0) <==> (any_flag(os, 1) || any_flag(os, 3)),
{
    reveal_strlit("\n\nExecution guidance:\n");
    reveal_strlit("\n\nExecution guidance:\n- ");
    reveal_strlit("- ");
    lemma_bullets(os, 1);
    let items = guidance_bullets(os, 1);
    assert forall|k: int| 1 <= k <= 11 implies (#[trigger] items.contains(
        "- "@ + guidance_message(k),
    ) <==> any_flag(os, k)) by {
        if items.contains("- "@ + guidance_message(k)) {
            let j = choose|j: int|
                1 <= j <= 11 && any_flag(os, j) && "- "@ + guidance_message(k) == "- "@
                    + guidance_message(j);
            if j != k {
                lemma_messages_distinct(j, k);
                assert(("- "@ + guidance_message(k)).len() == ("- "@ + guidance_message(j)).len());
            }
        }
    }
    if any_flag(os, 0) {
        let i = choose|i: int| 0 <= i < os.len() && flag(#[trigger] os[i], 0);
        if cmd(os[i]).success {
            assert(flag(os[i], 1));
        } else {
            assert(flag(os[i], 3));
        }
    }
    if any_flag(os, 1) {
        let i = choose|i: int| 0 <= i < os.len() && flag(#[trigger] os[i], 1);
        assert(flag(os[i], 0));
    }
    if any_flag(os, 3) {
        let i = choose|i: int| 0 <= i < os.len() && flag(#[trigger] os[i], 3);
        assert(flag(os[i], 0));
    }
    if any_flag(os, 0) {
        assert(items.contains("- "@ + guidance_message(1)) || items.contains(
            "- "@ + guidance_message(3),
        ));
        assert(items.len() > 0);
        let x = items[0];
        assert(items.contains(x));
        let j = choose|j: int| 1 <= j <= 11 && any_flag(os, j) && x == "- "@ + guidance_message(j);
        let header = "\n\nExecution guidance:\n"@;
        let body = join(items, "\n"@);
        crate::text::lemma_join_starts_with_first(items, "\n"@);
        assert(guidance_text(os) == header + body);
        assert((header + body).subrange(0, header.len() + 2int) =~= header + body.subrange(0, 2));
        assert(body.subrange(0, 2) =~= x.subrange(0, 2));
        assert(x.subrange(0, 2) =~= "- "@);
        assert(body.subrange(0, x.len() as int) == x);
        assert("\n\nExecution guidance:\n- "@ =~= header + "- "@);
        assert((header + body).subrange(0, header.len() + 2int) =~= header + "- "@);
        assert forall|k: int| 1 <= k <= 11 && any_flag(os, k) implies #[trigger] contains(
            guidance_text(os),
            guidance_message(k),
        ) by {
            let b = "- "@ + guidance_message(k);
            assert(items.contains(b));
            let t = choose|t: int| 0 <= t < items.len() && items[t] == b;
            let m = crate::text::lemma_join_has_part(items, "\n"@, t);
            let at = header.len() + m + 2;
            let msg = guidance_message(k);
            assert((header + body).subrange(at, at + msg.len()) =~= body.subrange(
                m + 2,
                m + 2 + msg.len(),
            ));
            assert(body.subrange(m, m + b.len()) == b);
            assert(body.subrange(m + 2, m + 2 + msg.len()) =~= b.subrange(2, 2int + msg.len()));
            assert(b.subrange(2, 2int + msg.len()) =~= msg);
            crate::text::lemma_contains_at(guidance_text(os), msg, at);
        }
    } else {
        assert(guidance_text(os).len() == 0);
    }
}

/// `s` holds `a` directly followed by `b`.
spec fn has_pair(s: Seq<char>, a: char, b: char) -> bool {
    exists|p: int| 0 <= p && p + 1 < s.len() && #[trigger] s[p] == a && s[p + 1] == b
}

proof fn lemma_pair_concat(x: Seq<char>, y: Seq<char>, a: char, b: char)
    requires
        has_pair(x + y, a, b),
    ensures
        has_pair(x, a, b) || has_pair(y, a, b) || (x.len() > 0 && y.len() > 0 && x.last() == a
            && y[0] == b),
{
    let p = choose|p: int| 0 <= p && p + 1 < (x + y).len() && #[trigger] (x + y)[p] == a && (x
        + y)[p + 1] == b;
    if p + 1 < x.len() {
        assert(x[p] == a && x[p + 1] == b);
    } else if p >= x.len() {
        assert(y[p - x.len()] == a && y[p - x.len() + 1] == b);
    } else {
        assert(x.last() == a && y[0] == b);
    }
}

proof fn lemma_pair_in_join(parts: Seq<Seq<char>>, a: char, b: char)
    requires
        a != '\n',
        b != '\n',
        has_pair(join(parts, seq!['\n']), a, b),
    ensures
        exists|i: int| 0 <= i < parts.len() && has_pair(#[trigger] parts[i], a, b),
    decreases parts.len(),
{
    let sep = seq!['\n'];
    if parts.len() == 0 {
    } else if parts.len() == 1 {
        assert(has_pair(parts[0], a, b));
    } else {
        let d = parts.drop_last();
        let jd = join(d, sep);
        assert(join(parts, sep) == jd + sep + parts.last());
        lemma_pair_concat(jd + sep, parts.last(), a, b);
        if has_pair(jd + sep, a, b) {
            lemma_pair_concat(jd, sep, a, b);
            if has_pair(sep, a, b) {
                let p = choose|p: int| 0 <= p && p + 1 < sep.len() && #[trigger] sep[p] == a && sep[p
                    + 1] == b;
            }
            lemma_pair_in_join(d, a, b);
            let i = choose|i: int| 0 <= i < d.len() && has_pair(#[trigger] d[i], a, b);
            assert(parts[i] == d[i]);
        } else {
            assert(has_pair(parts[parts.len() - 1], a, b));
        }
    }
}

proof fn lemma_message_pairs(j: int)
    requires
        1 <= j <= 11,
    ensures
        has_pair(guidance_message(j), 'c', 'c') <==> j == 1,
        has_pair(guidance_message(j), 'O', 'n') <==> j == 3,
{
    if j == 1 {
        reveal_strlit("Do not repeat successful setup commands unless their output is missing or the file changed.");
        let m = guidance_message(1);
        assert(m[16] == 'c' && m[17] == 'c');
        assert forall|p: int| 0 <= p < m.len() - 1 implies !(#[trigger] m[p] == 'O' && m[p + 1] == 'n') by {}
    } else if j == 2 {
        reveal_strlit("If stdout already contains the requested answer, stop calling tools and provide the final answer from that output.");
        let m = guidance_message(2);
        assert forall|p: int| 0 <= p < m.len() - 1 implies !(#[trigger] m[p] == 'c' && m[p + 1] == 'c') by {}
        assert forall|p: int| 0 <= p < m.len() - 1 implies !(#[trigger] m[p] == 'O' && m[p + 1] == 'n') by {}
    } else if j == 3 {
        reveal_strlit("One or more commands failed. Do not repeat failed commands unchanged; choose a different supported approach.");
        let m = guidance_message(3);
        assert forall|p: int| 0 <= p < m.len() - 1 implies !(#[trigger] m[p] == 'c' && m[p + 1] == 'c') by {}
        assert(m[0] == 'O' && m[1] == 'n');
    } else if j == 4 {
        reveal_strlit("A command was blocked for safety. Do not repeat it. Use non-destructive file tools or patch the existing files instead.");
        let m = guidance_message(4);
        assert forall|p: int| 0 <= p < m.len() - 1 implies !(#[trigger] m[p] == 'c' && m[p + 1] == 'c') by {}
        assert forall|p: int| 0 <= p < m.len() - 1 implies !(#[trigger] m[p] == 'O' && m[p + 1] == 'n') by {}
    } else if j == 5 {
        reveal_strlit("Do not use cd in shell commands. It does not persist between tool calls. Set the shell tool cwd to the target directory instead.");
        let m = guidance_message(5);
        assert forall|p: int| 0 <= p < m.len() - 1 implies !(#[trigger] m[p] == 'c' && m[p + 1] == 'c') by {}
        assert forall|p: int| 0 <= p < m.len() - 1 implies !(#[trigger] m[p] == 'O' && m[p + 1] == 'n') by {}
    } else if j == 6 {
        reveal_strlit("A command timed out. It was probably a long-running server; do not repeat it. Use a finite validation command such as a build, test, or file read.");
        let m = guidance_message(6);
        assert forall|p: int| 0 <= p < m.len() - 1 implies !(#[trigger] m[p] == 'c' && m[p + 1] == 'c') by {}
        assert forall|p: int| 0 <= p < m.len() - 1 implies !(#[trigger] m[p] == 'O' && m[p + 1] == 'n') by {}
    } else if j == 7 {
        reveal_strlit("Do not use npm run dev for validation. For Vite projects, ensure package.json has scripts, then run npm run build with cwd set to the project directory.");
        let m = guidance_message(7);
        assert forall|p: int| 0 <= p < m.len() - 1 implies !(#[trigger] m[p] == 'c' && m[p + 1] == 'c') by {}
        assert forall|p: int| 0 <= p < m.len() - 1 implies !(#[trigger] m[p] == 'O' && m[p + 1] == 'n') by {}
    } else if j == 8 {
        reveal_strlit("npm reported invalid package.json JSON. Do not run npm install again yet. Read package.json, rewrite it as valid strict JSON with no trailing text or JavaScript, then run npm install with cwd set to the project directory.");
        let m = guidance_message(8);
        assert forall|p: int| 0 <= p < m.len() - 1 implies !(#[trigger] m[p] == 'c' && m[p + 1] == 'c') by {}
        assert forall|p: int| 0 <= p < m.len() - 1 implies !(#[trigger] m[p] == 'O' && m[p + 1] == 'n') by {}
    } else if j == 9 {
        reveal_strlit("The npm command appears to have run at the workspace root. For named projects, set cwd to the project directory such as meu-react-app.");
        let m = guidance_message(9);
        assert forall|p: int| 0 <= p < m.len() - 1 implies !(#[trigger] m[p] == 'c' && m[p + 1] == 'c') by {}
        assert forall|p: int| 0 <= p < m.len() - 1 implies !(#[trigger] m[p] == 'O' && m[p + 1] == 'n') by {}
    } else if j == 10 {
        reveal_strlit("For HTML parsing, prefer shell with python3 and standard-library parsing or a single robust command instead of fragile multi-line grep/sed patterns.");
        let m = guidance_message(10);
        assert forall|p: int| 0 <= p < m.len() - 1 implies !(#[trigger] m[p] == 'c' && m[p + 1] == 'c') by {}
        assert forall|p: int| 0 <= p < m.len() - 1 implies !(#[trigger] m[p] == 'O' && m[p + 1] == 'n') by {}
    } else {
        reveal_strlit("For failed Rust builds, inspect Cargo.toml and src/main.rs, patch the compile errors, then run cargo build again. Prefer removing unnecessary external crates for simple apps.");
        let m = guidance_message(11);
        assert forall|p: int| 0 <= p < m.len() - 1 implies !(#[trigger] m[p] == 'c' && m[p + 1] == 'c') by {}
        assert forall|p: int| 0 <= p < m.len() - 1 implies !(#[trigger] m[p] == 'O' && m[p + 1] == 'n') by {}
    }
}

proof fn lemma_hint_in_text(os: Seq<ToolOutcomeView>, k: int, a: char, b: char)
    requires
        1 <= k <= 11,
        a != '\n' && a != ' ' && a != '-' && b != '\n',
        !has_pair("\n\nExecution guidance:\n"@, a, b),
        forall|j: int| 1 <= j <= 11 ==> (has_pair(#[trigger] guidance_message(j), a, b) <==> j == k),
        contains(guidance_text(os), guidance_message(k)),
    ensures
        any_flag(os, k),
{
    reveal_strlit("\n\nExecution guidance:\n");
    reveal_strlit("- ");
    reveal_strlit("\n");
    let t = guidance_text(os);
    let msg = guidance_message(k);
    assert(has_pair(msg, a, b));
    crate::text::lemma_find(t, msg);
    let q = find(t, msg)->0;
    let p = choose|p: int| 0 <= p && p + 1 < msg.len() && #[trigger] msg[p] == a && msg[p + 1] == b;
    assert(t.subrange(q, q + msg.len()) == msg);
    assert(t[q + p] == msg[p]);
    assert(t[q + p + 1] == msg[p + 1]);
    assert(has_pair(t, a, b));
    assert(any_flag(os, 0));
    let header = "\n\nExecution guidance:\n"@;
    let items = guidance_bullets(os, 1);
    assert("\n"@ =~= seq!['\n']);
    assert(t == header + join(items, seq!['\n']));
    lemma_pair_concat(header, join(items, seq!['\n']), a, b);
    lemma_pair_in_join(items, a, b);
    let i = choose|i: int| 0 <= i < items.len() && has_pair(#[trigger] items[i], a, b);
    lemma_bullets(os, 1);
    assert(items.contains(items[i]));
    let j = choose|j: int| 1 <= j <= 11 && any_flag(os, j) && items[i] == "- "@ + guidance_message(j);
    lemma_pair_concat("- "@, guidance_message(j), a, b);
    assert(!has_pair("- "@, a, b)) by {
        assert forall|p: int| 0 <= p < ("- "@).len() - 1 implies !(#[trigger] ("- "@)[p] == a
            && ("- "@)[p + 1] == b) by {}
    }
    assert(has_pair(guidance_message(j), a, b));
}

/// The hint against repeating successful commands appears in the guidance exactly when
/// some command succeeded, and the hint about failed commands exactly when some command
/// failed.
pub proof fn lemma_guidance_success_failure(os: Seq<ToolOutcomeView>)
    ensures
        contains(guidance_text(os), guidance_message(1)) <==> any_flag(os, 1),
        contains(guidance_text(os), guidance_message(3)) <==> any_flag(os, 3),
{
    lemma_guidance_bullets(os);
    assert forall|j: int| 1 <= j <= 11 implies (has_pair(#[trigger] guidance_message(j), 'c', 'c')
        <==> j == 1) by {
        lemma_message_pairs(j);
    }
    assert forall|j: int| 1 <= j <= 11 implies (has_pair(#[trigger] guidance_message(j), 'O', 'n')
        <==> j == 3) by {
        lemma_message_pairs(j);
    }
    reveal_strlit("\n\nExecution guidance:\n");
    let header = "\n\nExecution guidance:\n"@;
    assert forall|p: int| 0 <= p < header.len() - 1 implies !(#[trigger] header[p] == 'c'
        && header[p + 1] == 'c') && !(header[p] == 'O' && header[p + 1] == 'n') by {}
    if contains(guidance_text(os), guidance_message(1)) {
        lemma_hint_in_text(os, 1, 'c', 'c');
    }
    if contains(guidance_text(os), guidance_message(3)) {
        lemma_hint_in_text(os, 3, 'O', 'n');
    }
}

/// Some outcome of the batch ran a shell command.
pub open spec fn some_command_ran(os: Seq<ToolOutcomeView>) -> bool {
    exists|i: int| 0 <= i < os.len() && (#[trigger] os[i]).command is Some
}

/// Once a command ran, each hint appears in the guidance whenever some outcome calls for
/// it: a command that succeeded, succeeded with output, failed, was blocked, used `cd`,
/// timed out, failed as `npm run dev`, met invalid `package.json`, ran npm at the root
/// of the React test workspace, parsed HTML with grep or sed, or failed as `cargo build`.
pub proof fn lemma_guidance_hints(os: Seq<ToolOutcomeView>)
    ensures
        (some_command_ran(os) && (exists|i: int| 0 <= i < os.len() && (os[i].command is Some && os[i].command->0.success))) ==> contains(
            guidance_text(os),
            "Do not repeat successful setup commands unless their output is missing or the file changed."@,
        ),
        (some_command_ran(os) && (exists|i: int| 0 <= i < os.len() && (os[i].command is Some && os[i].command->0.success && stdout_nonempty(os[i].result)))) ==> contains(
            guidance_text(os),
            "If stdout already contains the requested answer, stop calling tools and provide the final answer from that output."@,
        ),
        (some_command_ran(os) && (exists|i: int| 0 <= i < os.len() && (os[i].command is Some && !os[i].command->0.success))) ==> contains(
            guidance_text(os),
            "One or more commands failed. Do not repeat failed commands unchanged; choose a different supported approach."@,
        ),
        (some_command_ran(os) && (exists|i: int| 0 <= i < os.len() && (contains(os[i].result, "blocked_command:"@)))) ==> contains(
            guidance_text(os),
            "A command was blocked for safety. Do not repeat it. Use non-destructive file tools or patch the existing files instead."@,
        ),
        (some_command_ran(os) && (exists|i: int| 0 <= i < os.len() && (os[i].command is Some && contains(os[i].command->0.cmd, "cd "@)))) ==> contains(
            guidance_text(os),
            "Do not use cd in shell commands. It does not persist between tool calls. Set the shell tool cwd to the target directory instead."@,
        ),
        (some_command_ran(os) && (exists|i: int| 0 <= i < os.len() && (contains(os[i].result, "timed_out_after_secs:"@)))) ==> contains(
            guidance_text(os),
            "A command timed out. It was probably a long-running server; do not repeat it. Use a finite validation command such as a build, test, or file read."@,
        ),
        (some_command_ran(os) && (exists|i: int| 0 <= i < os.len() && (os[i].command is Some && !os[i].command->0.success && contains(os[i].command->0.cmd, "npm run dev"@)))) ==> contains(
            guidance_text(os),
            "Do not use npm run dev for validation. For Vite projects, ensure package.json has scripts, then run npm run build with cwd set to the project directory."@,
        ),
        (some_command_ran(os) && (exists|i: int| 0 <= i < os.len() && (contains(os[i].result, "EJSONPARSE"@) || contains(os[i].result, "package.json must be actual JSON"@)))) ==> contains(
            guidance_text(os),
            "npm reported invalid package.json JSON. Do not run npm install again yet. Read package.json, rewrite it as valid strict JSON with no trailing text or JavaScript, then run npm install with cwd set to the project directory."@,
        ),
        (some_command_ran(os) && (exists|i: int| 0 <= i < os.len() && (os[i].command is Some && (starts_with(os[i].command->0.cmd, "npm "@) || contains(os[i].command->0.cmd, "&& npm "@)) && path_ends_with(os[i].command->0.cwd, "mini-codex-react-test"@)))) ==> contains(
            guidance_text(os),
            "The npm command appears to have run at the workspace root. For named projects, set cwd to the project directory such as meu-react-app."@,
        ),
        (some_command_ran(os) && (exists|i: int| 0 <= i < os.len() && (os[i].command is Some && (contains(os[i].command->0.cmd, ".html"@) || contains(os[i].command->0.cmd, "<h1"@) || contains(os[i].command->0.cmd, "grep"@) || contains(os[i].command->0.cmd, "sed"@))))) ==> contains(
            guidance_text(os),
            "For HTML parsing, prefer shell with python3 and standard-library parsing or a single robust command instead of fragile multi-line grep/sed patterns."@,
        ),
        (some_command_ran(os) && (exists|i: int| 0 <= i < os.len() && (os[i].command is Some && !os[i].command->0.success && contains(os[i].command->0.cmd, "cargo build"@)))) ==> contains(
            guidance_text(os),
            "For failed Rust builds, inspect Cargo.toml and src/main.rs, patch the compile errors, then run cargo build again. Prefer removing unnecessary external crates for simple apps."@,
        ),
{
    lemma_guidance_bullets(os);
    if some_command_ran(os) {
        let i = choose|i: int| 0 <= i < os.len() && (#[trigger] os[i]).command is Some;
        assert(flag(os[i], 0));
    }
    if some_command_ran(os) && (exists|i: int| 0 <= i < os.len() && (ran(os[i]) && cmd(os[i]).success)) {
        let i = choose|i: int| 0 <= i < os.len() && (ran(os[i]) && cmd(os[i]).success);
        assert(flag(os[i], 1));
        assert(any_flag(os, 1));
        assert(contains(guidance_text(os), guidance_message(1)));
    }
    if some_command_ran(os) && (exists|i: int| 0 <= i < os.len() && (ran(os[i]) && cmd(os[i]).success && stdout_nonempty(os[i].result))) {
        let i = choose|i: int| 0 <= i < os.len() && (ran(os[i]) && cmd(os[i]).success && stdout_nonempty(os[i].result));
        assert(flag(os[i], 2));
        assert(any_flag(os, 2));
        assert(contains(guidance_text(os), guidance_message(2)));
    }
    if some_command_ran(os) && (exists|i: int| 0 <= i < os.len() && (ran(os[i]) && !cmd(os[i]).success)) {
        let i = choose|i: int| 0 <= i < os.len() && (ran(os[i]) && !cmd(os[i]).success);
        assert(flag(os[i], 3));
        assert(any_flag(os, 3));
        assert(contains(guidance_text(os), guidance_message(3)));
    }
    if some_command_ran(os) && (exists|i: int| 0 <= i < os.len() && (contains(os[i].result, "blocked_command:"@))) {
        let i = choose|i: int| 0 <= i < os.len() && (contains(os[i].result, "blocked_command:"@));
        assert(flag(os[i], 4));
        assert(any_flag(os, 4));
        assert(contains(guidance_text(os), guidance_message(4)));
    }
    if some_command_ran(os) && (exists|i: int| 0 <= i < os.len() && (ran(os[i]) && contains(cmd(os[i]).cmd, "cd "@))) {
        let i = choose|i: int| 0 <= i < os.len() && (ran(os[i]) && contains(cmd(os[i]).cmd, "cd "@));
        assert(flag(os[i], 5));
        assert(any_flag(os, 5));
        assert(contains(guidance_text(os), guidance_message(5)));
    }
    if some_command_ran(os) && (exists|i: int| 0 <= i < os.len() && (contains(os[i].result, "timed_out_after_secs:"@))) {
        let i = choose|i: int| 0 <= i < os.len() && (contains(os[i].result, "timed_out_after_secs:"@));
        assert(flag(os[i], 6));
        assert(any_flag(os, 6));
        assert(contains(guidance_text(os), guidance_message(6)));
    }
    if some_command_ran(os) && (exists|i: int| 0 <= i < os.len() && (ran(os[i]) && !cmd(os[i]).success && contains(cmd(os[i]).cmd, "npm run dev"@))) {
        let i = choose|i: int| 0 <= i < os.len() && (ran(os[i]) && !cmd(os[i]).success && contains(cmd(os[i]).cmd, "npm run dev"@));
        assert(flag(os[i], 7));
        assert(any_flag(os, 7));
        assert(contains(guidance_text(os), guidance_message(7)));
    }
    if some_command_ran(os) && (exists|i: int| 0 <= i < os.len() && (contains(os[i].result, "EJSONPARSE"@) || contains(os[i].result, "package.json must be actual JSON"@))) {
        let i = choose|i: int| 0 <= i < os.len() && (contains(os[i].result, "EJSONPARSE"@) || contains(os[i].result, "package.json must be actual JSON"@));
        assert(flag(os[i], 8));
        assert(any_flag(os, 8));
        assert(contains(guidance_text(os), guidance_message(8)));
    }
    if some_command_ran(os) && (exists|i: int| 0 <= i < os.len() && (ran(os[i]) && (starts_with(cmd(os[i]).cmd, "npm "@) || contains(cmd(os[i]).cmd, "&& npm "@)) && path_ends_with(cmd(os[i]).cwd, "mini-codex-react-test"@))) {
        let i = choose|i: int| 0 <= i < os.len() && (ran(os[i]) && (starts_with(cmd(os[i]).cmd, "npm "@) || contains(cmd(os[i]).cmd, "&& npm "@)) && path_ends_with(cmd(os[i]).cwd, "mini-codex-react-test"@));
        assert(flag(os[i], 9));
        assert(any_flag(os, 9));
        assert(contains(guidance_text(os), guidance_message(9)));
    }
    if some_command_ran(os) && (exists|i: int| 0 <= i < os.len() && (ran(os[i]) && (contains(cmd(os[i]).cmd, ".html"@) || contains(cmd(os[i]).cmd, "<h1"@) || contains(cmd(os[i]).cmd, "grep"@) || contains(cmd(os[i]).cmd, "sed"@)))) {
        let i = choose|i: int| 0 <= i < os.len() && (ran(os[i]) && (contains(cmd(os[i]).cmd, ".html"@) || contains(cmd(os[i]).cmd, "<h1"@) || contains(cmd(os[i]).cmd, "grep"@) || contains(cmd(os[i]).cmd, "sed"@)));
        assert(flag(os[i], 10));
        assert(any_flag(os, 10));
        assert(contains(guidance_text(os), guidance_message(10)));
    }
    if some_command_ran(os) && (exists|i: int| 0 <= i < os.len() && (ran(os[i]) && !cmd(os[i]).success && contains(cmd(os[i]).cmd, "cargo build"@))) {
        let i = choose|i: int| 0 <= i < os.len() && (ran(os[i]) && !cmd(os[i]).success && contains(cmd(os[i]).cmd, "cargo build"@));
        assert(flag(os[i], 11));
        assert(any_flag(os, 11));
        assert(contains(guidance_text(os), guidance_message(11)));
    }
}

} // verus!
