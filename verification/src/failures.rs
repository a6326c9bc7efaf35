//! Counting failed shell commands across the tool turns of one request, to warn the
//! model when it repeats a failing command and to stop the turn at a limit.
use vstd::prelude::*;
use crate::guidance::{cmd, ran};
use crate::text::{chars_of, decimal, decimal_chars, eq_chars, join, join_chars, push_str, seq_views, string_of};
use crate::types::{ToolOutcome, ToolOutcomeView, outcomes_view};

verus! {

/// How often each command has failed, in the order the commands first failed.
pub struct FailedCommandCounts {
    entries: Vec<(String, usize)>,
}

pub open spec fn entries_view_of(v: Seq<(String, usize)>) -> Seq<(Seq<char>, nat)> {
    v.map_values(|e: (String, usize)| (e.0@, e.1 as nat))
}

/// The count recorded for `cmd` (its first entry), or 0.
pub open spec fn count_in(es: Seq<(Seq<char>, nat)>, cmd: Seq<char>) -> nat
    decreases es.len(),
{
    if es.len() == 0 {
        0
    } else if es[0].0 == cmd {
        es[0].1
    } else {
        count_in(es.drop_first(), cmd)
    }
}

/// The entries with `cmd`'s count set to `count`: its first entry updated, or a new
/// entry at the end.
pub open spec fn set_count(es: Seq<(Seq<char>, nat)>, cmd: Seq<char>, count: nat) -> Seq<
    (Seq<char>, nat),
>
    decreases es.len(),
{
    if es.len() == 0 {
        seq![(cmd, count)]
    } else if es[0].0 == cmd {
        seq![(cmd, count)] + es.drop_first()
    } else {
        seq![es[0]] + set_count(es.drop_first(), cmd, count)
    }
}

/// The entries after one more failure of `cmd`.
pub open spec fn record_failure(es: Seq<(Seq<char>, nat)>, cmd: Seq<char>) -> Seq<(Seq<char>, nat)> {
    set_count(es, cmd, count_in(es, cmd) + 1)
}

/// The commands of the failed commands of a batch, in order.
pub open spec fn failed_commands(os: Seq<ToolOutcomeView>) -> Seq<Seq<char>>
    decreases os.len(),
{
    if os.len() == 0 {
        Seq::empty()
    } else {
        (if ran(os[0]) && !cmd(os[0]).success {
            seq![cmd(os[0]).cmd]
        } else {
            Seq::empty()
        }) + failed_commands(os.drop_first())
    }
}

/// The entries after recording each failure in turn.
pub open spec fn after_failures(es: Seq<(Seq<char>, nat)>, cmds: Seq<Seq<char>>) -> Seq<
    (Seq<char>, nat),
>
    decreases cmds.len(),
{
    if cmds.len() == 0 {
        es
    } else {
        after_failures(record_failure(es, cmds[0]), cmds.drop_first())
    }
}

pub open spec fn repeat_note(cmd: Seq<char>, count: nat) -> Seq<char> {
    "`"@ + cmd + "` failed "@ + decimal(count) + " times"@
}

/// A note for each failure that brings its command's count to 2 or more.
pub open spec fn repeat_notes(es: Seq<(Seq<char>, nat)>, cmds: Seq<Seq<char>>) -> Seq<Seq<char>>
    decreases cmds.len(),
{
    if cmds.len() == 0 {
        Seq::empty()
    } else {
        let es1 = record_failure(es, cmds[0]);
        let c = count_in(es1, cmds[0]);
        let rest = repeat_notes(es1, cmds.drop_first());
        if c >= 2 {
            seq![repeat_note(cmds[0], c)] + rest
        } else {
            rest
        }
    }
}

pub open spec fn repeated_guidance_text(notes: Seq<Seq<char>>, max_repeats: nat) -> Seq<char> {
    if notes.len() == 0 {
        Seq::empty()
    } else {
        "\n\nRepeated failure guidance:\n- Do not repeat the same failed command. "@ + join(
            notes,
            "; "@,
        )
            + "\n- Fix the root cause first by reading or patching the relevant file, then run a different validation command. The turn will stop after "@
            + decimal(max_repeats) + " repeats of the same failed command."@
    }
}

/// The first command (in order of first failure) that failed at least `max` times.
pub open spec fn first_at_limit(es: Seq<(Seq<char>, nat)>, max: nat) -> Option<Seq<char>>
    decreases es.len(),
{
    if es.len() == 0 {
        None
    } else if es[0].1 >= max {
        Some(es[0].0)
    } else {
        first_at_limit(es.drop_first(), max)
    }
}

/// Every count leaves room for `n` more failures.
pub open spec fn room_for(es: Seq<(Seq<char>, nat)>, n: nat) -> bool {
    forall|i: int| 0 <= i < es.len() ==> #[trigger] es[i].1 + n <= usize::MAX
}

pub proof fn lemma_count_set(es: Seq<(Seq<char>, nat)>, cmd: Seq<char>, count: nat)
    ensures
        count_in(set_count(es, cmd, count), cmd) == count,
    decreases es.len(),
{
    if es.len() > 0 && es[0].0 != cmd {
        lemma_count_set(es.drop_first(), cmd, count);
        assert(set_count(es, cmd, count).drop_first() =~= set_count(es.drop_first(), cmd, count));
    }
}

pub proof fn lemma_room_set(es: Seq<(Seq<char>, nat)>, cmd: Seq<char>, count: nat, n: nat)
    requires
        room_for(es, n),
        count + n <= usize::MAX,
    ensures
        room_for(set_count(es, cmd, count), n),
    decreases es.len(),
{
    if es.len() > 0 && es[0].0 != cmd {
        lemma_room_set(es.drop_first(), cmd, count, n);
        let s = set_count(es, cmd, count);
        assert forall|i: int| 0 <= i < s.len() implies #[trigger] s[i].1 + n <= usize::MAX by {
            if i > 0 {
                assert(s[i] == set_count(es.drop_first(), cmd, count)[i - 1]);
            }
        }
    } else if es.len() > 0 {
        let s = set_count(es, cmd, count);
        assert forall|i: int| 0 <= i < s.len() implies #[trigger] s[i].1 + n <= usize::MAX by {
            if i > 0 {
                assert(s[i] == es[i]);
            }
        }
    }
}

pub proof fn lemma_count_bounded(es: Seq<(Seq<char>, nat)>, cmd: Seq<char>, n: nat)
    requires
        room_for(es, n),
        n <= usize::MAX,
    ensures
        count_in(es, cmd) + n <= usize::MAX,
    decreases es.len(),
{
    if es.len() > 0 {
        assert(es[0].1 + n <= usize::MAX);
        if es[0].0 != cmd {
            assert forall|i: int| 0 <= i < es.drop_first().len() implies #[trigger] es.drop_first()[i].1 + n <= usize::MAX by {
                assert(es.drop_first()[i] == es[i + 1]);
            }
            lemma_count_bounded(es.drop_first(), cmd, n);
        }
    }
}

impl FailedCommandCounts {
    pub closed spec fn entries(&self) -> Seq<(Seq<char>, nat)> {
        entries_view_of(self.entries@)
    }

    /// No command has two entries.
    #[verifier::type_invariant]
    spec fn keys_are_unique(&self) -> bool {
        keys_unique(self.entries())
    }

    pub fn new() -> (r: FailedCommandCounts)
        ensures
            r.entries() == Seq::<(Seq<char>, nat)>::empty(),
    {
        let r = FailedCommandCounts { entries: Vec::new() };
        assert(r.entries() =~= Seq::<(Seq<char>, nat)>::empty());
        r
    }

    /// The position of `cmd`'s first entry.
    fn position(&self, cmd: &[char]) -> (r: Option<usize>)
        ensures
            match r {
                Some(j) => j < self.entries@.len() && self.entries()[j as int].0 == cmd@
                    && forall|t: int| 0 <= t < j ==> self.entries()[t].0 != cmd@,
                None => forall|t: int| 0 <= t < self.entries@.len() ==> self.entries()[t].0 != cmd@,
            },
    {
        let mut j: usize = 0;
        while j < self.entries.len()
            invariant
                j <= self.entries@.len(),
                forall|t: int| 0 <= t < j ==> self.entries()[t].0 != cmd@,
            decreases self.entries@.len() - j,
        {
            let key = chars_of(self.entries[j].0.as_str());
            if eq_chars(&key, cmd) {
                return Some(j);
            }
            j = j + 1;
        }
        None
    }

    proof fn lemma_position_spec(es: Seq<(Seq<char>, nat)>, cmd: Seq<char>, j: int, count: nat)
        requires
            0 <= j < es.len(),
            es[j].0 == cmd,
            forall|t: int| 0 <= t < j ==> es[t].0 != cmd,
        ensures
            count_in(es, cmd) == es[j].1,
            set_count(es, cmd, count) == es.update(j, (cmd, count)),
        decreases j,
    {
        if j > 0 {
            Self::lemma_position_spec(es.drop_first(), cmd, j - 1, count);
            assert(seq![es[0]] + es.drop_first().update(j - 1, (cmd, count)) =~= es.update(
                j,
                (cmd, count),
            ));
        } else {
            assert(seq![(cmd, count)] + es.drop_first() =~= es.update(0, (cmd, count)));
        }
    }

    proof fn lemma_absent_spec(es: Seq<(Seq<char>, nat)>, cmd: Seq<char>, count: nat)
        requires
            forall|t: int| 0 <= t < es.len() ==> es[t].0 != cmd,
        ensures
            count_in(es, cmd) == 0,
            set_count(es, cmd, count) == es.push((cmd, count)),
        decreases es.len(),
    {
        if es.len() > 0 {
            Self::lemma_absent_spec(es.drop_first(), cmd, count);
            assert(seq![es[0]] + es.drop_first().push((cmd, count)) =~= es.push((cmd, count)));
        } else {
            assert(seq![(cmd, count)] =~= es.push((cmd, count)));
        }
    }

    /// Sets the count of `cmd`, as inserting into a map does.
    pub fn insert(&mut self, cmd: String, count: usize)
        ensures
            final(self).entries() == set_count(old(self).entries(), cmd@, count as nat),
    {
        proof {
            use_type_invariant(&*self);
        }
        let key = chars_of(cmd.as_str());
        let ghost es = self.entries();
        proof {
            lemma_keys_unique_set(es, cmd@, count as nat);
        }
        let position = self.position(&key);
        let mut entries: Vec<(String, usize)> = Vec::new();
        std::mem::swap(&mut entries, &mut self.entries);
        assert(entries_view_of(entries@) == es);
        match position {
            Some(j) => {
                proof {
                    Self::lemma_position_spec(es, cmd@, j as int, count as nat);
                }
                let ghost item = (cmd@, count as nat);
                entries.set(j, (cmd, count));
                assert(entries_view_of(entries@) =~= es.update(j as int, item));
            },
            None => {
                proof {
                    Self::lemma_absent_spec(es, cmd@, count as nat);
                }
                let ghost item = (cmd@, count as nat);
                entries.push((cmd, count));
                assert(entries_view_of(entries@) =~= es.push(item));
            },
        }
        self.entries = entries;
    }

    /// How often `cmd` has failed.
    pub fn count(&self, cmd: &str) -> (r: usize)
        ensures
            r as nat == count_in(self.entries(), cmd@),
    {
        let key = chars_of(cmd);
        match self.position(&key) {
            Some(j) => {
                proof {
                    Self::lemma_position_spec(self.entries(), cmd@, j as int, 0);
                }
                self.entries[j].1
            },
            None => {
                proof {
                    Self::lemma_absent_spec(self.entries(), cmd@, 0);
                }
                0
            },
        }
    }

    /// The largest count recorded (0 when none).
    pub fn max_count(&self) -> (r: usize)
        ensures
            forall|i: int| 0 <= i < self.entries().len() ==> #[trigger] self.entries()[i].1 <= r,
    {
        let mut m: usize = 0;
        let mut i: usize = 0;
        while i < self.entries.len()
            invariant
                i <= self.entries@.len(),
                forall|t: int| 0 <= t < i ==> #[trigger] self.entries()[t].1 <= m,
            decreases self.entries@.len() - i,
        {
            if self.entries[i].1 > m {
                m = self.entries[i].1;
            }
            i = i + 1;
        }
        m
    }

    /// Whether every count leaves room for `n` more failures.
    pub fn has_room_for(&self, n: usize) -> (b: bool)
        ensures
            b == room_for(self.entries(), n as nat),
    {
        let mut i: usize = 0;
        while i < self.entries.len()
            invariant
                i <= self.entries@.len(),
                forall|t: int| 0 <= t < i ==> #[trigger] self.entries()[t].1 + n <= usize::MAX,
            decreases self.entries@.len() - i,
        {
            if self.entries[i].1 > usize::MAX - n {
                assert(self.entries()[i as int].1 + n > usize::MAX);
                return false;
            }
            i = i + 1;
        }
        true
    }

    /// Records one more failure of `cmd` and returns its new count.
    fn record(&mut self, cmd: String) -> (r: usize)
        requires
            room_for(old(self).entries(), 1),
        ensures
            final(self).entries() == record_failure(old(self).entries(), cmd@),
            r as nat == count_in(final(self).entries(), cmd@),
    {
        let c = self.count(cmd.as_str());
        proof {
            lemma_count_bounded(self.entries(), cmd@, 1);
        }
        let ghost cv = cmd@;
        self.insert(cmd, c + 1);
        proof {
            lemma_count_set(old(self).entries(), cv, (c + 1) as nat);
        }
        c + 1
    }
}

/// Counts the failed commands of a batch and, when a command has now failed twice or
/// more, returns guidance that names it with its count and warns that the turn stops
/// after `max_repeats` repeats.
pub fn repeated_failed_command_guidance(
    outcomes: &[ToolOutcome],
    failed_command_counts: &mut FailedCommandCounts,
    max_repeats: usize,
) -> (r: String)
    requires
        room_for(old(failed_command_counts).entries(), outcomes@.len() as nat),
    ensures
        final(failed_command_counts).entries() == after_failures(
            old(failed_command_counts).entries(),
            failed_commands(outcomes_view(outcomes@)),
        ),
        r@ == repeated_guidance_text(
            repeat_notes(
                old(failed_command_counts).entries(),
                failed_commands(outcomes_view(outcomes@)),
            ),
            max_repeats as nat,
        ),
{
    let ghost os = outcomes_view(outcomes@);
    let ghost es0 = failed_command_counts.entries();
    let mut notes: Vec<Vec<char>> = Vec::new();
    let mut i: usize = 0;
    let n = outcomes.len();
    assert(os.skip(0) =~= os);
    assert(seq_views(notes@) + repeat_notes(es0, failed_commands(os)) =~= repeat_notes(
        es0,
        failed_commands(os),
    ));
    while i < n
        invariant
            n == outcomes@.len(),
            i <= n,
            os == outcomes_view(outcomes@),
            room_for(failed_command_counts.entries(), (n - i) as nat),
            after_failures(es0, failed_commands(os)) == after_failures(
                failed_command_counts.entries(),
                failed_commands(os.skip(i as int)),
            ),
            repeat_notes(es0, failed_commands(os)) == seq_views(notes@) + repeat_notes(
                failed_command_counts.entries(),
                failed_commands(os.skip(i as int)),
            ),
        decreases n - i,
    {
        let ghost rest = os.skip(i as int);
        let ghost es = failed_command_counts.entries();
        assert(rest[0] == outcomes@[i as int]@);
        assert(rest.drop_first() =~= os.skip(i + 1));
        let o = &outcomes[i];
        match &o.command {
            Some(c) => {
                if !c.success {
                    let cmd_s = c.cmd.clone();
                    assert(room_for(es, 1)) by {
                        assert forall|t: int| 0 <= t < es.len() implies #[trigger] es[t].1 + 1
                            <= usize::MAX by {
                            assert(es[t].1 + (n - i) <= usize::MAX);
                        }
                    }
                    proof {
                        lemma_count_bounded(es, cmd_s@, (n - i) as nat);
                        lemma_room_set(es, cmd_s@, count_in(es, cmd_s@) + 1, (n - i - 1) as nat);
                        assert(failed_commands(rest) =~= seq![cmd_s@] + failed_commands(
                            os.skip(i + 1),
                        ));
                        assert((seq![cmd_s@] + failed_commands(os.skip(i + 1))).drop_first()
                            =~= failed_commands(os.skip(i + 1)));
                        assert(room_for(es, (n - i - 1) as nat)) by {
                            assert forall|t: int| 0 <= t < es.len() implies #[trigger] es[t].1
                                + (n - i - 1) <= usize::MAX by {
                                assert(es[t].1 + (n - i) <= usize::MAX);
                            }
                        }
                        lemma_room_set(es, cmd_s@, count_in(es, cmd_s@) + 1, (n - i - 1) as nat);
                    }
                    let count = failed_command_counts.record(cmd_s);
                    let ghost before = seq_views(notes@);
                    if count >= 2 {
                        let mut note = chars_of("`");
                        push_str(&mut note, c.cmd.as_str());
                        push_str(&mut note, "` failed ");
                        let mut digits = decimal_chars(count);
                        note.append(&mut digits);
                        push_str(&mut note, " times");
                        let ghost nv = note@;
                        notes.push(note);
                        assert(seq_views(notes@) =~= before.push(nv));
                        assert(before + (seq![nv] + repeat_notes(
                            failed_command_counts.entries(),
                            failed_commands(os.skip(i + 1)),
                        )) =~= seq_views(notes@) + repeat_notes(
                            failed_command_counts.entries(),
                            failed_commands(os.skip(i + 1)),
                        ));
                    }
                } else {
                    assert(failed_commands(rest) =~= failed_commands(os.skip(i + 1)));
                    assert(room_for(es, (n - i - 1) as nat)) by {
                        assert forall|t: int| 0 <= t < es.len() implies #[trigger] es[t].1 + (n
                            - i - 1) <= usize::MAX by {
                            assert(es[t].1 + (n - i) <= usize::MAX);
                        }
                    }
                }
            },
            None => {
                assert(failed_commands(rest) =~= failed_commands(os.skip(i + 1)));
                assert(room_for(es, (n - i - 1) as nat)) by {
                    assert forall|t: int| 0 <= t < es.len() implies #[trigger] es[t].1 + (n - i
                        - 1) <= usize::MAX by {
                        assert(es[t].1 + (n - i) <= usize::MAX);
                    }
                }
            },
        }
        i = i + 1;
    }
    assert(failed_commands(os.skip(i as int)) =~= Seq::<Seq<char>>::empty()) by {
        assert(os.skip(i as int).len() == 0);
    }
    assert(seq_views(notes@) + Seq::<Seq<char>>::empty() =~= seq_views(notes@));
    if notes.len() == 0 {
        return String::new();
    }
    let mut v = chars_of("\n\nRepeated failure guidance:\n- Do not repeat the same failed command. ");
    let mut joined = join_chars(&notes, &chars_of("; "));
    v.append(&mut joined);
    push_str(
        &mut v,
        "\n- Fix the root cause first by reading or patching the relevant file, then run a different validation command. The turn will stop after ",
    );
    let mut digits = decimal_chars(max_repeats);
    v.append(&mut digits);
    push_str(&mut v, " repeats of the same failed command.");
    string_of(&v)
}

/// The first command, in order of first failure, that failed at least `max_repeats` times
/// (so its count has reached the limit).
pub fn repeated_failed_command_to_stop(
    failed_command_counts: &FailedCommandCounts,
    max_repeats: usize,
) -> (r: Option<String>)
    ensures
        match r {
            Some(c) => {
                &&& first_at_limit(failed_command_counts.entries(), max_repeats as nat) == Some(c@)
                &&& count_in(failed_command_counts.entries(), c@) >= max_repeats
            },
            None => first_at_limit(failed_command_counts.entries(), max_repeats as nat) is None,
        },
{
    proof {
        use_type_invariant(failed_command_counts);
        if first_at_limit(failed_command_counts.entries(), max_repeats as nat) is Some {
            lemma_first_at_limit_some(failed_command_counts.entries(), max_repeats as nat);
        }
    }
    failed_command_counts.first_at_limit(max_repeats)
}

impl FailedCommandCounts {
    fn first_at_limit(&self, max: usize) -> (r: Option<String>)
        ensures
            match r {
                Some(c) => first_at_limit(self.entries(), max as nat) == Some(c@),
                None => first_at_limit(self.entries(), max as nat) is None,
            },
    {
        let ghost es = self.entries();
        let mut i: usize = 0;
        assert(es.skip(0) =~= es);
        while i < self.entries.len()
            invariant
                i <= self.entries@.len(),
                es == self.entries(),
                first_at_limit(es, max as nat) == first_at_limit(es.skip(i as int), max as nat),
            decreases self.entries@.len() - i,
        {
            assert(es.skip(i as int)[0] == es[i as int]);
            assert(es.skip(i as int).drop_first() =~= es.skip(i + 1));
            if self.entries[i].1 >= max {
                return Some(self.entries[i].0.clone());
            }
            i = i + 1;
        }
        None
    }
}

/// How many times `c` occurs among the failed commands `cmds`.
pub open spec fn times_failed(cmds: Seq<Seq<char>>, c: Seq<char>) -> nat
    decreases cmds.len(),
{
    if cmds.len() == 0 {
        0
    } else {
        (if cmds[0] == c {
            1nat
        } else {
            0nat
        }) + times_failed(cmds.drop_first(), c)
    }
}

/// No command has two entries.
pub open spec fn keys_unique(es: Seq<(Seq<char>, nat)>) -> bool {
    forall|i: int, j: int| 0 <= i < j < es.len() ==> #[trigger] es[i].0 != #[trigger] es[j].0
}

proof fn lemma_count_set_other(es: Seq<(Seq<char>, nat)>, cmd: Seq<char>, count: nat, c: Seq<char>)
    requires
        c != cmd,
    ensures
        count_in(set_count(es, cmd, count), c) == count_in(es, c),
    decreases es.len(),
{
    let s = set_count(es, cmd, count);
    if es.len() == 0 {
        assert(s[0].0 == cmd);
        assert(s.drop_first() =~= Seq::<(Seq<char>, nat)>::empty());
        assert(count_in(s, c) == count_in(s.drop_first(), c));
        assert(count_in(s, c) == count_in(es, c));
    } else if es[0].0 != cmd {
        lemma_count_set_other(es.drop_first(), cmd, count, c);
        assert(s[0] == es[0]);
        assert(s.drop_first() =~= set_count(es.drop_first(), cmd, count));
        assert(count_in(s, c) == count_in(es, c));
    } else {
        assert(s[0].0 == cmd);
        assert(s.drop_first() =~= es.drop_first());
        assert(count_in(s, c) == count_in(es, c));
    }
}

proof fn lemma_keys_unique_set(es: Seq<(Seq<char>, nat)>, cmd: Seq<char>, count: nat)
    requires
        keys_unique(es),
    ensures
        keys_unique(set_count(es, cmd, count)),
        forall|i: int| 0 <= i < set_count(es, cmd, count).len() ==> (#[trigger] set_count(es, cmd, count)[i].0 == cmd || exists|j: int| 0 <= j < es.len() && es[j].0 == set_count(es, cmd, count)[i].0),
    decreases es.len(),
{
    let s = set_count(es, cmd, count);
    if es.len() == 0 {
    } else if es[0].0 == cmd {
        assert(s =~= seq![(cmd, count)] + es.drop_first());
        assert forall|i: int| 0 <= i < s.len() implies (#[trigger] s[i].0 == cmd || exists|j: int| 0 <= j < es.len() && es[j].0 == s[i].0) by {
            if i > 0 {
                assert(s[i] == es[i]);
            }
        }
        assert forall|i: int, j: int| 0 <= i < j < s.len() implies #[trigger] s[i].0 != #[trigger] s[j].0 by {
            assert(s[j] == es[j]);
            if i > 0 {
                assert(s[i] == es[i]);
            }
        }
    } else {
        let t = set_count(es.drop_first(), cmd, count);
        assert(keys_unique(es.drop_first())) by {
            assert forall|i: int, j: int| 0 <= i < j < es.drop_first().len() implies #[trigger] es.drop_first()[i].0 != #[trigger] es.drop_first()[j].0 by {
                assert(es.drop_first()[i] == es[i + 1]);
                assert(es.drop_first()[j] == es[j + 1]);
            }
        }
        lemma_keys_unique_set(es.drop_first(), cmd, count);
        assert(s =~= seq![es[0]] + t);
        assert forall|i: int| 0 <= i < s.len() implies (#[trigger] s[i].0 == cmd || exists|j: int| 0 <= j < es.len() && es[j].0 == s[i].0) by {
            if i > 0 {
                assert(s[i] == t[i - 1]);
                if t[i - 1].0 != cmd {
                    let j = choose|j: int| 0 <= j < es.drop_first().len() && es.drop_first()[j].0 == t[i - 1].0;
                    assert(es[j + 1] == es.drop_first()[j]);
                }
            } else {
                assert(es[0].0 == s[0].0);
            }
        }
        assert forall|i: int, j: int| 0 <= i < j < s.len() implies #[trigger] s[i].0 != #[trigger] s[j].0 by {
            assert(s[j] == t[j - 1]);
            if i > 0 {
                assert(s[i] == t[i - 1]);
            } else {
                if t[j - 1].0 == cmd {
                } else {
                    let k = choose|k: int| 0 <= k < es.drop_first().len() && es.drop_first()[k].0 == t[j - 1].0;
                    assert(es[k + 1] == es.drop_first()[k]);
                }
            }
        }
    }
}

proof fn lemma_after_failures_facts(es: Seq<(Seq<char>, nat)>, cmds: Seq<Seq<char>>, c: Seq<char>)
    requires
        keys_unique(es),
    ensures
        keys_unique(after_failures(es, cmds)),
        count_in(after_failures(es, cmds), c) == count_in(es, c) + times_failed(cmds, c),
    decreases cmds.len(),
{
    if cmds.len() > 0 {
        let x = cmds[0];
        lemma_keys_unique_set(es, x, count_in(es, x) + 1);
        if x == c {
            lemma_count_set(es, x, count_in(es, x) + 1);
        } else {
            lemma_count_set_other(es, x, count_in(es, x) + 1, c);
        }
        lemma_after_failures_facts(record_failure(es, x), cmds.drop_first(), c);
    }
}

proof fn lemma_first_at_limit_some(es: Seq<(Seq<char>, nat)>, max: nat)
    requires
        keys_unique(es),
        first_at_limit(es, max) is Some,
    ensures
        count_in(es, first_at_limit(es, max)->0) >= max,
    decreases es.len(),
{
    if es[0].1 < max {
        assert(keys_unique(es.drop_first())) by {
            assert forall|i: int, j: int| 0 <= i < j < es.drop_first().len() implies #[trigger] es.drop_first()[i].0 != #[trigger] es.drop_first()[j].0 by {
                assert(es.drop_first()[i] == es[i + 1]);
                assert(es.drop_first()[j] == es[j + 1]);
            }
        }
        lemma_first_at_limit_some(es.drop_first(), max);
        let c = first_at_limit(es, max)->0;
        lemma_first_at_limit_member(es.drop_first(), max);
        let k = choose|k: int| 0 <= k < es.drop_first().len() && es.drop_first()[k].0 == c;
        assert(es[k + 1].0 == c);
        assert(es[0].0 != es[k + 1].0);
    }
}

proof fn lemma_first_at_limit_member(es: Seq<(Seq<char>, nat)>, max: nat)
    requires
        first_at_limit(es, max) is Some,
    ensures
        exists|k: int| 0 <= k < es.len() && es[k].0 == first_at_limit(es, max)->0,
    decreases es.len(),
{
    if es[0].1 >= max {
        assert(es[0].0 == first_at_limit(es, max)->0);
    } else {
        lemma_first_at_limit_member(es.drop_first(), max);
        let k = choose|k: int| 0 <= k < es.drop_first().len() && es.drop_first()[k].0 == first_at_limit(es.drop_first(), max)->0;
        assert(es[k + 1] == es.drop_first()[k]);
    }
}

proof fn lemma_first_at_limit_none(es: Seq<(Seq<char>, nat)>, max: nat, c: Seq<char>)
    requires
        max >= 1,
        first_at_limit(es, max) is None,
    ensures
        count_in(es, c) < max,
    decreases es.len(),
{
    if es.len() > 0 {
        lemma_first_at_limit_none(es.drop_first(), max, c);
    }
}

/// Counting from no failures, each command's count is the number of times it failed,
/// and the turn stops at a command exactly when some command has failed `max` times:
/// the command it stops at has.
pub proof fn lemma_stop_at_limit(cmds: Seq<Seq<char>>, max: nat)
    requires
        max >= 1,
    ensures
        forall|c: Seq<char>|
            count_in(after_failures(Seq::empty(), cmds), c) == #[trigger] times_failed(cmds, c),
        match first_at_limit(after_failures(Seq::empty(), cmds), max) {
            Some(c) => times_failed(cmds, c) >= max,
            None => forall|c: Seq<char>| #[trigger] times_failed(cmds, c) < max,
        },
{
    let e = Seq::<(Seq<char>, nat)>::empty();
    let es = after_failures(e, cmds);
    assert forall|c: Seq<char>| count_in(es, c) == #[trigger] times_failed(cmds, c) by {
        lemma_after_failures_facts(e, cmds, c);
    }
    lemma_after_failures_facts(e, cmds, Seq::empty());
    match first_at_limit(es, max) {
        Some(c) => {
            lemma_first_at_limit_some(es, max);
        },
        None => {
            assert forall|c: Seq<char>| #[trigger] times_failed(cmds, c) < max by {
                lemma_first_at_limit_none(es, max, c);
            }
        },
    }
}

/// Counting the failures of two batches one after the other is counting the failures
/// of both at once.
pub proof fn lemma_after_failures_append(
    es: Seq<(Seq<char>, nat)>,
    a: Seq<Seq<char>>,
    b: Seq<Seq<char>>,
)
    ensures
        after_failures(es, a + b) == after_failures(after_failures(es, a), b),
    decreases a.len(),
{
    if a.len() > 0 {
        assert((a + b).drop_first() =~= a.drop_first() + b);
        assert((a + b)[0] == a[0]);
        lemma_after_failures_append(record_failure(es, a[0]), a.drop_first(), b);
    } else {
        assert(a + b =~= b);
    }
}

/// Starting from any counts, a command's count after a run of failures is its count
/// before plus the number of times it failed in the run; in particular a command that
/// did not fail keeps its count.
pub proof fn lemma_counts_after_failures(es: Seq<(Seq<char>, nat)>, cmds: Seq<Seq<char>>, c: Seq<char>)
    ensures
        count_in(after_failures(es, cmds), c) == count_in(es, c) + times_failed(cmds, c),
    decreases cmds.len(),
{
    if cmds.len() > 0 {
        let x = cmds[0];
        if x == c {
            lemma_count_set(es, x, count_in(es, x) + 1);
        } else {
            lemma_count_set_other(es, x, count_in(es, x) + 1, c);
        }
        lemma_counts_after_failures(record_failure(es, x), cmds.drop_first(), c);
    }
}

proof fn lemma_times_failed_member(cmds: Seq<Seq<char>>, c: Seq<char>)
    requires
        times_failed(cmds, c) > 0,
    ensures
        exists|j: int| 0 <= j < cmds.len() && cmds[j] == c,
    decreases cmds.len(),
{
    if cmds[0] != c {
        lemma_times_failed_member(cmds.drop_first(), c);
        let j = choose|j: int| 0 <= j < cmds.drop_first().len() && cmds.drop_first()[j] == c;
        assert(cmds[j + 1] == c);
    }
}

/// The repeated-failure guidance of a run of failures, starting from any counts, is
/// empty exactly when every command that failed in the run ends below two failures;
/// and every command that ends at two or more has a note with its final count.
pub proof fn lemma_repeat_notes(es: Seq<(Seq<char>, nat)>, cmds: Seq<Seq<char>>, max_repeats: nat)
    ensures
        (repeated_guidance_text(repeat_notes(es, cmds), max_repeats).len() == 0)
            <==> (forall|i: int|
            0 <= i < cmds.len() ==> count_in(after_failures(es, cmds), #[trigger] cmds[i]) < 2),
        forall|i: int|
            0 <= i < cmds.len() && count_in(after_failures(es, cmds), #[trigger] cmds[i]) >= 2
                ==> repeat_notes(es, cmds).contains(
                repeat_note(cmds[i], count_in(after_failures(es, cmds), cmds[i])),
            ),
    decreases cmds.len(),
{
    reveal_strlit("\n\nRepeated failure guidance:\n- Do not repeat the same failed command. ");
    let notes = repeat_notes(es, cmds);
    let fin = after_failures(es, cmds);
    if cmds.len() == 0 {
    } else {
        let x = cmds[0];
        let es1 = record_failure(es, x);
        let rest = cmds.drop_first();
        let c1 = count_in(es1, x);
        lemma_repeat_notes(es1, rest, max_repeats);
        let rnotes = repeat_notes(es1, rest);
        assert(fin == after_failures(es1, rest));
        lemma_counts_after_failures(es1, rest, x);
        // notes == (if c1 >= 2 { [note] } else { [] }) + rnotes
        assert forall|i: int|
            0 <= i < cmds.len() && count_in(fin, #[trigger] cmds[i]) >= 2 implies notes.contains(
            repeat_note(cmds[i], count_in(fin, cmds[i])),
        ) by {
            let c = cmds[i];
            lemma_counts_after_failures(es1, rest, c);
            if times_failed(rest, c) > 0 {
                lemma_times_failed_member(rest, c);
                let j = choose|j: int| 0 <= j < rest.len() && rest[j] == c;
                assert(rest[j] == c);
                assert(count_in(fin, rest[j]) >= 2);
                let k = choose|k: int|
                    0 <= k < rnotes.len() && rnotes[k] == repeat_note(
                        rest[j],
                        count_in(fin, rest[j]),
                    );
                if c1 >= 2 {
                    assert(notes[k + 1] == rnotes[k]);
                } else {
                    assert(notes[k] == rnotes[k]);
                }
            } else {
                if i > 0 {
                    assert(rest[i - 1] == c);
                    assert(times_failed(rest, c) > 0) by {
                        lemma_times_failed_positive(rest, i - 1);
                    }
                }
                assert(c == x);
                assert(notes[0] == repeat_note(x, c1));
            }
        }
        if notes.len() == 0 {
            assert(c1 < 2);
            assert(rnotes.len() == 0);
            assert forall|i: int| 0 <= i < cmds.len() implies count_in(fin, #[trigger] cmds[i]) < 2 by {
                if i > 0 {
                    assert(rest[i - 1] == cmds[i]);
                } else {
                    if times_failed(rest, x) > 0 {
                        lemma_times_failed_member(rest, x);
                        let j = choose|j: int| 0 <= j < rest.len() && rest[j] == x;
                        assert(count_in(fin, rest[j]) < 2);
                    }
                }
            }
        } else {
            if c1 >= 2 {
                assert(count_in(fin, cmds[0]) >= 2);
            } else {
                assert(rnotes.len() > 0);
                let i = choose|i: int| 0 <= i < rest.len() && count_in(fin, #[trigger] rest[i]) >= 2;
                assert(cmds[i + 1] == rest[i]);
            }
        }
    }
}

proof fn lemma_times_failed_positive(cmds: Seq<Seq<char>>, j: int)
    requires
        0 <= j < cmds.len(),
    ensures
        times_failed(cmds, cmds[j]) > 0,
    decreases j,
{
    if j > 0 {
        lemma_times_failed_positive(cmds.drop_first(), j - 1);
        assert(cmds.drop_first()[j - 1] == cmds[j]);
    }
}

} // verus!
