//! Which steps a task has walked, read from its journal.
//!
//! A journal entry names a step. An entry whose step carries a suffix after a
//! `·` (`甲·审` for a review, `甲·判` for a machine check) votes on that step's
//! verdict, which holds while each vote agrees. An entry without a suffix is
//! the step walked again, and its verdict starts afresh from that entry.
//! Entries naming a step the workflow does not have count for nothing.

use super::journal::{JournalEvent, JournalEventModel};
use super::model::{Task, TaskModel, journal_model};
use crate::text::{chars_of, decimal, decimal_chars, find_from, first_at, push_str, same_chars, slice_of, string_of};
use crate::workflow::model::{Workflow, WorkflowModel, names_of};
use vstd::prelude::*;

verus! {

/// The step a journal entry speaks of — its name up to the first `·` — and
/// whether a suffix followed.
pub open spec fn step_of(entry: Seq<char>) -> (Seq<char>, bool) {
    match first_at(entry, seq!['·'], 0) {
        Some(i) => (entry.take(i), true),
        None => (entry, false),
    }
}

/// The index of the first verdict on `step`.
pub open spec fn verdict_at(v: Seq<(Seq<char>, bool)>, step: Seq<char>) -> Option<int>
    decreases v.len(),
{
    if v.len() == 0 {
        None
    } else {
        match verdict_at(v.drop_last(), step) {
            Some(k) => Some(k),
            None => if v.last().0 == step {
                Some(v.len() - 1)
            } else {
                None
            },
        }
    }
}

/// The verdicts after one more journal entry: a step outside the workflow
/// changes nothing; a suffixed entry votes on the step's verdict; a plain
/// entry replaces it; a step met for the first time gets the entry's `ok`.
pub open spec fn vote(
    v: Seq<(Seq<char>, bool)>,
    names: Seq<Seq<char>>,
    e: JournalEventModel,
) -> Seq<(Seq<char>, bool)> {
    let (step, suffixed) = step_of(e.step);
    if !names.contains(step) {
        v
    } else {
        match verdict_at(v, step) {
            Some(k) => v.update(
                k,
                (
                    step,
                    if suffixed {
                        v[k].1 && e.ok
                    } else {
                        e.ok
                    },
                ),
            ),
            None => v.push((step, e.ok)),
        }
    }
}

/// The verdict on each step of `names` the journal speaks of, in the order
/// the steps were first met.
pub open spec fn verdicts(names: Seq<Seq<char>>, journal: Seq<JournalEventModel>) -> Seq<
    (Seq<char>, bool),
>
    decreases journal.len(),
{
    if journal.len() == 0 {
        Seq::empty()
    } else {
        vote(verdicts(names, journal.drop_last()), names, journal.last())
    }
}

/// The names whose verdict passed, in order.
pub open spec fn passed(v: Seq<(Seq<char>, bool)>) -> Seq<Seq<char>>
    decreases v.len(),
{
    if v.len() == 0 {
        Seq::empty()
    } else {
        passed(v.drop_last()) + if v.last().1 {
            seq![v.last().0]
        } else {
            Seq::empty()
        }
    }
}

/// The steps of `names` the journal has walked, in the order first met.
pub open spec fn walked(names: Seq<Seq<char>>, journal: Seq<JournalEventModel>) -> Seq<Seq<char>> {
    passed(verdicts(names, journal))
}

/// The first of `names` not in `done`.
pub open spec fn first_not_in(names: Seq<Seq<char>>, done: Seq<Seq<char>>) -> Option<Seq<char>>
    decreases names.len(),
{
    if names.len() == 0 {
        None
    } else if !done.contains(names[0]) {
        Some(names[0])
    } else {
        first_not_in(names.drop_first(), done)
    }
}

/// The first step of the workflow, in definition order, that the task has
/// not walked.
pub open spec fn next_of(t: TaskModel, w: WorkflowModel) -> Option<Seq<char>> {
    let names = names_of(w.steps);
    first_not_in(names, walked(names, t.journal))
}

/// The line that tells where the task stands when the workflow has steps:
/// the next step, or that all of them were walked.
pub open spec fn progress_line(t: TaskModel, w: WorkflowModel) -> Seq<char> {
    match next_of(t, w) {
        Some(s) => "下一步："@ + s,
        None => decimal(w.steps.len()) + " 个步骤都走过了"@,
    }
}

/// The state line of a task on a workflow; a workflow without steps is named
/// by the task's `workflow` field with where to write its steps.
pub open spec fn state_of(t: TaskModel, w: WorkflowModel) -> Seq<char> {
    if w.steps.len() == 0 {
        "这条工作流没有步骤——在 workflows/"@ + t.workflow_name + ".yaml 的 steps 里写步骤"@
    } else {
        progress_line(t, w)
    }
}

/// No two verdicts name the same step.
pub open spec fn distinct_steps(v: Seq<(Seq<char>, bool)>) -> bool {
    forall|i: int, j: int| 0 <= i < j < v.len() ==> #[trigger] v[i].0 != #[trigger] v[j].0
}

/// No name occurs twice.
pub open spec fn no_repeats(s: Seq<Seq<char>>) -> bool {
    forall|i: int, j: int| 0 <= i < j < s.len() ==> #[trigger] s[i] != #[trigger] s[j]
}

/// Where `verdict_at` points, and that nothing before it names the step.
pub proof fn lemma_verdict_at(v: Seq<(Seq<char>, bool)>, step: Seq<char>)
    ensures
        match verdict_at(v, step) {
            Some(k) => 0 <= k < v.len() && v[k].0 == step && forall|j: int|
                0 <= j < k ==> #[trigger] v[j].0 != step,
            None => forall|j: int| 0 <= j < v.len() ==> #[trigger] v[j].0 != step,
        },
    decreases v.len(),
{
    if v.len() > 0 {
        let d = v.drop_last();
        lemma_verdict_at(d, step);
        match verdict_at(d, step) {
            Some(k) => {
                assert(v[k] == d[k]);
                assert forall|j: int| 0 <= j < k implies #[trigger] v[j].0 != step by {
                    assert(v[j] == d[j]);
                }
            },
            None => {
                assert forall|j: int| 0 <= j < v.len() - 1 implies #[trigger] v[j].0 != step by {
                    assert(v[j] == d[j]);
                }
            },
        }
    }
}

/// A name is among the passed ones exactly when some verdict on it passed.
pub proof fn lemma_passed_contains(v: Seq<(Seq<char>, bool)>, s: Seq<char>)
    ensures
        passed(v).contains(s) <==> exists|k: int| 0 <= k < v.len() && #[trigger] v[k].0 == s && v[k].1,
    decreases v.len(),
{
    if v.len() > 0 {
        let d = v.drop_last();
        lemma_passed_contains(d, s);
        let tail: Seq<Seq<char>> = if v.last().1 {
            seq![v.last().0]
        } else {
            Seq::empty()
        };
        assert(passed(v) == passed(d) + tail);
        if passed(v).contains(s) {
            let i = choose|i: int| 0 <= i < passed(v).len() && passed(v)[i] == s;
            if i < passed(d).len() {
                assert(passed(d)[i] == s);
                let k = choose|k: int| 0 <= k < d.len() && #[trigger] d[k].0 == s && d[k].1;
                assert(v[k] == d[k]);
            } else {
                assert(v[v.len() - 1].0 == s && v[v.len() - 1].1);
            }
        }
        if exists|k: int| 0 <= k < v.len() && #[trigger] v[k].0 == s && v[k].1 {
            let k = choose|k: int| 0 <= k < v.len() && #[trigger] v[k].0 == s && v[k].1;
            if k < v.len() - 1 {
                assert(d[k] == v[k]);
                let i = choose|i: int| 0 <= i < passed(d).len() && passed(d)[i] == s;
                assert((passed(d) + tail)[i] == s);
            } else {
                assert((passed(d) + tail)[passed(d).len() as int] == s);
            }
        }
    }
}

/// The passed names of distinct verdicts are distinct.
pub proof fn lemma_passed_no_repeats(v: Seq<(Seq<char>, bool)>)
    requires
        distinct_steps(v),
    ensures
        no_repeats(passed(v)),
    decreases v.len(),
{
    if v.len() > 0 {
        let d = v.drop_last();
        assert(distinct_steps(d)) by {
            assert forall|i: int, j: int| 0 <= i < j < d.len() implies #[trigger] d[i].0
                != #[trigger] d[j].0 by {
                assert(d[i] == v[i] && d[j] == v[j]);
            }
        }
        lemma_passed_no_repeats(d);
        if v.last().1 {
            let p = passed(d);
            let q = passed(v);
            assert(q == p.push(v.last().0));
            lemma_passed_contains(d, v.last().0);
            if p.contains(v.last().0) {
                let k = choose|k: int| 0 <= k < d.len() && #[trigger] d[k].0 == v.last().0 && d[k].1;
                assert(v[k] == d[k]);
                assert(v[k].0 != v[v.len() - 1].0);
            }
            assert forall|i: int, j: int| 0 <= i < j < q.len() implies #[trigger] q[i]
                != #[trigger] q[j] by {
                if j == q.len() - 1 {
                    assert(q[i] == p[i]);
                    assert(p.contains(p[i]));
                } else {
                    assert(q[i] == p[i] && q[j] == p[j]);
                }
            }
        } else {
            assert(passed(v) =~= passed(d));
        }
    }
}

/// Every verdict names a step of `names`, and no step twice.
pub proof fn lemma_verdicts_shape(names: Seq<Seq<char>>, journal: Seq<JournalEventModel>)
    ensures
        distinct_steps(verdicts(names, journal)),
        forall|k: int|
            0 <= k < verdicts(names, journal).len() ==> names.contains(
                #[trigger] verdicts(names, journal)[k].0,
            ),
    decreases journal.len(),
{
    if journal.len() > 0 {
        let v = verdicts(names, journal.drop_last());
        lemma_verdicts_shape(names, journal.drop_last());
        let e = journal.last();
        let (step, suffixed) = step_of(e.step);
        lemma_verdict_at(v, step);
        let w = verdicts(names, journal);
        assert(w == vote(v, names, e));
        if names.contains(step) {
            match verdict_at(v, step) {
                Some(k) => {
                    assert forall|i: int, j: int| 0 <= i < j < w.len() implies #[trigger] w[i].0
                        != #[trigger] w[j].0 by {
                        if i == k {
                            assert(w[j] == v[j]);
                        } else if j == k {
                            assert(w[i] == v[i]);
                        } else {
                            assert(w[i] == v[i] && w[j] == v[j]);
                        }
                    }
                    assert forall|i: int| 0 <= i < w.len() implies names.contains(
                        #[trigger] w[i].0,
                    ) by {
                        if i != k {
                            assert(w[i] == v[i]);
                        }
                    }
                },
                None => {
                    assert forall|i: int, j: int| 0 <= i < j < w.len() implies #[trigger] w[i].0
                        != #[trigger] w[j].0 by {
                        assert(w[i] == v[i]);
                        if j < v.len() {
                            assert(w[j] == v[j]);
                        }
                    }
                    assert forall|i: int| 0 <= i < w.len() implies names.contains(
                        #[trigger] w[i].0,
                    ) by {
                        if i < v.len() {
                            assert(w[i] == v[i]);
                        }
                    }
                },
            }
        }
    }
}

/// Whether a step has passed, read off distinct verdicts: the verdict on it,
/// or not passed when there is none.
pub proof fn lemma_passed_at(v: Seq<(Seq<char>, bool)>, s: Seq<char>)
    requires
        distinct_steps(v),
    ensures
        passed(v).contains(s) == match verdict_at(v, s) {
            Some(k) => v[k].1,
            None => false,
        },
{
    lemma_passed_contains(v, s);
    lemma_verdict_at(v, s);
    match verdict_at(v, s) {
        Some(k) => {
            if passed(v).contains(s) {
                let j = choose|j: int| 0 <= j < v.len() && #[trigger] v[j].0 == s && v[j].1;
                if j != k {
                    if j < k {
                        assert(v[j].0 != v[k].0);
                    } else {
                        assert(v[k].0 != v[j].0);
                    }
                }
            } else {
                assert(!(v[k].0 == s && v[k].1));
            }
        },
        None => {},
    }
}

/// What one more entry does to whether a step has passed: only the step the
/// entry names, and only when the workflow has it, is touched; a plain entry
/// sets it to the entry's `ok`, a vote keeps it only when the vote passes,
/// and a step met for the first time takes the entry's `ok`.
pub proof fn lemma_vote_passed(
    v: Seq<(Seq<char>, bool)>,
    names: Seq<Seq<char>>,
    e: JournalEventModel,
    t: Seq<char>,
)
    requires
        distinct_steps(v),
    ensures
        passed(vote(v, names, e)).contains(t) == if names.contains(step_of(e.step).0) && t
            == step_of(e.step).0 {
            match verdict_at(v, t) {
                Some(k) => if step_of(e.step).1 {
                    v[k].1 && e.ok
                } else {
                    e.ok
                },
                None => e.ok,
            }
        } else {
            passed(v).contains(t)
        },
{
    let (s, suffixed) = step_of(e.step);
    let w = vote(v, names, e);
    lemma_verdict_at(v, s);
    lemma_passed_contains(v, t);
    lemma_passed_contains(w, t);
    if names.contains(s) {
        match verdict_at(v, s) {
            Some(k) => {
                assert(distinct_steps(w)) by {
                    assert forall|i: int, j: int| 0 <= i < j < w.len() implies #[trigger] w[i].0
                        != #[trigger] w[j].0 by {
                        if i == k {
                            assert(w[j] == v[j]);
                        } else if j == k {
                            assert(w[i] == v[i]);
                        } else {
                            assert(w[i] == v[i] && w[j] == v[j]);
                        }
                    }
                }
                if t == s {
                    lemma_passed_at(w, s);
                    lemma_verdict_at(w, s);
                    assert(w[k].0 == s);
                    assert(verdict_at(w, s) == Some(k)) by {
                        match verdict_at(w, s) {
                            Some(j) => {
                                if j < k {
                                    assert(w[j] == v[j]);
                                } else if j > k {
                                    assert(w[k].0 != s);
                                }
                            },
                            None => {},
                        }
                    }
                } else {
                    if exists|j: int| 0 <= j < w.len() && #[trigger] w[j].0 == t && w[j].1 {
                        let j = choose|j: int| 0 <= j < w.len() && #[trigger] w[j].0 == t && w[j].1;
                        assert(w[j] == v[j]);
                    }
                    if exists|j: int| 0 <= j < v.len() && #[trigger] v[j].0 == t && v[j].1 {
                        let j = choose|j: int| 0 <= j < v.len() && #[trigger] v[j].0 == t && v[j].1;
                        assert(w[j] == v[j]);
                    }
                }
            },
            None => {
                if t == s {
                    assert(w[v.len() as int].0 == s);
                    if exists|j: int| 0 <= j < w.len() && #[trigger] w[j].0 == t && w[j].1 {
                        let j = choose|j: int| 0 <= j < w.len() && #[trigger] w[j].0 == t && w[j].1;
                        if j < v.len() {
                            assert(w[j] == v[j]);
                        }
                    }
                } else {
                    if exists|j: int| 0 <= j < w.len() && #[trigger] w[j].0 == t && w[j].1 {
                        let j = choose|j: int| 0 <= j < w.len() && #[trigger] w[j].0 == t && w[j].1;
                        assert(j < v.len());
                        assert(w[j] == v[j]);
                    }
                    if exists|j: int| 0 <= j < v.len() && #[trigger] v[j].0 == t && v[j].1 {
                        let j = choose|j: int| 0 <= j < v.len() && #[trigger] v[j].0 == t && v[j].1;
                        assert(w[j] == v[j]);
                    }
                }
            },
        }
    }
}

/// Some entry of the journal names `s`.
pub open spec fn speaks_of(journal: Seq<JournalEventModel>, s: Seq<char>) -> bool {
    exists|i: int| 0 <= i < journal.len() && step_of(#[trigger] journal[i].step).0 == s
}

/// A step of the workflow has a verdict exactly when some entry names it.
pub proof fn lemma_verdict_when_spoken_of(
    names: Seq<Seq<char>>,
    journal: Seq<JournalEventModel>,
    s: Seq<char>,
)
    requires
        names.contains(s),
    ensures
        verdict_at(verdicts(names, journal), s) is Some <==> speaks_of(journal, s),
    decreases journal.len(),
{
    if journal.len() > 0 {
        let d = journal.drop_last();
        let e = journal.last();
        lemma_verdict_when_spoken_of(names, d, s);
        let v = verdicts(names, d);
        let w = verdicts(names, journal);
        let step = step_of(e.step).0;
        lemma_verdict_at(v, s);
        lemma_verdict_at(w, s);
        lemma_verdict_at(v, step);
        if speaks_of(d, s) {
            let i = choose|i: int| 0 <= i < d.len() && step_of(#[trigger] d[i].step).0 == s;
            assert(journal[i] == d[i]);
        }
        if speaks_of(journal, s) && !speaks_of(d, s) {
            let i = choose|i: int| 0 <= i < journal.len() && step_of(#[trigger] journal[i].step).0
                == s;
            if i < d.len() {
                assert(journal[i] == d[i]);
            }
        }
        match verdict_at(v, s) {
            Some(k) => {
                if names.contains(step) {
                    match verdict_at(v, step) {
                        Some(m) => {
                            assert(w[k].0 == s);
                        },
                        None => {
                            assert(w[k] == v[k]);
                        },
                    }
                }
            },
            None => {
                if step == s {
                    match verdict_at(v, step) {
                        Some(m) => {},
                        None => {
                            assert(w[v.len() as int].0 == s);
                        },
                    }
                } else if names.contains(step) {
                    match verdict_at(v, step) {
                        Some(m) => {
                            assert forall|j: int| 0 <= j < w.len() implies #[trigger] w[j].0 != s by {
                                if j != m {
                                    assert(w[j] == v[j]);
                                }
                            }
                        },
                        None => {
                            assert forall|j: int| 0 <= j < w.len() implies #[trigger] w[j].0 != s by {
                                if j < v.len() {
                                    assert(w[j] == v[j]);
                                }
                            }
                        },
                    }
                }
            },
        }
    }
}

/// What a task has walked are steps of its workflow, each named once.
pub proof fn law_walked_are_steps_once(names: Seq<Seq<char>>, journal: Seq<JournalEventModel>)
    ensures
        forall|s: Seq<char>| #[trigger] walked(names, journal).contains(s) ==> names.contains(s),
        no_repeats(walked(names, journal)),
{
    let v = verdicts(names, journal);
    lemma_verdicts_shape(names, journal);
    lemma_passed_no_repeats(v);
    assert forall|s: Seq<char>| #[trigger] walked(names, journal).contains(s) implies names.contains(
        s,
    ) by {
        lemma_passed_contains(v, s);
        let k = choose|k: int| 0 <= k < v.len() && #[trigger] v[k].0 == s && v[k].1;
    }
}

/// An entry naming a step the workflow does not have changes nothing.
pub proof fn law_foreign_entry_counts_for_nothing(
    names: Seq<Seq<char>>,
    journal: Seq<JournalEventModel>,
    e: JournalEventModel,
)
    requires
        !names.contains(step_of(e.step).0),
    ensures
        walked(names, journal.push(e)) == walked(names, journal),
{
    assert(journal.push(e).drop_last() =~= journal);
}

/// Walking a step again starts its verdict afresh: after a plain entry the
/// step counts as walked exactly when that entry passed, and every other step
/// stays as it was.
pub proof fn law_plain_entry_starts_afresh(
    names: Seq<Seq<char>>,
    journal: Seq<JournalEventModel>,
    e: JournalEventModel,
    t: Seq<char>,
)
    requires
        names.contains(step_of(e.step).0),
        !step_of(e.step).1,
    ensures
        walked(names, journal.push(e)).contains(step_of(e.step).0) == e.ok,
        t != step_of(e.step).0 ==> walked(names, journal.push(e)).contains(t) == walked(
            names,
            journal,
        ).contains(t),
{
    let v = verdicts(names, journal);
    assert(journal.push(e).drop_last() =~= journal);
    lemma_verdicts_shape(names, journal);
    lemma_vote_passed(v, names, e, step_of(e.step).0);
    lemma_vote_passed(v, names, e, t);
}

/// A suffixed entry votes: a failing vote leaves the step not walked; a
/// passing vote on a step the journal already spoke of leaves it as it stood,
/// and on a step met for the first time counts it walked; every other step
/// stays as it was.
pub proof fn law_suffixed_entry_votes(
    names: Seq<Seq<char>>,
    journal: Seq<JournalEventModel>,
    e: JournalEventModel,
    t: Seq<char>,
)
    requires
        names.contains(step_of(e.step).0),
        step_of(e.step).1,
    ensures
        !e.ok ==> !walked(names, journal.push(e)).contains(step_of(e.step).0),
        e.ok && speaks_of(journal, step_of(e.step).0) ==> walked(names, journal.push(e)).contains(
            step_of(e.step).0,
        ) == walked(names, journal).contains(step_of(e.step).0),
        e.ok && !speaks_of(journal, step_of(e.step).0) ==> walked(
            names,
            journal.push(e),
        ).contains(step_of(e.step).0),
        t != step_of(e.step).0 ==> walked(names, journal.push(e)).contains(t) == walked(
            names,
            journal,
        ).contains(t),
{
    let s = step_of(e.step).0;
    let v = verdicts(names, journal);
    assert(journal.push(e).drop_last() =~= journal);
    lemma_verdicts_shape(names, journal);
    lemma_vote_passed(v, names, e, s);
    lemma_vote_passed(v, names, e, t);
    lemma_passed_at(v, s);
    lemma_verdict_when_spoken_of(names, journal, s);
}

/// The first name not in `done`: it is one of `names`, not done, and every
/// name before it is done; when there is none, every name is done.
pub proof fn lemma_first_not_in(names: Seq<Seq<char>>, done: Seq<Seq<char>>)
    ensures
        match first_not_in(names, done) {
            Some(s) => exists|i: int|
                0 <= i < names.len() && names[i] == s && !done.contains(s) && forall|j: int|
                    0 <= j < i ==> done.contains(#[trigger] names[j]),
            None => forall|j: int| 0 <= j < names.len() ==> done.contains(#[trigger] names[j]),
        },
    decreases names.len(),
{
    if names.len() > 0 {
        let rest = names.drop_first();
        lemma_first_not_in(rest, done);
        if done.contains(names[0]) {
            match first_not_in(rest, done) {
                Some(s) => {
                    let i = choose|i: int|
                        0 <= i < rest.len() && rest[i] == s && !done.contains(s) && forall|j: int|
                            0 <= j < i ==> done.contains(#[trigger] rest[j]);
                    assert(names[i + 1] == s);
                    assert forall|j: int| 0 <= j < i + 1 implies done.contains(#[trigger] names[j]) by {
                        if j > 0 {
                            assert(names[j] == rest[j - 1]);
                        }
                    }
                },
                None => {
                    assert forall|j: int| 0 <= j < names.len() implies done.contains(
                        #[trigger] names[j],
                    ) by {
                        if j > 0 {
                            assert(names[j] == rest[j - 1]);
                        }
                    }
                },
            }
        }
    }
}

/// The next step is a step of the workflow the task has not walked, and it
/// has walked every step before it; when there is no next step, it has
/// walked every step.
pub proof fn law_next_step_is_first_not_walked(t: TaskModel, w: WorkflowModel)
    ensures
        match next_of(t, w) {
            Some(s) => exists|i: int|
                0 <= i < w.steps.len() && w.steps[i].name == s && !walked(
                    names_of(w.steps),
                    t.journal,
                ).contains(s) && forall|j: int|
                    0 <= j < i ==> walked(names_of(w.steps), t.journal).contains(
                        #[trigger] w.steps[j].name,
                    ),
            None => forall|j: int|
                0 <= j < w.steps.len() ==> walked(names_of(w.steps), t.journal).contains(
                    #[trigger] w.steps[j].name,
                ),
        },
{
    let names = names_of(w.steps);
    let done = walked(names, t.journal);
    lemma_first_not_in(names, done);
    match next_of(t, w) {
        Some(s) => {
            let i = choose|i: int|
                0 <= i < names.len() && names[i] == s && !done.contains(s) && forall|j: int|
                    0 <= j < i ==> done.contains(#[trigger] names[j]);
            assert(w.steps[i].name == names[i]);
            assert forall|j: int| 0 <= j < i implies done.contains(#[trigger] w.steps[j].name) by {
                assert(w.steps[j].name == names[j]);
            }
        },
        None => {
            assert forall|j: int| 0 <= j < w.steps.len() implies done.contains(
                #[trigger] w.steps[j].name,
            ) by {
                assert(w.steps[j].name == names[j]);
            }
        },
    }
}

/// The verdict the journal gives a step name, entry by entry: none while no
/// entry names it; the first entry naming it sets it to that entry's `ok`; a
/// later suffixed entry ANDs its `ok` in; a later plain entry resets it to
/// its `ok`.
pub open spec fn verdict_on(journal: Seq<JournalEventModel>, n: Seq<char>) -> Option<bool>
    decreases journal.len(),
{
    if journal.len() == 0 {
        None
    } else {
        let prev = verdict_on(journal.drop_last(), n);
        let e = journal.last();
        if step_of(e.step).0 != n {
            prev
        } else {
            match prev {
                Some(v) => Some(
                    if step_of(e.step).1 {
                        v && e.ok
                    } else {
                        e.ok
                    },
                ),
                None => Some(e.ok),
            }
        }
    }
}

/// The index of the first entry naming a step.
pub open spec fn first_mention(journal: Seq<JournalEventModel>, n: Seq<char>) -> Option<int>
    decreases journal.len(),
{
    if journal.len() == 0 {
        None
    } else {
        match first_mention(journal.drop_last(), n) {
            Some(i) => Some(i),
            None => if step_of(journal.last().step).0 == n {
                Some(journal.len() - 1)
            } else {
                None
            },
        }
    }
}

/// The journal names `a` before it first names `b`.
pub open spec fn mentioned_before(journal: Seq<JournalEventModel>, a: Seq<char>, b: Seq<char>) -> bool {
    match (first_mention(journal, a), first_mention(journal, b)) {
        (Some(p), Some(q)) => p < q,
        _ => false,
    }
}

/// A first mention is an index into the journal.
proof fn lemma_first_mention_bound(journal: Seq<JournalEventModel>, n: Seq<char>)
    ensures
        first_mention(journal, n) matches Some(i) ==> 0 <= i < journal.len(),
    decreases journal.len(),
{
    if journal.len() > 0 {
        lemma_first_mention_bound(journal.drop_last(), n);
    }
}

/// Verdicts whose names agree index by index are found at the same place.
proof fn lemma_verdict_at_names(v: Seq<(Seq<char>, bool)>, w: Seq<(Seq<char>, bool)>, n: Seq<char>)
    requires
        v.len() == w.len(),
        forall|i: int| 0 <= i < v.len() ==> #[trigger] v[i].0 == w[i].0,
    ensures
        verdict_at(v, n) == verdict_at(w, n),
    decreases v.len(),
{
    if v.len() > 0 {
        let dv = v.drop_last();
        let dw = w.drop_last();
        assert forall|i: int| 0 <= i < dv.len() implies #[trigger] dv[i].0 == dw[i].0 by {
            assert(dv[i] == v[i] && dw[i] == w[i]);
        }
        lemma_verdict_at_names(dv, dw, n);
        assert(v.last().0 == w.last().0);
    }
}

/// The verdicts a journal builds, in closed form: the verdict kept on a step
/// of the workflow is the one [`verdict_on`] gives, it is there exactly when
/// some entry names the step, and the verdicts stand in the order the
/// journal first named their steps.
proof fn lemma_verdicts_closed_form(names: Seq<Seq<char>>, journal: Seq<JournalEventModel>)
    ensures
        forall|n: Seq<char>|
            #![trigger verdict_on(journal, n)]
            names.contains(n) ==> match verdict_at(verdicts(names, journal), n) {
                Some(k) => verdict_on(journal, n) == Some(verdicts(names, journal)[k].1),
                None => verdict_on(journal, n) is None,
            },
        forall|n: Seq<char>|
            #![trigger first_mention(journal, n)]
            names.contains(n) ==> (verdict_at(verdicts(names, journal), n) is Some <==> first_mention(
                journal,
                n,
            ) is Some),
        forall|i: int, k: int|
            0 <= i < k < verdicts(names, journal).len() ==> mentioned_before(
                journal,
                #[trigger] verdicts(names, journal)[i].0,
                #[trigger] verdicts(names, journal)[k].0,
            ),
        forall|i: int|
            0 <= i < verdicts(names, journal).len() ==> first_mention(
                journal,
                #[trigger] verdicts(names, journal)[i].0,
            ) is Some,
    decreases journal.len(),
{
    if journal.len() > 0 {
        let d = journal.drop_last();
        let e = journal.last();
        lemma_verdicts_closed_form(names, d);
        lemma_verdicts_shape(names, d);
        let v = verdicts(names, d);
        let w = verdicts(names, journal);
        let (s, suffixed) = step_of(e.step);
        assert(w == vote(v, names, e));
        lemma_verdict_at(v, s);
        assert forall|x: Seq<char>| first_mention(d, x) is Some implies first_mention(journal, x)
            == first_mention(d, x) by {}
        assert forall|i: int| 0 <= i < v.len() implies first_mention(d, #[trigger] v[i].0) matches Some(p) && p < d.len() by {
            lemma_first_mention_bound(d, v[i].0);
        }
        if names.contains(s) {
            match verdict_at(v, s) {
                Some(k) => {
                    assert forall|i: int| 0 <= i < v.len() implies #[trigger] v[i].0 == w[i].0 by {}
                    assert forall|n: Seq<char>| names.contains(n) implies match verdict_at(w, n) {
                        Some(m) => verdict_on(journal, n) == Some(w[m].1),
                        None => verdict_on(journal, n) is None,
                    } by {
                        assert(match verdict_at(v, n) {
                            Some(m) => verdict_on(d, n) == Some(v[m].1),
                            None => verdict_on(d, n) is None,
                        });
                        lemma_verdict_at_names(v, w, n);
                        if n == s {
                        } else {
                            lemma_verdict_at(v, n);
                            match verdict_at(v, n) {
                                Some(m) => {
                                    assert(m != k);
                                },
                                None => {},
                            }
                        }
                    }
                    assert forall|n: Seq<char>| names.contains(n) implies (verdict_at(w, n) is Some
                        <==> first_mention(journal, n) is Some) by {
                        lemma_verdict_at_names(v, w, n);
                    }
                    assert forall|i: int, j: int| 0 <= i < j < w.len() implies mentioned_before(
                        journal,
                        #[trigger] w[i].0,
                        #[trigger] w[j].0,
                    ) by {
                        assert(w[i].0 == v[i].0 && w[j].0 == v[j].0);
                        assert(mentioned_before(d, v[i].0, v[j].0));
                    }
                    assert forall|i: int| 0 <= i < w.len() implies first_mention(
                        journal,
                        #[trigger] w[i].0,
                    ) is Some by {
                        assert(w[i].0 == v[i].0);
                        assert(first_mention(d, v[i].0) is Some);
                    }
                },
                None => {
                    assert(first_mention(d, s) is None);
                    assert(first_mention(journal, s) == Some(d.len() as int));
                    assert(w == v.push((s, e.ok)));
                    assert forall|n: Seq<char>| names.contains(n) implies match verdict_at(w, n) {
                        Some(m) => verdict_on(journal, n) == Some(w[m].1),
                        None => verdict_on(journal, n) is None,
                    } by {
                        assert(match verdict_at(v, n) {
                            Some(m) => verdict_on(d, n) == Some(v[m].1),
                            None => verdict_on(d, n) is None,
                        });
                        assert(w.drop_last() =~= v);
                        if n != s {
                            lemma_verdict_at(v, n);
                            match verdict_at(v, n) {
                                Some(m) => {
                                    assert(w[m] == v[m]);
                                },
                                None => {},
                            }
                        }
                    }
                    assert forall|n: Seq<char>| names.contains(n) implies (verdict_at(w, n) is Some
                        <==> first_mention(journal, n) is Some) by {
                        assert(w.drop_last() =~= v);
                    }
                    assert forall|i: int, j: int| 0 <= i < j < w.len() implies mentioned_before(
                        journal,
                        #[trigger] w[i].0,
                        #[trigger] w[j].0,
                    ) by {
                        assert(w[i] == v[i]);
                        if j < v.len() {
                            assert(w[j] == v[j]);
                            assert(mentioned_before(d, v[i].0, v[j].0));
                        } else {
                            assert(w[j].0 == s);
                            assert(first_mention(d, v[i].0) is Some);
                        }
                    }
                    assert forall|i: int| 0 <= i < w.len() implies first_mention(
                        journal,
                        #[trigger] w[i].0,
                    ) is Some by {
                        if i < v.len() {
                            assert(w[i] == v[i]);
                            assert(first_mention(d, v[i].0) is Some);
                        }
                    }
                },
            }
        } else {
            assert(w == v);
            assert forall|n: Seq<char>| names.contains(n) implies match verdict_at(w, n) {
                Some(m) => verdict_on(journal, n) == Some(w[m].1),
                None => verdict_on(journal, n) is None,
            } by {
                assert(n != s);
                assert(match verdict_at(v, n) {
                    Some(m) => verdict_on(d, n) == Some(v[m].1),
                    None => verdict_on(d, n) is None,
                });
            }
            assert forall|n: Seq<char>| names.contains(n) implies (verdict_at(w, n) is Some
                <==> first_mention(journal, n) is Some) by {
                assert(n != s);
            }
            assert forall|i: int, j: int| 0 <= i < j < w.len() implies mentioned_before(
                journal,
                #[trigger] w[i].0,
                #[trigger] w[j].0,
            ) by {
                assert(mentioned_before(d, v[i].0, v[j].0));
            }
            assert forall|i: int| 0 <= i < w.len() implies first_mention(
                journal,
                #[trigger] w[i].0,
            ) is Some by {
                assert(first_mention(d, v[i].0) is Some);
            }
        }
    }
}

/// Passing verdicts keep the order of the verdicts.
proof fn lemma_passed_order(v: Seq<(Seq<char>, bool)>, journal: Seq<JournalEventModel>)
    requires
        forall|i: int, k: int|
            0 <= i < k < v.len() ==> mentioned_before(journal, #[trigger] v[i].0, #[trigger] v[k].0),
    ensures
        forall|a: int, b: int|
            0 <= a < b < passed(v).len() ==> mentioned_before(
                journal,
                #[trigger] passed(v)[a],
                #[trigger] passed(v)[b],
            ),
    decreases v.len(),
{
    if v.len() > 0 {
        let d = v.drop_last();
        assert forall|i: int, k: int| 0 <= i < k < d.len() implies mentioned_before(
            journal,
            #[trigger] d[i].0,
            #[trigger] d[k].0,
        ) by {
            assert(d[i] == v[i] && d[k] == v[k]);
        }
        lemma_passed_order(d, journal);
        let p = passed(d);
        let q = passed(v);
        if v.last().1 {
            assert(q == p.push(v.last().0));
            assert forall|a: int, b: int| 0 <= a < b < q.len() implies mentioned_before(
                journal,
                #[trigger] q[a],
                #[trigger] q[b],
            ) by {
                if b == q.len() - 1 {
                    assert(q[a] == p[a]);
                    lemma_passed_contains(d, p[a]);
                    assert(p.contains(p[a]));
                    let i = choose|i: int| 0 <= i < d.len() && #[trigger] d[i].0 == p[a] && d[i].1;
                    assert(d[i] == v[i]);
                    assert(mentioned_before(journal, v[i].0, v[v.len() - 1].0));
                } else {
                    assert(q[a] == p[a] && q[b] == p[b]);
                }
            }
        } else {
            assert(q =~= p);
        }
    }
}

/// The walked steps in closed form: a name is walked exactly when it is a
/// step of the workflow whose verdict ([`verdict_on`]: the first entry sets
/// it, a suffixed entry ANDs its `ok` in, a plain entry resets it) is a
/// pass; each is listed once, and in the order the journal first named them.
pub proof fn law_walked_in_closed_form(names: Seq<Seq<char>>, journal: Seq<JournalEventModel>)
    ensures
        forall|n: Seq<char>|
            #[trigger] walked(names, journal).contains(n) <==> names.contains(n) && verdict_on(
                journal,
                n,
            ) == Some(true),
        no_repeats(walked(names, journal)),
        forall|a: int, b: int|
            0 <= a < b < walked(names, journal).len() ==> mentioned_before(
                journal,
                #[trigger] walked(names, journal)[a],
                #[trigger] walked(names, journal)[b],
            ),
{
    let v = verdicts(names, journal);
    lemma_verdicts_closed_form(names, journal);
    lemma_verdicts_shape(names, journal);
    law_walked_are_steps_once(names, journal);
    lemma_passed_order(v, journal);
    assert forall|n: Seq<char>| #[trigger] walked(names, journal).contains(n) <==> names.contains(n)
        && verdict_on(journal, n) == Some(true) by {
        lemma_passed_at(v, n);
        lemma_verdict_at(v, n);
        if walked(names, journal).contains(n) {
            assert(names.contains(n));
        }
        if names.contains(n) {
            assert(match verdict_at(v, n) {
                Some(k) => verdict_on(journal, n) == Some(v[k].1),
                None => verdict_on(journal, n) is None,
            });
        }
    }
}

/// The views of the verdicts kept while reading a journal.
spec fn kept(v: Seq<(Vec<char>, bool)>) -> Seq<(Seq<char>, bool)> {
    v.map_values(|p: (Vec<char>, bool)| (p.0@, p.1))
}

/// A journal entry's step split at its first `·`: the step's name, and
/// whether a suffix followed.
fn split_step(step: &String) -> (r: (Vec<char>, bool))
    ensures
        r.0@ == step_of(step@).0,
        r.1 == step_of(step@).1,
{
    let c = chars_of(step.as_str());
    let mut dot: Vec<char> = Vec::new();
    dot.push('·');
    assert(dot@ =~= seq!['·']);
    match find_from(&c, &dot, 0) {
        Some(i) => {
            let head = slice_of(&c, 0, i);
            assert(head@ =~= c@.take(i as int));
            (head, true)
        },
        None => (c, false),
    }
}

/// Whether `name` is among `list`.
fn has_name(list: &[String], name: &[char]) -> (b: bool)
    ensures
        b == list.deep_view().contains(name@),
{
    let mut i: usize = 0;
    while i < list.len()
        invariant
            i <= list.len(),
            forall|j: int| 0 <= j < i ==> list.deep_view()[j] != name@,
        decreases list.len() - i,
    {
        let c = chars_of(list[i].as_str());
        assert(list.deep_view()[i as int] == list@[i as int]@);
        if same_chars(&c, name) {
            return true;
        }
        i += 1;
    }
    false
}

/// The first verdict on `step`.
fn find_verdict(v: &Vec<(Vec<char>, bool)>, step: &Vec<char>) -> (r: Option<usize>)
    ensures
        match r {
            Some(k) => verdict_at(kept(v@), step@) == Some(k as int),
            None => verdict_at(kept(v@), step@) is None,
        },
{
    let ghost m = kept(v@);
    let mut i: usize = 0;
    while i < v.len()
        invariant
            i <= v.len(),
            m == kept(v@),
            m.len() == v.len(),
            verdict_at(m.take(i as int), step@) is None,
        decreases v.len() - i,
    {
        assert(m.take(i + 1).drop_last() =~= m.take(i as int));
        assert(m.take(i + 1).last() == m[i as int]);
        if same_chars(&v[i].0, step) {
            assert(verdict_at(m.take(i + 1), step@) == Some(i as int));
            proof {
                lemma_verdict_at_grows(m, step@, i + 1);
            }
            return Some(i);
        }
        i += 1;
    }
    assert(m.take(v.len() as int) =~= m);
    None
}

/// A verdict found in a prefix is the one found in the whole.
proof fn lemma_verdict_at_grows(v: Seq<(Seq<char>, bool)>, step: Seq<char>, j: int)
    requires
        0 <= j <= v.len(),
        verdict_at(v.take(j), step) is Some,
    ensures
        verdict_at(v, step) == verdict_at(v.take(j), step),
    decreases v.len() - j,
{
    if j < v.len() {
        assert(v.take(j + 1).drop_last() =~= v.take(j));
        lemma_verdict_at_grows(v, step, j + 1);
    } else {
        assert(v.take(j) =~= v);
    }
}

/// The names of `names` the events went through, as the events first met
/// them (see [`walked`]).
pub(crate) fn walked_steps(names: &[String], events: &[JournalEvent]) -> (r: Vec<String>)
    ensures
        r.deep_view() == walked(names.deep_view(), journal_model(events@)),
{
    let ghost nm = names.deep_view();
    let ghost journal = journal_model(events@);
    let mut verdict: Vec<(Vec<char>, bool)> = Vec::new();
    assert(kept(verdict@) =~= verdicts(nm, journal.take(0)));
    let mut i: usize = 0;
    while i < events.len()
        invariant
            i <= events.len(),
            names.deep_view() == nm,
            journal == journal_model(events@),
            journal.len() == events.len(),
            kept(verdict@) == verdicts(nm, journal.take(i as int)),
        decreases events.len() - i,
    {
        let e = &events[i];
        assert(journal.take(i + 1).drop_last() =~= journal.take(i as int));
        assert(journal.take(i + 1).last() == e@);
        let (step, suffixed) = split_step(&e.step);
        if has_name(names, &step) {
            let found = find_verdict(&verdict, &step);
            proof {
                lemma_verdict_at(kept(verdict@), step@);
            }
            assert(kept(verdict@).len() == verdict.len());
            match found {
                Some(k) => {
                    let was = verdict[k].1;
                    let now = if suffixed {
                        was && e.ok
                    } else {
                        e.ok
                    };
                    let ghost before = verdict@;
                    verdict.set(k, (step, now));
                    assert(kept(verdict@) =~= kept(before).update(k as int, (step_of(e.step@).0, now)));
                },
                None => {
                    let ghost before = verdict@;
                    verdict.push((step, e.ok));
                    assert(kept(verdict@) =~= kept(before).push((step_of(e.step@).0, e.ok)));
                },
            }
        }
        i += 1;
    }
    assert(journal.take(events.len() as int) =~= journal);
    let ghost v = kept(verdict@);
    let mut r: Vec<String> = Vec::new();
    let mut k: usize = 0;
    while k < verdict.len()
        invariant
            k <= verdict.len(),
            v == kept(verdict@),
            v.len() == verdict.len(),
            r.deep_view() == passed(v.take(k as int)),
        decreases verdict.len() - k,
    {
        assert(v.take(k + 1).drop_last() =~= v.take(k as int));
        assert(v.take(k + 1).last() == v[k as int]);
        if verdict[k].1 {
            let ghost before = r.deep_view();
            r.push(string_of(&verdict[k].0));
            assert(r.deep_view() =~= before.push(v[k as int].0));
        } else {
            assert(r.deep_view() =~= passed(v.take(k + 1)));
        }
        k += 1;
    }
    assert(v.take(verdict.len() as int) =~= v);
    r
}

/// The first of `names` not among `done`.
pub(crate) fn first_missing(names: &[String], done: &[String]) -> (r: Option<String>)
    ensures
        r.deep_view() == first_not_in(names.deep_view(), done.deep_view()),
{
    let ghost nm = names.deep_view();
    let ghost gone = done.deep_view();
    let mut i: usize = 0;
    assert(nm.skip(0) =~= nm);
    while i < names.len()
        invariant
            i <= names.len(),
            nm == names.deep_view(),
            gone == done.deep_view(),
            first_not_in(nm, gone) == first_not_in(nm.skip(i as int), gone),
        decreases names.len() - i,
    {
        assert(nm.skip(i as int).drop_first() =~= nm.skip(i + 1));
        assert(nm.skip(i as int)[0] == names@[i as int]@);
        let c = chars_of(names[i].as_str());
        assert(nm[i as int] == names@[i as int]@);
        if !has_name(done, &c) {
            let found = names[i].clone();
            assert(found@ == nm.skip(i as int)[0]);
            assert(first_not_in(nm.skip(i as int), gone) == Some(found@));
            return Some(found);
        }
        i += 1;
    }
    assert(nm.skip(names.len() as int) =~= Seq::<Seq<char>>::empty());
    None
}

impl Task {
    /// The steps of `workflow` that the task went through, as the journal
    /// first met them. A suffixed entry (`甲·审`, `甲·判`) votes on its step's
    /// verdict; a plain entry (the step walked again) starts it afresh; steps
    /// the workflow does not have count for nothing.
    pub fn done_steps(&self, workflow: &Workflow) -> (r: Vec<String>)
        ensures
            r.deep_view() == walked(names_of(workflow@.steps), self@.journal),
    {
        let names = workflow.step_names();
        walked_steps(names.as_slice(), self.journal.as_slice())
    }

    /// The first step of `workflow` (as defined) that the task did not
    /// go through; `None` when all were walked or there are none.
    pub fn next_step(&self, workflow: &Workflow) -> (r: Option<String>)
        ensures
            r.deep_view() == next_of(self@, workflow@),
    {
        let finished = self.done_steps(workflow);
        let names = workflow.step_names();
        first_missing(names.as_slice(), finished.as_slice())
    }

    /// Where the task stands on `workflow`: `下一步：<step>`, or `<n> 个步骤都走过了`;
    /// a workflow without steps is named (by the task's `workflow` field)
    /// with where to write them.
    pub fn state_line(&self, workflow: &Workflow) -> (r: String)
        ensures
            r@ == state_of(self@, workflow@),
    {
        if workflow.steps.len() == 0 {
            let mut out = chars_of("这条工作流没有步骤——在 workflows/");
            push_str(&mut out, self.workflow_name.as_str());
            push_str(&mut out, ".yaml 的 steps 里写步骤");
            return string_of(&out);
        }
        progress_text(self, workflow)
    }
}

/// The progress line of a task on a workflow that has steps.
pub(crate) fn progress_text(task: &Task, workflow: &Workflow) -> (r: String)
    ensures
        r@ == progress_line(task@, workflow@),
{
    match task.next_step(workflow) {
        Some(step) => {
            let mut out = chars_of("下一步：");
            push_str(&mut out, step.as_str());
            string_of(&out)
        },
        None => {
            let mut out = decimal_chars(workflow.steps.len());
            push_str(&mut out, " 个步骤都走过了");
            string_of(&out)
        },
    }
}

} // verus!
