//! The journal read straight from its entries, with the workflow given as its
//! list of step names: which steps were walked, which comes next, and the
//! state line. It reads the entries as a task's journal does, and decides
//! as [`crate::task::progress`] does.

use crate::task::journal::{JournalEvent, JournalEventModel, event_from};
use crate::task::model::journal_model;
use crate::task::progress::{first_missing, first_not_in, walked, walked_steps};
use crate::text::{chars_of, decimal, decimal_chars, push_str, string_of};
use crate::yaml::Yaml;
use vstd::prelude::*;

verus! {

/// The journal the entries make.
pub open spec fn journal_of(events: Seq<Yaml>) -> Seq<JournalEventModel> {
    events.map_values(|e: Yaml| event_from(e@))
}

/// The state line for the steps and entries; no steps is said with the
/// workflow's name and where to write them.
pub open spec fn state_text(steps: Seq<Seq<char>>, journal: Seq<JournalEventModel>, workflow_name: Seq<char>) -> Seq<char> {
    if steps.len() == 0 {
        "这条工作流没有步骤——在 workflows/"@ + workflow_name + ".yaml 的 steps 里写步骤"@
    } else {
        match first_not_in(steps, walked(steps, journal)) {
            Some(s) => "下一步："@ + s,
            None => decimal(steps.len()) + " 个步骤都走过了"@,
        }
    }
}

/// The entries read as journal events.
fn events_of(events: &[Yaml]) -> (r: Vec<JournalEvent>)
    ensures
        journal_model(r@) == journal_of(events@),
{
    let mut r: Vec<JournalEvent> = Vec::new();
    let mut i: usize = 0;
    while i < events.len()
        invariant
            i <= events.len(),
            journal_model(r@) == journal_of(events@).take(i as int),
        decreases events.len() - i,
    {
        let e = JournalEvent::of(&events[i]);
        let ghost before = r@;
        r.push(e);
        assert(journal_model(r@) =~= journal_model(before).push(e@));
        assert(journal_of(events@).take(i + 1) =~= journal_of(events@).take(i as int).push(
            event_from(events@[i as int]@),
        ));
        i += 1;
    }
    assert(journal_of(events@).take(events.len() as int) =~= journal_of(events@));
    r
}

/// The steps walked, in the order the entries first met them: a suffixed
/// entry votes on its step's verdict, a plain one starts it afresh, and
/// names not among `steps` count for nothing.
pub fn done(steps: &[String], events: &[Yaml]) -> (r: Vec<String>)
    ensures
        r.deep_view() == walked(steps.deep_view(), journal_of(events@)),
{
    let journal = events_of(events);
    walked_steps(steps, journal.as_slice())
}

/// The first of `steps` not walked.
pub fn next_step(steps: &[String], events: &[Yaml]) -> (r: Option<String>)
    ensures
        r.deep_view() == first_not_in(steps.deep_view(), walked(steps.deep_view(), journal_of(events@))),
{
    let finished = done(steps, events);
    first_missing(steps, finished.as_slice())
}

/// The state line: the next step, or that all were walked; no steps at all
/// is said with the workflow's name and where to write them.
pub fn state_line(steps: &[String], events: &[Yaml], workflow_name: &str) -> (r: String)
    ensures
        r@ == state_text(steps.deep_view(), journal_of(events@), workflow_name@),
{
    if steps.len() == 0 {
        let mut out = chars_of("这条工作流没有步骤——在 workflows/");
        push_str(&mut out, workflow_name);
        push_str(&mut out, ".yaml 的 steps 里写步骤");
        return string_of(&out);
    }
    match next_step(steps, events) {
        Some(step) => {
            let mut out = chars_of("下一步：");
            push_str(&mut out, step.as_str());
            string_of(&out)
        },
        None => {
            let mut out = decimal_chars(steps.len());
            push_str(&mut out, " 个步骤都走过了");
            string_of(&out)
        },
    }
}

} // verus!
