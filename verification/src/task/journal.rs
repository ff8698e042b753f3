//! The journal: when, which step, one sentence, passed or not. Only ever
//! appended to.

use crate::fields::text_of;
use crate::yaml::{Node, Yaml, as_bool, entries_model, field_text, get, push_entry, push_text_entry, str_entry};
use vstd::prelude::*;

verus! {

/// One journal entry.
#[derive(Debug, Clone, PartialEq, Eq)]
pub struct JournalEvent {
    pub at: String,
    pub step: String,
    pub detail: String,
    pub ok: bool,
}

/// The view of a [`JournalEvent`].
pub struct JournalEventModel {
    pub at: Seq<char>,
    pub step: Seq<char>,
    pub detail: Seq<char>,
    pub ok: bool,
}

impl View for JournalEvent {
    type V = JournalEventModel;

    open spec fn view(&self) -> JournalEventModel {
        JournalEventModel { at: self.at@, step: self.step@, detail: self.detail@, ok: self.ok }
    }
}

/// `ok` as written; anything but a boolean counts as not passed.
pub open spec fn ok_from(n: Node) -> bool {
    match get(n, "ok"@) {
        Some(v) => match as_bool(v) {
            Some(b) => b,
            None => false,
        },
        None => false,
    }
}

/// The event its fields describe.
pub open spec fn event_from(n: Node) -> JournalEventModel {
    JournalEventModel {
        at: field_text(n, "at"@),
        step: field_text(n, "step"@),
        detail: field_text(n, "detail"@),
        ok: ok_from(n),
    }
}

/// The event written back: at, step, detail, ok.
pub open spec fn event_node(e: JournalEventModel) -> Node {
    Node::Mapping(
        seq![
            str_entry("at"@, e.at),
            str_entry("step"@, e.step),
            str_entry("detail"@, e.detail),
            (Node::String("ok"@), Node::Bool(e.ok)),
        ],
    )
}

impl JournalEvent {
    /// Reads an event from its fields; no `ok` (or one that is not a boolean)
    /// reads as not passed.
    pub fn of(value: &Yaml) -> (e: JournalEvent)
        ensures
            e@ == event_from(value@),
    {
        let ok = match value.get("ok") {
            Some(v) => match v.as_bool() {
                Some(b) => b,
                None => false,
            },
            None => false,
        };
        JournalEvent {
            at: text_of(value, "at"),
            step: text_of(value, "step"),
            detail: text_of(value, "detail"),
            ok,
        }
    }

    /// Written back in the shape a task file uses.
    pub fn to_yaml(&self) -> (r: Yaml)
        ensures
            r@ == event_node(self@),
    {
        let mut entries: Vec<(Yaml, Yaml)> = Vec::new();
        push_text_entry(&mut entries, "at", self.at.as_str());
        push_text_entry(&mut entries, "step", self.step.as_str());
        push_text_entry(&mut entries, "detail", self.detail.as_str());
        push_entry(&mut entries, "ok", Yaml::Bool(self.ok));
        assert(entries_model(entries@) =~= match event_node(self@) {
            Node::Mapping(e) => e,
            _ => Seq::empty(),
        });
        Yaml::Mapping(entries)
    }

    /// A copy.
    pub fn copy(&self) -> (r: JournalEvent)
        ensures
            r@ == self@,
    {
        JournalEvent {
            at: self.at.clone(),
            step: self.step.clone(),
            detail: self.detail.clone(),
            ok: self.ok,
        }
    }
}

} // verus!
