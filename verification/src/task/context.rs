//! The run context a task carries: the workspace root, the data store and the
//! workflow directory. How each is read and written is the platforms' affair;
//! the toolkit only carries them.

use crate::fields::text_of;
use crate::yaml::{Node, Yaml, entries_model, field_text, push_text_entry, str_entry};
use vstd::prelude::*;

verus! {

/// Where this run works: the workspace root, the data store, the workflows.
#[derive(Debug, Clone, PartialEq, Eq)]
pub struct RunContext {
    pub root: String,
    pub data: String,
    pub workflows: String,
}

/// The view of a [`RunContext`].
pub struct RunContextModel {
    pub root: Seq<char>,
    pub data: Seq<char>,
    pub workflows: Seq<char>,
}

impl View for RunContext {
    type V = RunContextModel;

    open spec fn view(&self) -> RunContextModel {
        RunContextModel { root: self.root@, data: self.data@, workflows: self.workflows@ }
    }
}

/// The context its fields describe.
pub open spec fn context_from(n: Node) -> RunContextModel {
    RunContextModel {
        root: field_text(n, "root"@),
        data: field_text(n, "data"@),
        workflows: field_text(n, "workflows"@),
    }
}

/// The entries the context is written back as: root, data, workflows.
pub open spec fn context_entries(c: RunContextModel) -> Seq<(Node, Node)> {
    seq![
        str_entry("root"@, c.root),
        str_entry("data"@, c.data),
        str_entry("workflows"@, c.workflows),
    ]
}

impl Default for RunContext {
    /// All three places empty.
    fn default() -> (c: RunContext)
        ensures
            c.root@ == Seq::<char>::empty(),
            c.data@ == Seq::<char>::empty(),
            c.workflows@ == Seq::<char>::empty(),
    {
        RunContext { root: String::new(), data: String::new(), workflows: String::new() }
    }
}

impl RunContext {
    /// Reads the three places from their fields (trimmed; missing ones empty).
    pub fn of(value: &Yaml) -> (c: RunContext)
        ensures
            c@ == context_from(value@),
    {
        RunContext {
            root: text_of(value, "root"),
            data: text_of(value, "data"),
            workflows: text_of(value, "workflows"),
        }
    }

    /// Appends the three places as entries.
    pub fn push_entries(&self, entries: &mut Vec<(Yaml, Yaml)>)
        ensures
            entries_model(final(entries)@) == entries_model(old(entries)@) + context_entries(self@),
    {
        push_text_entry(entries, "root", self.root.as_str());
        push_text_entry(entries, "data", self.data.as_str());
        push_text_entry(entries, "workflows", self.workflows.as_str());
        assert(entries_model(entries@) =~= entries_model(old(entries)@) + context_entries(self@));
    }

    /// Written back as a mapping of the three places.
    pub fn to_yaml(&self) -> (r: Yaml)
        ensures
            r@ == Node::Mapping(context_entries(self@)),
    {
        let mut entries: Vec<(Yaml, Yaml)> = Vec::new();
        self.push_entries(&mut entries);
        assert(entries_model(entries@) =~= context_entries(self@));
        Yaml::Mapping(entries)
    }

    /// A copy.
    pub fn copy(&self) -> (r: RunContext)
        ensures
            r@ == self@,
    {
        RunContext {
            root: self.root.clone(),
            data: self.data.clone(),
            workflows: self.workflows.clone(),
        }
    }
}

} // verus!
