//! The task aggregate: one run of a workflow.
//!
//! Its instruction is which workflow to run (by name) and where to start; its
//! state is the journal (only ever appended to), the gates waiting for a
//! person, and where its artifacts are declared to land; it also carries the
//! run context. A task never changes: `recorded` and `with_gates` hand back a
//! new task, and the caller writes it to disk.

use super::context::{RunContext, RunContextModel, context_entries, context_from};
use super::journal::{JournalEvent, JournalEventModel, event_from, event_node};
use super::landings::{
    copy_pairs, declared_in, declared_path, insert_landing, landings_from, lemma_landings_sorted,
    pairs_model, sorted_names,
};
use crate::fields::text_of;
use crate::paths::{join_chars, joined};
use crate::text::{chars_of, push_str, same_chars, same_str, string_of, trim, trim_chars};
use crate::workflow::model::items_under;
use crate::yaml::{
    Node, Yaml, as_mapping, as_str, entries_model, field_text, get, lemma_entries_model,
    lemma_seq_model, lemma_seq_model_push, push_entry, push_text_entry,
    seq_model, str_entry,
};
use vstd::prelude::*;

verus! {

/// The task aggregate.
#[derive(Debug, Clone, PartialEq, Eq)]
pub struct Task {
    pub name: String,
    pub workflow_name: String,
    pub start: String,
    pub context: RunContext,
    pub journal: Vec<JournalEvent>,
    /// The things waiting for a person to decide.
    pub gates: Vec<String>,
    /// Where this run writes each artifact, as declared (relative to the
    /// workspace root unless absolute), sorted by artifact name, each once.
    pub artifacts: Vec<(String, String)>,
}

/// The view of a [`Task`].
pub struct TaskModel {
    pub name: Seq<char>,
    pub workflow_name: Seq<char>,
    pub start: Seq<char>,
    pub context: RunContextModel,
    pub journal: Seq<JournalEventModel>,
    pub gates: Seq<Seq<char>>,
    pub artifacts: Seq<(Seq<char>, Seq<char>)>,
}

/// The views of a journal.
pub open spec fn journal_model(v: Seq<JournalEvent>) -> Seq<JournalEventModel> {
    v.map_values(|e: JournalEvent| e@)
}

impl View for Task {
    type V = TaskModel;

    open spec fn view(&self) -> TaskModel {
        TaskModel {
            name: self.name@,
            workflow_name: self.workflow_name@,
            start: self.start@,
            context: self.context@,
            journal: journal_model(self.journal@),
            gates: self.gates.deep_view(),
            artifacts: pairs_model(self.artifacts@),
        }
    }
}

/// The strings among the items, in order (other items dropped).
pub open spec fn string_items(items: Seq<Node>) -> Seq<Seq<char>>
    decreases items.len(),
{
    if items.len() == 0 {
        Seq::empty()
    } else {
        string_items(items.drop_last()) + match as_str(items.last()) {
            Some(s) => seq![s],
            None => Seq::empty(),
        }
    }
}

/// The declared landings under the `artifacts` field.
pub open spec fn artifacts_from(n: Node) -> Seq<(Seq<char>, Seq<char>)> {
    match get(n, "artifacts"@) {
        Some(v) => match as_mapping(v) {
            Some(entries) => landings_from(entries),
            None => Seq::empty(),
        },
        None => Seq::empty(),
    }
}

/// The task its fields describe; the name is given by the caller.
pub open spec fn task_from(name: Seq<char>, n: Node) -> TaskModel {
    TaskModel {
        name,
        workflow_name: field_text(n, "workflow"@),
        start: field_text(n, "start"@),
        context: context_from(n),
        journal: items_under(n, "log"@).map_values(|e: Node| event_from(e)),
        gates: string_items(items_under(n, "gates"@)),
        artifacts: artifacts_from(n),
    }
}

/// The task written back: name, start, workflow, log, gates, artifacts, and
/// then the run context's three places.
pub open spec fn task_node(t: TaskModel) -> Node {
    Node::Mapping(
        seq![
            str_entry("name"@, t.name),
            str_entry("start"@, t.start),
            str_entry("workflow"@, t.workflow_name),
            (
                Node::String("log"@),
                Node::Sequence(t.journal.map_values(|e: JournalEventModel| event_node(e))),
            ),
            (
                Node::String("gates"@),
                Node::Sequence(t.gates.map_values(|g: Seq<char>| Node::String(g))),
            ),
            (
                Node::String("artifacts"@),
                Node::Mapping(
                    t.artifacts.map_values(|p: (Seq<char>, Seq<char>)| str_entry(p.0, p.1)),
                ),
            ),
        ] + context_entries(t.context),
    )
}

/// The path declared for an artifact, trimmed; a blank declaration counts as none.
pub open spec fn declared_for(t: TaskModel, kind: Seq<char>) -> Option<Seq<char>> {
    match declared_path(t.artifacts, kind) {
        Some(p) => if trim(p).len() > 0 {
            Some(trim(p))
        } else {
            None
        },
        None => None,
    }
}

/// Where this run writes an artifact: the log is the task file itself under
/// the data store; a declared path as declared when absolute, else under the
/// workspace root; otherwise `artifacts/<kind>/<task>.md` under the data store.
pub open spec fn landing(t: TaskModel, kind: Seq<char>, c: RunContextModel) -> Seq<char> {
    if kind == "log"@ {
        joined(c.data, "tasks/"@ + t.name + ".yaml"@)
    } else {
        match declared_for(t, kind) {
            Some(w) => if w.len() > 0 && w[0] == '/' {
                w
            } else {
                joined(c.root, w)
            },
            None => joined(c.data, "artifacts/"@ + kind + "/"@ + t.name + ".md"@),
        }
    }
}

/// The gates with one note added unless it is already there.
pub open spec fn add_gate(gates: Seq<Seq<char>>, note: Seq<char>) -> Seq<Seq<char>> {
    if gates.contains(note) {
        gates
    } else {
        gates.push(note)
    }
}

/// The gates with the notes added in order, each only when not already there.
pub open spec fn gates_with(gates: Seq<Seq<char>>, notes: Seq<Seq<char>>) -> Seq<Seq<char>>
    decreases notes.len(),
{
    if notes.len() == 0 {
        gates
    } else {
        add_gate(gates_with(gates, notes.drop_last()), notes.last())
    }
}

/// A copy of the journal.
pub fn copy_journal(v: &Vec<JournalEvent>) -> (r: Vec<JournalEvent>)
    ensures
        journal_model(r@) == journal_model(v@),
{
    let mut r: Vec<JournalEvent> = Vec::new();
    let mut i: usize = 0;
    while i < v.len()
        invariant
            i <= v.len(),
            journal_model(r@) == journal_model(v@).take(i as int),
        decreases v.len() - i,
    {
        let e = v[i].copy();
        let ghost before = r@;
        r.push(e);
        assert(journal_model(r@) =~= journal_model(before).push(e@));
        assert(journal_model(v@).take(i + 1) =~= journal_model(v@).take(i as int).push(
            v@[i as int]@,
        ));
        i += 1;
    }
    assert(journal_model(v@).take(v.len() as int) =~= journal_model(v@));
    r
}

/// A copy of a list of strings.
pub fn copy_strings(v: &Vec<String>) -> (r: Vec<String>)
    ensures
        r.deep_view() == v.deep_view(),
{
    let mut r: Vec<String> = Vec::new();
    let mut i: usize = 0;
    while i < v.len()
        invariant
            i <= v.len(),
            r.deep_view() == v.deep_view().take(i as int),
        decreases v.len() - i,
    {
        let ghost before = r.deep_view();
        r.push(v[i].clone());
        assert(r.deep_view() =~= before.push(v@[i as int]@));
        assert(v.deep_view().take(i + 1) =~= v.deep_view().take(i as int).push(v@[i as int]@));
        i += 1;
    }
    assert(v.deep_view().take(v.len() as int) =~= v.deep_view());
    r
}

/// Whether `note` is among `list`.
fn has_string(list: &Vec<String>, note: &String) -> (b: bool)
    ensures
        b == list.deep_view().contains(note@),
{
    let n = chars_of(note.as_str());
    let mut i: usize = 0;
    while i < list.len()
        invariant
            i <= list.len(),
            n@ == note@,
            forall|j: int| 0 <= j < i ==> list.deep_view()[j] != note@,
        decreases list.len() - i,
    {
        let c = chars_of(list[i].as_str());
        assert(list.deep_view()[i as int] == list@[i as int]@);
        if same_chars(&c, &n) {
            return true;
        }
        i += 1;
    }
    false
}

impl Task {
    /// Reads a task from its file's fields; the name is given by the caller
    /// (the file name is the task name). A journal, gates or artifacts field
    /// of the wrong shape reads as empty; gate items and artifact entries that
    /// are not strings are dropped.
    pub fn of(name: &str, payload: &Yaml) -> (t: Task)
        ensures
            t@ == task_from(name@, payload@),
            sorted_names(t@.artifacts),
    {
        let mut journal: Vec<JournalEvent> = Vec::new();
        let ghost log = items_under(payload@, "log"@);
        match payload.get("log") {
            Some(v) => match v.as_sequence() {
                Some(list) => {
                    proof {
                        lemma_seq_model(list@);
                    }
                    let mut i: usize = 0;
                    while i < list.len()
                        invariant
                            i <= list.len(),
                            log == seq_model(list@),
                            log.len() == list.len(),
                            forall|j: int| 0 <= j < list.len() ==> #[trigger] log[j] == list@[j]@,
                            journal_model(journal@) == log.take(i as int).map_values(
                                |e: Node| event_from(e),
                            ),
                        decreases list.len() - i,
                    {
                        let e = JournalEvent::of(&list[i]);
                        let ghost before = journal@;
                        journal.push(e);
                        assert(journal_model(journal@) =~= journal_model(before).push(e@));
                        assert(log.take(i + 1) =~= log.take(i as int).push(log[i as int]));
                        assert(journal_model(journal@) =~= log.take(i + 1).map_values(
                            |e: Node| event_from(e),
                        ));
                        i += 1;
                    }
                    assert(log.take(list.len() as int) =~= log);
                },
                None => {},
            },
            None => {},
        }
        assert(journal_model(journal@) =~= log.map_values(|e: Node| event_from(e)));
        let mut gates: Vec<String> = Vec::new();
        let ghost gs = items_under(payload@, "gates"@);
        match payload.get("gates") {
            Some(v) => match v.as_sequence() {
                Some(list) => {
                    proof {
                        lemma_seq_model(list@);
                    }
                    let mut i: usize = 0;
                    while i < list.len()
                        invariant
                            i <= list.len(),
                            gs == seq_model(list@),
                            gs.len() == list.len(),
                            forall|j: int| 0 <= j < list.len() ==> #[trigger] gs[j] == list@[j]@,
                            gates.deep_view() == string_items(gs.take(i as int)),
                        decreases list.len() - i,
                    {
                        assert(gs.take(i + 1).drop_last() =~= gs.take(i as int));
                        assert(gs.take(i + 1).last() == list@[i as int]@);
                        match list[i].as_str() {
                            Some(s) => {
                                let ghost before = gates.deep_view();
                                gates.push(s.clone());
                                assert(gates.deep_view() =~= before.push(s@));
                                assert(gates.deep_view() =~= string_items(gs.take(i + 1)));
                            },
                            None => {
                                assert(gates.deep_view() =~= string_items(gs.take(i + 1)));
                            },
                        }
                        i += 1;
                    }
                    assert(gs.take(list.len() as int) =~= gs);
                },
                None => {
                    assert(gates.deep_view() =~= string_items(gs));
                },
            },
            None => {
                assert(gates.deep_view() =~= string_items(gs));
            },
        }
        let mut artifacts: Vec<(String, String)> = Vec::new();
        match payload.get("artifacts") {
            Some(v) => match v.as_mapping() {
                Some(entries) => {
                    let ghost es = entries_model(entries@);
                    proof {
                        lemma_entries_model(entries@);
                    }
                    let mut i: usize = 0;
                    assert(pairs_model(artifacts@) =~= landings_from(es.take(0)));
                    while i < entries.len()
                        invariant
                            i <= entries.len(),
                            es == entries_model(entries@),
                            es.len() == entries.len(),
                            forall|j: int|
                                0 <= j < entries.len() ==> #[trigger] es[j] == (
                                    entries@[j].0@,
                                    entries@[j].1@,
                                ),
                            pairs_model(artifacts@) == landings_from(es.take(i as int)),
                        decreases entries.len() - i,
                    {
                        assert(es.take(i + 1).drop_last() =~= es.take(i as int));
                        assert(es.take(i + 1).last() == es[i as int]);
                        match (entries[i].0.as_str(), entries[i].1.as_str()) {
                            (Some(k), Some(p)) => {
                                insert_landing(&mut artifacts, k.clone(), p.clone());
                            },
                            _ => {},
                        }
                        i += 1;
                    }
                    assert(es.take(entries.len() as int) =~= es);
                },
                None => {
                    assert(pairs_model(artifacts@) =~= artifacts_from(payload@));
                },
            },
            None => {
                assert(pairs_model(artifacts@) =~= artifacts_from(payload@));
            },
        }
        proof {
            match get(payload@, "artifacts"@) {
                Some(v) => match as_mapping(v) {
                    Some(entries) => lemma_landings_sorted(entries),
                    None => {},
                },
                None => {},
            }
        }
        Task {
            name: String::from_str(name),
            workflow_name: text_of(payload, "workflow"),
            start: text_of(payload, "start"),
            context: RunContext::of(payload),
            journal,
            gates,
            artifacts,
        }
    }

    /// A copy.
    pub fn copy(&self) -> (t: Task)
        ensures
            t@ == self@,
    {
        Task {
            name: self.name.clone(),
            workflow_name: self.workflow_name.clone(),
            start: self.start.clone(),
            context: self.context.copy(),
            journal: copy_journal(&self.journal),
            gates: copy_strings(&self.gates),
            artifacts: copy_pairs(&self.artifacts),
        }
    }

    /// Where this kind of artifact is declared to land, trimmed; `None` when
    /// nothing (or only white space) is declared.
    pub fn declared(&self, kind: &str) -> (r: Option<String>)
        ensures
            match r {
                Some(p) => declared_for(self@, kind@) == Some(p@),
                None => declared_for(self@, kind@) is None,
            },
    {
        match declared_in(&self.artifacts, kind) {
            Some(p) => {
                let c = chars_of(p.as_str());
                let t = trim_chars(&c);
                if t.len() == 0 {
                    None
                } else {
                    Some(string_of(&t))
                }
            },
            None => None,
        }
    }

    /// The same as [`Task::declared`]: where this kind of artifact is
    /// declared to land.
    pub fn product(&self, kind: &str) -> (r: Option<String>)
        ensures
            match r {
                Some(p) => declared_for(self@, kind@) == Some(p@),
                None => declared_for(self@, kind@) is None,
            },
    {
        self.declared(kind)
    }

    /// Where this run writes this kind of artifact: the log is the task file
    /// itself (`tasks/<task>.yaml` in the data store); a declared path is
    /// taken as declared when absolute and under the workspace root otherwise;
    /// anything else lands at `artifacts/<kind>/<task>.md` in the data store.
    pub fn artifact(&self, kind: &str, context: &RunContext) -> (r: String)
        ensures
            r@ == landing(self@, kind@, context@),
    {
        let k = chars_of(kind);
        if same_str(&k, "log") {
            let mut rest = chars_of("tasks/");
            push_str(&mut rest, self.name.as_str());
            push_str(&mut rest, ".yaml");
            let d = chars_of(context.data.as_str());
            let s = string_of(&rest);
            let r = join_chars(&d, s.as_str());
            return string_of(&r);
        }
        match self.declared(kind) {
            Some(w) => {
                let wc = chars_of(w.as_str());
                if wc.len() > 0 && wc[0] == '/' {
                    w
                } else {
                    let root = chars_of(context.root.as_str());
                    let r = join_chars(&root, w.as_str());
                    string_of(&r)
                }
            },
            None => {
                let mut rest = chars_of("artifacts/");
                push_str(&mut rest, kind);
                push_str(&mut rest, "/");
                push_str(&mut rest, self.name.as_str());
                push_str(&mut rest, ".md");
                let d = chars_of(context.data.as_str());
                let s = string_of(&rest);
                let r = join_chars(&d, s.as_str());
                string_of(&r)
            },
        }
    }

    /// Records one journal entry. The journal is only ever appended to, so a
    /// new task comes back and this one is left as it was.
    pub fn recorded(&self, at: &str, step: &str, detail: &str, ok: bool) -> (t: Task)
        ensures
            t@ == (TaskModel {
                journal: self@.journal.push(
                    JournalEventModel { at: at@, step: step@, detail: detail@, ok },
                ),
                ..self@
            }),
    {
        let mut t = self.copy();
        let e = JournalEvent {
            at: String::from_str(at),
            step: String::from_str(step),
            detail: String::from_str(detail),
            ok,
        };
        let ghost before = t.journal@;
        t.journal.push(e);
        assert(journal_model(t.journal@) =~= journal_model(before).push(e@));
        t
    }

    /// Records the notes as gates, each only when not already there; a new
    /// task comes back.
    pub fn with_gates(&self, notes: &[String]) -> (t: Task)
        ensures
            t@ == (TaskModel { gates: gates_with(self@.gates, notes.deep_view()), ..self@ }),
    {
        let mut t = self.copy();
        let mut i: usize = 0;
        while i < notes.len()
            invariant
                i <= notes.len(),
                t@ == (TaskModel {
                    gates: gates_with(self@.gates, notes.deep_view().take(i as int)),
                    ..self@
                }),
            decreases notes.len() - i,
        {
            let note = &notes[i];
            assert(notes.deep_view().take(i + 1).drop_last() =~= notes.deep_view().take(i as int));
            assert(notes.deep_view()[i as int] == note@);
            if !has_string(&t.gates, note) {
                let ghost before = t.gates.deep_view();
                t.gates.push(note.clone());
                assert(t.gates.deep_view() =~= before.push(note@));
            }
            i += 1;
        }
        assert(notes.deep_view().take(notes.len() as int) =~= notes.deep_view());
        t
    }

    /// Written back in the shape a task file uses.
    pub fn to_yaml(&self) -> (r: Yaml)
        ensures
            r@ == task_node(self@),
    {
        let mut entries: Vec<(Yaml, Yaml)> = Vec::new();
        push_text_entry(&mut entries, "name", self.name.as_str());
        push_text_entry(&mut entries, "start", self.start.as_str());
        push_text_entry(&mut entries, "workflow", self.workflow_name.as_str());
        let ghost t = self@;
        let mut log: Vec<Yaml> = Vec::new();
        let mut i: usize = 0;
        while i < self.journal.len()
            invariant
                i <= self.journal.len(),
                t == self@,
                seq_model(log@) == t.journal.take(i as int).map_values(
                    |e: JournalEventModel| event_node(e),
                ),
            decreases self.journal.len() - i,
        {
            let v = self.journal[i].to_yaml();
            proof {
                lemma_seq_model_push(log@, v);
            }
            log.push(v);
            assert(t.journal.take(i + 1) =~= t.journal.take(i as int).push(t.journal[i as int]));
            assert(seq_model(log@) =~= t.journal.take(i + 1).map_values(
                |e: JournalEventModel| event_node(e),
            ));
            i += 1;
        }
        assert(t.journal.take(self.journal.len() as int) =~= t.journal);
        push_entry(&mut entries, "log", Yaml::Sequence(log));
        let mut gates: Vec<Yaml> = Vec::new();
        let mut i: usize = 0;
        while i < self.gates.len()
            invariant
                i <= self.gates.len(),
                t == self@,
                seq_model(gates@) == t.gates.take(i as int).map_values(
                    |g: Seq<char>| Node::String(g),
                ),
            decreases self.gates.len() - i,
        {
            let v = Yaml::String(self.gates[i].clone());
            proof {
                lemma_seq_model_push(gates@, v);
            }
            gates.push(v);
            assert(t.gates[i as int] == self.gates@[i as int]@);
            assert(t.gates.take(i + 1) =~= t.gates.take(i as int).push(t.gates[i as int]));
            assert(seq_model(gates@) =~= t.gates.take(i + 1).map_values(
                |g: Seq<char>| Node::String(g),
            ));
            i += 1;
        }
        assert(t.gates.take(self.gates.len() as int) =~= t.gates);
        push_entry(&mut entries, "gates", Yaml::Sequence(gates));
        let mut landings: Vec<(Yaml, Yaml)> = Vec::new();
        let mut i: usize = 0;
        while i < self.artifacts.len()
            invariant
                i <= self.artifacts.len(),
                t == self@,
                entries_model(landings@) == t.artifacts.take(i as int).map_values(
                    |p: (Seq<char>, Seq<char>)| str_entry(p.0, p.1),
                ),
            decreases self.artifacts.len() - i,
        {
            push_text_entry(&mut landings, self.artifacts[i].0.as_str(), self.artifacts[i].1.as_str());
            assert(t.artifacts[i as int] == (self.artifacts@[i as int].0@, self.artifacts@[i as int].1@));
            assert(t.artifacts.take(i + 1) =~= t.artifacts.take(i as int).push(t.artifacts[i as int]));
            assert(entries_model(landings@) =~= t.artifacts.take(i + 1).map_values(
                |p: (Seq<char>, Seq<char>)| str_entry(p.0, p.1),
            ));
            i += 1;
        }
        assert(t.artifacts.take(self.artifacts.len() as int) =~= t.artifacts);
        push_entry(&mut entries, "artifacts", Yaml::Mapping(landings));
        self.context.push_entries(&mut entries);
        assert(entries_model(entries@) =~= match task_node(self@) {
            Node::Mapping(e) => e,
            _ => Seq::empty(),
        });
        Yaml::Mapping(entries)
    }
}

/// The gates recorded: each note is among them afterwards, the gates that
/// were there stay first and in order, and nothing is recorded twice — gates
/// without repeats stay without repeats.
pub proof fn law_gates_recorded_once(gates: Seq<Seq<char>>, notes: Seq<Seq<char>>)
    ensures
        forall|i: int| 0 <= i < notes.len() ==> gates_with(gates, notes).contains(#[trigger] notes[i]),
        gates_with(gates, notes).take(gates.len() as int) == gates,
        gates.len() <= gates_with(gates, notes).len(),
        (forall|i: int, j: int| 0 <= i < j < gates.len() ==> #[trigger] gates[i] != #[trigger] gates[j])
            ==> (forall|i: int, j: int|
            0 <= i < j < gates_with(gates, notes).len() ==> #[trigger] gates_with(gates, notes)[i]
                != #[trigger] gates_with(gates, notes)[j]),
    decreases notes.len(),
{
    if notes.len() > 0 {
        let d = notes.drop_last();
        law_gates_recorded_once(gates, d);
        let g = gates_with(gates, d);
        let r = gates_with(gates, notes);
        let note = notes.last();
        assert(r == add_gate(g, note));
        assert forall|i: int| 0 <= i < notes.len() implies r.contains(#[trigger] notes[i]) by {
            if i < notes.len() - 1 {
                assert(d[i] == notes[i]);
                assert(g.contains(d[i]));
                if !g.contains(note) {
                    let k = choose|k: int| 0 <= k < g.len() && g[k] == d[i];
                    assert(r[k] == g[k]);
                }
            } else {
                if !g.contains(note) {
                    assert(r[g.len() as int] == note);
                }
            }
        }
        if !g.contains(note) {
            assert(r.take(gates.len() as int) =~= g.take(gates.len() as int));
            if forall|i: int, j: int| 0 <= i < j < gates.len() ==> #[trigger] gates[i] != #[trigger] gates[j] {
                assert forall|i: int, j: int| 0 <= i < j < r.len() implies #[trigger] r[i]
                    != #[trigger] r[j] by {
                    if j == r.len() - 1 {
                        assert(r[i] == g[i]);
                        assert(g.contains(g[i]));
                    } else {
                        assert(r[i] == g[i] && r[j] == g[j]);
                    }
                }
            }
        }
    } else {
        assert(gates.take(gates.len() as int) =~= gates);
    }
}

/// Recording the same notes again changes nothing.
pub proof fn law_gates_idempotent(gates: Seq<Seq<char>>, notes: Seq<Seq<char>>)
    ensures
        gates_with(gates_with(gates, notes), notes) == gates_with(gates, notes),
    decreases notes.len(),
{
    law_gates_recorded_once(gates, notes);
    lemma_gates_kept(gates_with(gates, notes), notes);
}

/// Notes already among the gates change nothing.
proof fn lemma_gates_kept(gates: Seq<Seq<char>>, notes: Seq<Seq<char>>)
    requires
        forall|i: int| 0 <= i < notes.len() ==> gates.contains(#[trigger] notes[i]),
    ensures
        gates_with(gates, notes) == gates,
    decreases notes.len(),
{
    if notes.len() > 0 {
        let d = notes.drop_last();
        assert forall|i: int| 0 <= i < d.len() implies gates.contains(#[trigger] d[i]) by {
            assert(d[i] == notes[i]);
        }
        lemma_gates_kept(gates, d);
        assert(gates.contains(notes[notes.len() - 1]));
    }
}

} // verus!
