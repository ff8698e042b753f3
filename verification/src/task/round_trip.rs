//! Writing a task back and reading it again: the journal entry, the run
//! context and the task each read back as written, as long as what reading
//! trims is already trimmed and the landings are kept in name order.

use super::context::{RunContextModel, context_entries, context_from};
use super::journal::{JournalEventModel, event_from, event_node, ok_from};
use super::landings::{
    insert_sorted, landings_from, lemma_landings_sorted, lemma_text_lt_asymmetric, lemma_text_lt_irreflexive,
    sorted_names, text_lt,
};
use super::model::{TaskModel, artifacts_from, string_items, task_from, task_node};
use crate::text::trimmed;
use crate::workflow::model::items_under;
use crate::yaml::{Node, as_mapping, field_text, get, lemma_field_text_trimmed, lookup, str_entry};
use vstd::prelude::*;

verus! {

/// The field names of a task file, told apart.
proof fn lemma_task_names()
    ensures
        "at"@ != "step"@,
        "at"@ != "detail"@,
        "at"@ != "ok"@,
        "step"@ != "detail"@,
        "step"@ != "ok"@,
        "detail"@ != "ok"@,
        "root"@ != "data"@,
        "root"@ != "workflows"@,
        "data"@ != "workflows"@,
        "name"@ != "start"@,
        "name"@ != "workflow"@,
        "name"@ != "log"@,
        "name"@ != "gates"@,
        "name"@ != "artifacts"@,
        "name"@ != "root"@,
        "name"@ != "data"@,
        "name"@ != "workflows"@,
        "start"@ != "workflow"@,
        "start"@ != "log"@,
        "start"@ != "gates"@,
        "start"@ != "artifacts"@,
        "start"@ != "root"@,
        "start"@ != "data"@,
        "start"@ != "workflows"@,
        "workflow"@ != "log"@,
        "workflow"@ != "gates"@,
        "workflow"@ != "artifacts"@,
        "workflow"@ != "root"@,
        "workflow"@ != "data"@,
        "workflow"@ != "workflows"@,
        "log"@ != "gates"@,
        "log"@ != "artifacts"@,
        "log"@ != "root"@,
        "log"@ != "data"@,
        "log"@ != "workflows"@,
        "gates"@ != "artifacts"@,
        "gates"@ != "root"@,
        "gates"@ != "data"@,
        "gates"@ != "workflows"@,
        "artifacts"@ != "root"@,
        "artifacts"@ != "data"@,
        "artifacts"@ != "workflows"@,
{
    reveal_strlit("at");
    reveal_strlit("step");
    reveal_strlit("detail");
    reveal_strlit("ok");
    reveal_strlit("root");
    reveal_strlit("data");
    reveal_strlit("workflows");
    reveal_strlit("name");
    reveal_strlit("start");
    reveal_strlit("workflow");
    reveal_strlit("log");
    reveal_strlit("gates");
    reveal_strlit("artifacts");
    assert("at"@.len() == 2);
    assert("step"@.len() == 4);
    assert("detail"@.len() == 6);
    assert("ok"@.len() == 2);
    assert("root"@.len() == 4);
    assert("data"@.len() == 4);
    assert("workflows"@.len() == 9);
    assert("name"@.len() == 4);
    assert("start"@.len() == 5);
    assert("workflow"@.len() == 8);
    assert("log"@.len() == 3);
    assert("gates"@.len() == 5);
    assert("artifacts"@.len() == 9);
    assert("at"@[0] != "ok"@[0]);
    assert("root"@[0] != "data"@[0]);
    assert("name"@[0] != "root"@[0]);
    assert("name"@[0] != "data"@[0]);
    assert("start"@[0] != "gates"@[0]);
    assert("artifacts"@[0] != "workflows"@[0]);
}

/// A journal entry with trimmed texts reads back as written.
pub proof fn law_event_round_trip(e: JournalEventModel)
    requires
        trimmed(e.at),
        trimmed(e.step),
        trimmed(e.detail),
    ensures
        event_from(event_node(e)) == e,
{
    lemma_task_names();
    reveal_with_fuel(lookup, 5);
    let n = event_node(e);
    assert(field_text(n, "at"@) == e.at);
    assert(field_text(n, "step"@) == e.step);
    assert(field_text(n, "detail"@) == e.detail);
    assert(ok_from(n) == e.ok);
}

/// A run context with trimmed places reads back as written.
pub proof fn law_context_round_trip(c: RunContextModel)
    requires
        trimmed(c.root),
        trimmed(c.data),
        trimmed(c.workflows),
    ensures
        context_from(Node::Mapping(context_entries(c))) == c,
{
    lemma_task_names();
    reveal_with_fuel(lookup, 4);
    let n = Node::Mapping(context_entries(c));
    assert(field_text(n, "root"@) == c.root);
    assert(field_text(n, "data"@) == c.data);
    assert(field_text(n, "workflows"@) == c.workflows);
}

/// Gates written as strings read back as the same gates.
proof fn lemma_string_items(gs: Seq<Seq<char>>)
    ensures
        string_items(gs.map_values(|g: Seq<char>| Node::String(g))) == gs,
    decreases gs.len(),
{
    if gs.len() > 0 {
        let items = gs.map_values(|g: Seq<char>| Node::String(g));
        assert(items.drop_last() =~= gs.drop_last().map_values(|g: Seq<char>| Node::String(g)));
        lemma_string_items(gs.drop_last());
        assert(gs =~= gs.drop_last().push(gs.last()));
    }
}

/// A name after every name in the map is set at the end.
proof fn lemma_insert_last(m: Seq<(Seq<char>, Seq<char>)>, k: Seq<char>, p: Seq<char>)
    requires
        forall|j: int| 0 <= j < m.len() ==> text_lt(#[trigger] m[j].0, k),
    ensures
        insert_sorted(m, k, p) == m.push((k, p)),
    decreases m.len(),
{
    if m.len() > 0 {
        lemma_text_lt_irreflexive(k);
        lemma_text_lt_asymmetric(m[0].0, k);
        assert(text_lt(m[0].0, k));
        let rest = m.drop_first();
        assert forall|j: int| 0 <= j < rest.len() implies text_lt(#[trigger] rest[j].0, k) by {
            assert(rest[j] == m[j + 1]);
        }
        lemma_insert_last(rest, k, p);
        assert(seq![m[0]] + rest.push((k, p)) =~= m.push((k, p)));
    }
}

/// Landings in name order, written out, read back as the same landings.
proof fn lemma_landings_read_back(m: Seq<(Seq<char>, Seq<char>)>)
    requires
        sorted_names(m),
    ensures
        landings_from(m.map_values(|q: (Seq<char>, Seq<char>)| str_entry(q.0, q.1))) == m,
    decreases m.len(),
{
    if m.len() > 0 {
        let d = m.drop_last();
        let entries = m.map_values(|q: (Seq<char>, Seq<char>)| str_entry(q.0, q.1));
        assert(entries.drop_last() =~= d.map_values(|q: (Seq<char>, Seq<char>)| str_entry(q.0, q.1)));
        assert(sorted_names(d)) by {
            assert forall|i: int, j: int| 0 <= i < j < d.len() implies text_lt(
                #[trigger] d[i].0,
                #[trigger] d[j].0,
            ) by {
                assert(d[i] == m[i] && d[j] == m[j]);
            }
        }
        lemma_landings_read_back(d);
        assert forall|j: int| 0 <= j < d.len() implies text_lt(#[trigger] d[j].0, m.last().0) by {
            assert(d[j] == m[j]);
        }
        lemma_insert_last(d, m.last().0, m.last().1);
        assert(d.push((m.last().0, m.last().1)) =~= m);
    }
}

/// A task that reads back as written: its texts trimmed, each journal entry
/// trimmed, and its landings in name order, each name once.
pub open spec fn task_reads_back(t: TaskModel) -> bool {
    &&& trimmed(t.workflow_name)
    &&& trimmed(t.start)
    &&& trimmed(t.context.root)
    &&& trimmed(t.context.data)
    &&& trimmed(t.context.workflows)
    &&& forall|i: int|
        0 <= i < t.journal.len() ==> trimmed((#[trigger] t.journal[i]).at) && trimmed(
            t.journal[i].step,
        ) && trimmed(t.journal[i].detail)
    &&& sorted_names(t.artifacts)
}

/// A task written back and read again, under its own name, is the same task.
pub proof fn law_task_round_trip(t: TaskModel)
    requires
        task_reads_back(t),
    ensures
        task_from(t.name, task_node(t)) == t,
{
    lemma_task_names();
    reveal_with_fuel(lookup, 10);
    let n = task_node(t);
    assert(field_text(n, "workflow"@) == t.workflow_name);
    assert(field_text(n, "start"@) == t.start);
    assert(field_text(n, "root"@) == t.context.root);
    assert(field_text(n, "data"@) == t.context.data);
    assert(field_text(n, "workflows"@) == t.context.workflows);
    assert(context_from(n) == t.context);
    let log = t.journal.map_values(|e: JournalEventModel| event_node(e));
    assert(get(n, "log"@) == Some(Node::Sequence(log)));
    assert(items_under(n, "log"@) == log);
    let read = log.map_values(|e: Node| event_from(e));
    assert forall|i: int| 0 <= i < t.journal.len() implies #[trigger] read[i] == t.journal[i] by {
        law_event_round_trip(t.journal[i]);
    }
    assert(read =~= t.journal);
    let gates = t.gates.map_values(|g: Seq<char>| Node::String(g));
    assert(get(n, "gates"@) == Some(Node::Sequence(gates)));
    assert(items_under(n, "gates"@) == gates);
    lemma_string_items(t.gates);
    let landings = t.artifacts.map_values(|q: (Seq<char>, Seq<char>)| str_entry(q.0, q.1));
    assert(get(n, "artifacts"@) == Some(Node::Mapping(landings)));
    lemma_landings_read_back(t.artifacts);
    assert(artifacts_from(n) == t.artifacts);
}

/// Every task read from a file meets the round trip's condition: reading
/// trims its texts and keeps its landings in name order.
pub proof fn lemma_read_task_reads_back(name: Seq<char>, n: Node)
    ensures
        task_reads_back(task_from(name, n)),
{
    let t = task_from(name, n);
    lemma_field_text_trimmed(n, "workflow"@);
    lemma_field_text_trimmed(n, "start"@);
    lemma_field_text_trimmed(n, "root"@);
    lemma_field_text_trimmed(n, "data"@);
    lemma_field_text_trimmed(n, "workflows"@);
    let items = items_under(n, "log"@);
    assert forall|i: int| 0 <= i < t.journal.len() implies trimmed((#[trigger] t.journal[i]).at)
        && trimmed(t.journal[i].step) && trimmed(t.journal[i].detail) by {
        assert(t.journal[i] == event_from(items[i]));
        lemma_field_text_trimmed(items[i], "at"@);
        lemma_field_text_trimmed(items[i], "step"@);
        lemma_field_text_trimmed(items[i], "detail"@);
    }
    match get(n, "artifacts"@) {
        Some(v) => match as_mapping(v) {
            Some(entries) => lemma_landings_sorted(entries),
            None => {},
        },
        None => {},
    }
}

/// A task read from a file, written back and read again under the same name,
/// is the same task.
pub proof fn law_read_task_round_trip(name: Seq<char>, n: Node)
    ensures
        task_from(name, task_node(task_from(name, n))) == task_from(name, n),
{
    lemma_read_task_reads_back(name, n);
    law_task_round_trip(task_from(name, n));
}

} // verus!
