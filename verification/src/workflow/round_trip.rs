//! Writing a definition back and checking it again: a definition that could
//! have been read is written in a shape that reads back to the same workflow
//! and passes the same checks.

use super::model::{StepModel, WorkflowModel, step_from, step_node, workflow_from, workflow_node};
use super::validate::{definition_check, first_criterion_fault, first_step_fault, listed_criteria, listed_steps, step_check};
use crate::criterion::model::{CriterionModel, criterion_node};
use crate::criterion::read::{criterion_from, law_criterion_round_trip, lemma_names_distinct, read_from, round_trips};
use crate::executor::{AGENT, HUMAN, RULE};
use crate::fields::{CRITERION_FIELDS, STEP_FIELDS, TOP_FIELDS};
use crate::text::trimmed;
use crate::yaml::{Node, field_text, get, lookup, unknown_keys};
use vstd::prelude::*;

verus! {

/// A criterion a definition can hold: it reads back as written, and an agent
/// or human criterion says what it judges.
pub open spec fn criterion_definable(c: CriterionModel) -> bool {
    &&& round_trips(c)
    &&& match c {
        CriterionModel::AgentJudgement { description } => description.len() > 0,
        CriterionModel::HumanGate { description } => description.len() > 0,
        _ => true,
    }
}

/// A step a definition can hold: a trimmed name that is written, a trimmed
/// description, an agent or a human doing it, and criteria it can hold.
pub open spec fn step_definable(s: StepModel) -> bool {
    &&& s.name.len() > 0
    &&& trimmed(s.name)
    &&& trimmed(s.description)
    &&& (s.executor == AGENT@ || s.executor == HUMAN@)
    &&& forall|i: int| 0 <= i < s.criteria.len() ==> criterion_definable(#[trigger] s.criteria[i])
}

/// A workflow a definition can describe: a trimmed name that is written, a
/// trimmed description, and at least one step, each one it can hold.
pub open spec fn definable(w: WorkflowModel) -> bool {
    &&& w.name.len() > 0
    &&& trimmed(w.name)
    &&& trimmed(w.description)
    &&& w.steps.len() > 0
    &&& forall|i: int| 0 <= i < w.steps.len() ==> step_definable(#[trigger] w.steps[i])
}

/// The three field tables, name by name.
proof fn lemma_tables()
    ensures
        CRITERION_FIELDS@.map_values(|s: &str| s@) == seq![
            "executor"@,
            "description"@,
            "path"@,
            "absent"@,
            "file"@,
            "contains"@,
            "run"@,
        ],
        STEP_FIELDS@.map_values(|s: &str| s@) == seq![
            "name"@,
            "description"@,
            "executor"@,
            "criteria"@,
        ],
        TOP_FIELDS@.map_values(|s: &str| s@) == seq!["name"@, "description"@, "steps"@],
{
    let c = CRITERION_FIELDS@.map_values(|s: &str| s@);
    assert(c =~= seq!["executor"@, "description"@, "path"@, "absent"@, "file"@, "contains"@, "run"@]);
    let s = STEP_FIELDS@.map_values(|s: &str| s@);
    assert(s =~= seq!["name"@, "description"@, "executor"@, "criteria"@]);
    let t = TOP_FIELDS@.map_values(|s: &str| s@);
    assert(t =~= seq!["name"@, "description"@, "steps"@]);
}

/// The step and top field names, told apart.
proof fn lemma_step_names()
    ensures
        "name"@ != "description"@,
        "name"@ != "executor"@,
        "name"@ != "criteria"@,
        "name"@ != "steps"@,
        "description"@ != "executor"@,
        "description"@ != "criteria"@,
        "description"@ != "steps"@,
        "executor"@ != "criteria"@,
        AGENT@.len() > 0,
        HUMAN@.len() > 0,
{
    reveal_strlit("agent");
    reveal_strlit("human");
    reveal_strlit("name");
    reveal_strlit("description");
    reveal_strlit("executor");
    reveal_strlit("criteria");
    reveal_strlit("steps");
    assert("name"@.len() == 4);
    assert("description"@.len() == 11);
    assert("executor"@.len() == 8);
    assert("steps"@.len() == 5);
    assert("executor"@[0] != "criteria"@[0]);
}

/// A criterion a definition can hold reads back, wherever it stands.
pub proof fn lemma_criterion_reads(c: CriterionModel, position: usize, order: usize)
    requires
        criterion_definable(c),
    ensures
        read_from(criterion_node(c), position, order) == Ok::<CriterionModel, crate::error::DefinitionErrorModel>(c),
{
    lemma_names_distinct();
    lemma_tables();
    law_criterion_round_trip(c);
    reveal_with_fuel(lookup, 5);
    reveal_with_fuel(unknown_keys, 5);
    let n = criterion_node(c);
    let e = match n {
        Node::Mapping(e) => e,
        _ => Seq::empty(),
    };
    let table = CRITERION_FIELDS@.map_values(|s: &str| s@);
    assert(table[0] == "executor"@);
    assert(table[1] == "description"@);
    assert(table[2] == "path"@);
    assert(table[3] == "absent"@);
    assert(table[4] == "file"@);
    assert(table[5] == "contains"@);
    assert(table[6] == "run"@);
    assert(unknown_keys(e, table) =~= Seq::<Seq<char>>::empty());
    match c {
        CriterionModel::AgentJudgement { description } => {
            assert(field_text(n, "executor"@) == AGENT@);
            assert(get(n, "path"@) is None);
            assert(get(n, "absent"@) is None);
            assert(get(n, "file"@) is None);
            assert(get(n, "contains"@) is None);
            assert(get(n, "run"@) is None);
        },
        CriterionModel::HumanGate { description } => {
            assert(field_text(n, "executor"@) == HUMAN@);
            assert(get(n, "path"@) is None);
            assert(get(n, "absent"@) is None);
            assert(get(n, "file"@) is None);
            assert(get(n, "contains"@) is None);
            assert(get(n, "run"@) is None);
        },
        CriterionModel::PathExists { .. } => {
            assert(field_text(n, "executor"@) == RULE@);
            assert(get(n, "path"@) is Some);
            assert(get(n, "absent"@) is None);
            assert(get(n, "file"@) is None);
            assert(get(n, "contains"@) is None);
            assert(get(n, "run"@) is None);
        },
        CriterionModel::PathAbsent { .. } => {
            assert(field_text(n, "executor"@) == RULE@);
            assert(get(n, "path"@) is None);
            assert(get(n, "absent"@) is Some);
            assert(get(n, "file"@) is None);
            assert(get(n, "contains"@) is None);
            assert(get(n, "run"@) is None);
        },
        CriterionModel::FileContains { .. } => {
            assert(field_text(n, "executor"@) == RULE@);
            assert(get(n, "path"@) is None);
            assert(get(n, "absent"@) is None);
            assert(get(n, "file"@) is Some);
            assert(get(n, "contains"@) is Some);
            assert(get(n, "run"@) is None);
        },
        CriterionModel::CommandRun { .. } => {
            assert(field_text(n, "executor"@) == RULE@);
            assert(get(n, "path"@) is None);
            assert(get(n, "absent"@) is None);
            assert(get(n, "file"@) is None);
            assert(get(n, "contains"@) is None);
            assert(get(n, "run"@) is Some);
        },
    }
}

/// No criterion from index `k` on fails to read.
proof fn lemma_no_criterion_fault(cs: Seq<CriterionModel>, position: usize, k: int)
    requires
        0 <= k,
        forall|i: int| 0 <= i < cs.len() ==> criterion_definable(#[trigger] cs[i]),
    ensures
        first_criterion_fault(cs.map_values(|c: CriterionModel| criterion_node(c)), position, k)
            is None,
    decreases cs.len() - k,
{
    let items = cs.map_values(|c: CriterionModel| criterion_node(c));
    if k < cs.len() {
        lemma_criterion_reads(cs[k], position, (k + 1) as usize);
        assert(items[k] == criterion_node(cs[k]));
        lemma_no_criterion_fault(cs, position, k + 1);
    }
}

/// A step a definition can hold is written in a shape that passes the step
/// check and reads back to the same step.
pub proof fn lemma_step_round_trip(s: StepModel, position: usize)
    requires
        step_definable(s),
    ensures
        step_check(step_node(s), position) == Ok::<(), crate::error::DefinitionErrorModel>(()),
        step_from(step_node(s)) == s,
{
    lemma_names_distinct();
    lemma_step_names();
    lemma_tables();
    reveal_with_fuel(lookup, 5);
    reveal_with_fuel(unknown_keys, 5);
    let n = step_node(s);
    let e = match n {
        Node::Mapping(e) => e,
        _ => Seq::empty(),
    };
    let table = STEP_FIELDS@.map_values(|x: &str| x@);
    assert(table[0] == "name"@);
    assert(table[1] == "description"@);
    assert(table[2] == "executor"@);
    assert(table[3] == "criteria"@);
    assert(unknown_keys(e, table) =~= Seq::<Seq<char>>::empty());
    assert(field_text(n, "name"@) == s.name);
    assert(field_text(n, "description"@) == s.description);
    assert(field_text(n, "executor"@) == s.executor);
    let items = s.criteria.map_values(|c: CriterionModel| criterion_node(c));
    if s.criteria.len() > 0 {
        assert(get(n, "criteria"@) == Some(Node::Sequence(items)));
    } else {
        assert(get(n, "criteria"@) is None);
        assert(items =~= Seq::<Node>::empty());
    }
    assert(listed_criteria(n) == Some(items));
    lemma_no_criterion_fault(s.criteria, position, 0);
    let read = items.map_values(|c: Node| criterion_from(c));
    assert forall|i: int| 0 <= i < s.criteria.len() implies #[trigger] read[i] == s.criteria[i] by {
        law_criterion_round_trip(s.criteria[i]);
    }
    assert(read =~= s.criteria);
}

/// No step from index `k` on fails its check.
proof fn lemma_no_step_fault(steps: Seq<StepModel>, k: int)
    requires
        0 <= k,
        forall|i: int| 0 <= i < steps.len() ==> step_definable(#[trigger] steps[i]),
    ensures
        first_step_fault(steps.map_values(|s: StepModel| step_node(s)), k) is None,
    decreases steps.len() - k,
{
    let items = steps.map_values(|s: StepModel| step_node(s));
    if k < steps.len() {
        lemma_step_round_trip(steps[k], (k + 1) as usize);
        assert(items[k] == step_node(steps[k]));
        lemma_no_step_fault(steps, k + 1);
    }
}

/// A workflow written back passes the definition check and reads back as the
/// same workflow — named by its written `name` — provided a definition can
/// describe it.
pub proof fn law_workflow_round_trip(w: WorkflowModel)
    requires
        definable(w),
    ensures
        definition_check(workflow_node(w)) == Ok::<(), crate::error::DefinitionErrorModel>(()),
        workflow_from(field_text(workflow_node(w), "name"@), workflow_node(w)) == w,
{
    lemma_step_names();
    lemma_tables();
    reveal_with_fuel(lookup, 4);
    reveal_with_fuel(unknown_keys, 4);
    let n = workflow_node(w);
    let e = match n {
        Node::Mapping(e) => e,
        _ => Seq::empty(),
    };
    let table = TOP_FIELDS@.map_values(|x: &str| x@);
    assert(table[0] == "name"@);
    assert(table[1] == "description"@);
    assert(table[2] == "steps"@);
    assert(unknown_keys(e, table) =~= Seq::<Seq<char>>::empty());
    assert(field_text(n, "name"@) == w.name);
    assert(field_text(n, "description"@) == w.description);
    let items = w.steps.map_values(|s: StepModel| step_node(s));
    assert(get(n, "steps"@) == Some(Node::Sequence(items)));
    assert(listed_steps(n) == Some(items));
    lemma_no_step_fault(w.steps, 0);
    let read = items.map_values(|s: Node| step_from(s));
    assert forall|i: int| 0 <= i < w.steps.len() implies #[trigger] read[i] == w.steps[i] by {
        lemma_step_round_trip(w.steps[i], 1);
    }
    assert(read =~= w.steps);
}

} // verus!
