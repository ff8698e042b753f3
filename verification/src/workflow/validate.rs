//! Checking a whole definition: a missing field, a value out of range, a
//! field that is not known — each reported on the spot, first fault first.

use super::model::{Step, StepModel, Workflow, WorkflowModel, items_under, step_from, workflow_from};
use crate::criterion::read::{read_criterion, read_from};
use crate::error::{DefinitionError, DefinitionErrorModel, Fault, FaultModel, Position};
use crate::executor::{AGENT, HUMAN};
use crate::fields::{STEP_FIELDS, TOP_FIELDS, text_of, unknown_fields};
use crate::text::{chars_of, same_str, string_of};
use crate::yaml::{
    Node, Yaml, as_mapping, as_sequence, field_text, get, lemma_seq_model, seq_model, text_chars,
    unknown_keys,
};
use vstd::prelude::*;

verus! {

/// The error at a position.
pub open spec fn fault_at(p: Position, f: FaultModel) -> DefinitionErrorModel {
    DefinitionErrorModel { position: p, fault: f }
}

/// The first criterion, from index `k` on, that does not read.
pub open spec fn first_criterion_fault(items: Seq<Node>, position: usize, k: int) -> Option<
    DefinitionErrorModel,
>
    decreases items.len() - k,
{
    if k < 0 || k >= items.len() {
        None
    } else {
        match read_from(items[k], position, (k + 1) as usize) {
            Err(e) => Some(e),
            Ok(_) => first_criterion_fault(items, position, k + 1),
        }
    }
}

/// The criteria a step lists for checking: none when the field is missing or
/// null, the list when it is a sequence, and `None` when it is anything else.
pub open spec fn listed_criteria(n: Node) -> Option<Seq<Node>> {
    match get(n, "criteria"@) {
        None => Some(Seq::empty()),
        Some(Node::Null) => Some(Seq::empty()),
        Some(Node::Sequence(items)) => Some(items),
        Some(_) => None,
    }
}

/// Checking one step, the `position`-th: the first fault in this order — not
/// a mapping or no name; unknown fields; an executor other than agent or
/// human; criteria that are not a list; the first criterion that does not read.
pub open spec fn step_check(n: Node, position: usize) -> Result<(), DefinitionErrorModel> {
    let at = Position::Step(position);
    if as_mapping(n) is None || field_text(n, "name"@).len() == 0 {
        Err(fault_at(at, FaultModel::MissingStepName))
    } else if unknown_keys(as_mapping(n).unwrap(), STEP_FIELDS@.map_values(|s: &str| s@)).len() > 0 {
        Err(
            fault_at(
                at,
                FaultModel::UnknownStepFields(
                    unknown_keys(as_mapping(n).unwrap(), STEP_FIELDS@.map_values(|s: &str| s@)),
                ),
            ),
        )
    } else {
        let executor = super::model::executor_from(n);
        if !(executor == AGENT@ || executor == HUMAN@) {
            Err(fault_at(at, FaultModel::BadStepExecutor { got: executor }))
        } else {
            match listed_criteria(n) {
                None => Err(fault_at(at, FaultModel::CriteriaNotList)),
                Some(items) => match first_criterion_fault(items, position, 0) {
                    Some(e) => Err(e),
                    None => Ok(()),
                },
            }
        }
    }
}

/// The steps a definition lists: a non-empty sequence, or `None`.
pub open spec fn listed_steps(n: Node) -> Option<Seq<Node>> {
    match get(n, "steps"@) {
        Some(v) => match as_sequence(v) {
            Some(items) => if items.len() > 0 {
                Some(items)
            } else {
                None
            },
            None => None,
        },
        None => None,
    }
}

/// The first step, from index `k` on, that does not pass its check.
pub open spec fn first_step_fault(items: Seq<Node>, k: int) -> Option<DefinitionErrorModel>
    decreases items.len() - k,
{
    if k < 0 || k >= items.len() {
        None
    } else {
        match step_check(items[k], (k + 1) as usize) {
            Err(e) => Some(e),
            Ok(_) => first_step_fault(items, k + 1),
        }
    }
}

/// Checking a definition: the first fault in this order — the top is not a
/// mapping; no name; no steps (missing, empty, or not a list); unknown fields
/// at the top; the first step that does not pass.
pub open spec fn definition_check(n: Node) -> Result<(), DefinitionErrorModel> {
    if as_mapping(n) is None {
        Err(fault_at(Position::Top, FaultModel::TopNotMapping))
    } else if field_text(n, "name"@).len() == 0 {
        Err(fault_at(Position::Top, FaultModel::MissingName))
    } else if listed_steps(n) is None {
        Err(fault_at(Position::Top, FaultModel::MissingSteps))
    } else if unknown_keys(as_mapping(n).unwrap(), TOP_FIELDS@.map_values(|s: &str| s@)).len() > 0 {
        Err(
            fault_at(
                Position::Top,
                FaultModel::UnknownTopFields(
                    unknown_keys(as_mapping(n).unwrap(), TOP_FIELDS@.map_values(|s: &str| s@)),
                ),
            ),
        )
    } else {
        match first_step_fault(listed_steps(n).unwrap(), 0) {
            Some(e) => Err(e),
            None => Ok(()),
        }
    }
}

/// The view of a checking result.
pub open spec fn check_view(r: Result<(), DefinitionError>) -> Result<(), DefinitionErrorModel> {
    match r {
        Ok(()) => Ok(()),
        Err(e) => Err(e@),
    }
}

/// Checks each criterion in `items`, in order.
fn check_criteria(items: &Vec<Yaml>, position: usize) -> (r: Result<(), DefinitionError>)
    ensures
        check_view(r) == match first_criterion_fault(seq_model(items@), position, 0) {
            Some(e) => Err(e),
            None => Ok(()),
        },
{
    let ghost model = seq_model(items@);
    proof {
        lemma_seq_model(items@);
    }
    let mut i: usize = 0;
    while i < items.len()
        invariant
            i <= items.len(),
            model == seq_model(items@),
            model.len() == items.len(),
            forall|j: int| 0 <= j < items.len() ==> #[trigger] model[j] == items@[j]@,
            first_criterion_fault(model, position, 0) == first_criterion_fault(
                model,
                position,
                i as int,
            ),
        decreases items.len() - i,
    {
        let r = read_criterion(&items[i], position, i + 1);
        match r {
            Err(e) => {
                return Err(e);
            },
            Ok(_) => {},
        }
        i += 1;
    }
    Ok(())
}

/// Checks one step, the `position`-th (counted from 1).
pub fn validate_step(value: &Yaml, position: usize) -> (r: Result<(), DefinitionError>)
    ensures
        check_view(r) == step_check(value@, position),
{
    let at = Position::Step(position);
    let entries = match value.as_mapping() {
        Some(entries) => entries,
        None => {
            return Err(DefinitionError::new(at, Fault::MissingStepName));
        },
    };
    let name = text_chars(value, "name");
    if name.len() == 0 {
        return Err(DefinitionError::new(at, Fault::MissingStepName));
    }
    let extra = unknown_fields(entries, &STEP_FIELDS);
    assert(STEP_FIELDS@.map_values(|s: &str| s@) =~= (&STEP_FIELDS).deep_view());
    if extra.len() > 0 {
        return Err(DefinitionError::new(at, Fault::UnknownStepFields(extra)));
    }
    let mut executor = text_chars(value, "executor");
    if executor.len() == 0 {
        executor = chars_of(AGENT);
    }
    if !(same_str(&executor, AGENT) || same_str(&executor, HUMAN)) {
        return Err(DefinitionError::new(at, Fault::BadStepExecutor { got: string_of(&executor) }));
    }
    match value.get("criteria") {
        None => Ok(()),
        Some(Yaml::Null) => Ok(()),
        Some(Yaml::Sequence(items)) => check_criteria(items, position),
        Some(_) => Err(DefinitionError::new(at, Fault::CriteriaNotList)),
    }
}

/// Checks each step in `items`, in order.
fn check_steps(items: &Vec<Yaml>) -> (r: Result<(), DefinitionError>)
    ensures
        check_view(r) == match first_step_fault(seq_model(items@), 0) {
            Some(e) => Err(e),
            None => Ok(()),
        },
{
    let ghost model = seq_model(items@);
    proof {
        lemma_seq_model(items@);
    }
    let mut i: usize = 0;
    while i < items.len()
        invariant
            i <= items.len(),
            model == seq_model(items@),
            model.len() == items.len(),
            forall|j: int| 0 <= j < items.len() ==> #[trigger] model[j] == items@[j]@,
            first_step_fault(model, 0) == first_step_fault(model, i as int),
        decreases items.len() - i,
    {
        let r = validate_step(&items[i], i + 1);
        match r {
            Err(e) => {
                return Err(e);
            },
            Ok(_) => {},
        }
        i += 1;
    }
    Ok(())
}

/// Checks a definition: the first fault found, or `Ok`.
pub fn validate(payload: &Yaml) -> (r: Result<(), DefinitionError>)
    ensures
        check_view(r) == definition_check(payload@),
{
    let top = match payload.as_mapping() {
        Some(top) => top,
        None => {
            return Err(DefinitionError::new(Position::Top, Fault::TopNotMapping));
        },
    };
    let name = text_chars(payload, "name");
    if name.len() == 0 {
        return Err(DefinitionError::new(Position::Top, Fault::MissingName));
    }
    let steps = match payload.get("steps") {
        Some(v) => match v.as_sequence() {
            Some(items) => {
                if items.len() == 0 {
                    return Err(DefinitionError::new(Position::Top, Fault::MissingSteps));
                }
                proof {
                    lemma_seq_model(items@);
                }
                items
            },
            None => {
                return Err(DefinitionError::new(Position::Top, Fault::MissingSteps));
            },
        },
        None => {
            return Err(DefinitionError::new(Position::Top, Fault::MissingSteps));
        },
    };
    let unknown = unknown_fields(top, &TOP_FIELDS);
    assert(TOP_FIELDS@.map_values(|s: &str| s@) =~= (&TOP_FIELDS).deep_view());
    if unknown.len() > 0 {
        return Err(DefinitionError::new(Position::Top, Fault::UnknownTopFields(unknown)));
    }
    check_steps(steps)
}

/// The view of a step reading result.
pub open spec fn step_result_view(r: Result<Step, DefinitionError>) -> Result<
    StepModel,
    DefinitionErrorModel,
> {
    match r {
        Ok(s) => Ok(s@),
        Err(e) => Err(e@),
    }
}

/// The view of a workflow reading result.
pub open spec fn workflow_result_view(r: Result<Workflow, DefinitionError>) -> Result<
    WorkflowModel,
    DefinitionErrorModel,
> {
    match r {
        Ok(w) => Ok(w@),
        Err(e) => Err(e@),
    }
}

impl Step {
    /// Reads a step and checks it; `position` is where it stands in the
    /// definition (counted from 1).
    pub fn from_value(value: &Yaml, position: usize) -> (r: Result<Step, DefinitionError>)
        ensures
            step_result_view(r) == match step_check(value@, position) {
                Ok(()) => Ok(step_from(value@)),
                Err(e) => Err(e),
            },
    {
        match validate_step(value, position) {
            Ok(()) => Ok(Step::of(value)),
            Err(e) => Err(e),
        }
    }
}

impl Workflow {
    /// Reads a definition and checks it; the workflow is named by its `name`
    /// field.
    pub fn from_value(payload: &Yaml) -> (r: Result<Workflow, DefinitionError>)
        ensures
            workflow_result_view(r) == match definition_check(payload@) {
                Ok(()) => Ok(workflow_from(field_text(payload@, "name"@), payload@)),
                Err(e) => Err(e),
            },
    {
        match validate(payload) {
            Ok(()) => {
                let name = text_of(payload, "name");
                Ok(Workflow::of(name.as_str(), payload))
            },
            Err(e) => Err(e),
        }
    }
}

/// A step is walked by an agent or a person: one that passes its check has
/// `agent` (the default) or `human` as its executor, never the rule engine.
pub proof fn law_checked_step_is_walked_by_agent_or_human(n: Node, position: usize)
    ensures
        step_check(n, position) is Ok ==> step_from(n).executor == AGENT@ || step_from(n).executor
            == HUMAN@,
{
}

proof fn lemma_no_step_fault(items: Seq<Node>, k: int)
    requires
        0 <= k,
        first_step_fault(items, k) is None,
    ensures
        forall|j: int| k <= j < items.len() ==> (#[trigger] step_check(items[j], (j + 1) as usize)) is Ok,
    decreases items.len() - k,
{
    if k < items.len() {
        lemma_no_step_fault(items, k + 1);
    }
}

/// Every step of a definition that passes its check is walked by an agent or
/// a person: the workflow read from it has no step whose executor is anything
/// else.
pub proof fn law_checked_definition_steps_are_walked_by_agent_or_human(n: Node, name: Seq<char>)
    ensures
        definition_check(n) is Ok ==> forall|i: int|
            0 <= i < workflow_from(name, n).steps.len() ==> (#[trigger] workflow_from(name, n).steps[i]).executor
                == AGENT@ || workflow_from(name, n).steps[i].executor == HUMAN@,
{
    if definition_check(n) is Ok {
        let items = listed_steps(n)->0;
        assert(items_under(n, "steps"@) == items);
        lemma_no_step_fault(items, 0);
        assert forall|i: int| 0 <= i < workflow_from(name, n).steps.len() implies (
        #[trigger] workflow_from(name, n).steps[i]).executor == AGENT@ || workflow_from(
            name,
            n,
        ).steps[i].executor == HUMAN@ by {
            assert(step_check(items[i], (i + 1) as usize) is Ok);
            law_checked_step_is_walked_by_agent_or_human(items[i], (i + 1) as usize);
        }
    }
}

} // verus!
