//! How a criterion is read from a definition, checking its syntax on the way.
//!
//! A wrong executor, an unknown field, a missing or a second way to judge:
//! each is reported on the spot, at the step and criterion where it stands.

use super::model::{Criterion, CriterionModel, criterion_node};
use crate::error::{DefinitionError, DefinitionErrorModel, Fault, FaultModel, Position};
use crate::executor::{AGENT, HUMAN, RULE};
use crate::fields::{CRITERION_FIELDS, unknown_fields};
use crate::text::{lemma_trimmed_ends, same_str, string_of, trimmed};
use crate::yaml::{
    Node, Yaml, as_mapping, field_text, get, lemma_field_text_trimmed, lookup, text_chars, unknown_keys,
};
use vstd::prelude::*;

verus! {

/// The field `name` is written (whatever its value).
pub open spec fn present(n: Node, name: Seq<char>) -> bool {
    get(n, name) is Some
}

/// The list with `name` when the field is written, else empty.
pub open spec fn if_present(n: Node, name: Seq<char>) -> Seq<Seq<char>> {
    if present(n, name) {
        seq![name]
    } else {
        Seq::empty()
    }
}

/// The rule fields that are written, in the order path, absent, file,
/// contains, run.
pub open spec fn given_fields(n: Node) -> Seq<Seq<char>> {
    if_present(n, "path"@) + if_present(n, "absent"@) + if_present(n, "file"@) + if_present(
        n,
        "contains"@,
    ) + if_present(n, "run"@)
}

/// The criterion the fields describe, without checking them: agent and human
/// by their executor; otherwise the first written of path, absent and file
/// decides, and a criterion with none of them runs a command.
pub open spec fn criterion_from(n: Node) -> CriterionModel {
    let description = field_text(n, "description"@);
    let kind = field_text(n, "executor"@);
    if kind == AGENT@ {
        CriterionModel::AgentJudgement { description }
    } else if kind == HUMAN@ {
        CriterionModel::HumanGate { description }
    } else if field_text(n, "path"@).len() > 0 {
        CriterionModel::PathExists { path: field_text(n, "path"@), description }
    } else if field_text(n, "absent"@).len() > 0 {
        CriterionModel::PathAbsent { absent: field_text(n, "absent"@), description }
    } else if field_text(n, "file"@).len() > 0 {
        CriterionModel::FileContains {
            file: field_text(n, "file"@),
            contains: field_text(n, "contains"@),
            description,
        }
    } else {
        CriterionModel::CommandRun { run: field_text(n, "run"@), description }
    }
}

/// The error at a criterion's position.
pub open spec fn criterion_fault(position: usize, order: usize, f: FaultModel) -> Result<
    CriterionModel,
    DefinitionErrorModel,
> {
    Err(DefinitionErrorModel { position: Position::Criterion(position, order), fault: f })
}

/// Reading a criterion: the result, or the first fault in this order — not a
/// mapping; an executor other than rule, agent or human; unknown fields; for
/// rule, no way to judge, `contains` without `file`, `file` without
/// `contains`, more than one way; for agent and human, no description, or
/// rule fields written.
pub open spec fn read_from(n: Node, position: usize, order: usize) -> Result<
    CriterionModel,
    DefinitionErrorModel,
> {
    let kind = field_text(n, "executor"@);
    let p = present(n, "path"@);
    let a = present(n, "absent"@);
    let f = present(n, "file"@);
    let c = present(n, "contains"@);
    let r = present(n, "run"@);
    let others = (if p {
        1int
    } else {
        0int
    }) + (if a {
        1int
    } else {
        0int
    }) + (if r {
        1int
    } else {
        0int
    });
    if as_mapping(n) is None {
        criterion_fault(position, order, FaultModel::CriterionNotMapping)
    } else if !(kind == RULE@ || kind == AGENT@ || kind == HUMAN@) {
        criterion_fault(position, order, FaultModel::BadCriterionExecutor)
    } else if unknown_keys(as_mapping(n).unwrap(), CRITERION_FIELDS@.map_values(|s: &str| s@)).len()
        > 0 {
        criterion_fault(
            position,
            order,
            FaultModel::UnknownCriterionFields(
                unknown_keys(as_mapping(n).unwrap(), CRITERION_FIELDS@.map_values(|s: &str| s@)),
            ),
        )
    } else if kind == RULE@ {
        if !(p || a || f || c || r) {
            criterion_fault(position, order, FaultModel::MissingJudgement)
        } else if c && !f {
            criterion_fault(position, order, FaultModel::ContainsWithoutFile)
        } else if f && !c {
            criterion_fault(position, order, FaultModel::FileWithoutContains)
        } else if others > 1 || (others > 0 && f) {
            criterion_fault(position, order, FaultModel::TooManyJudgements)
        } else {
            Ok(criterion_from(n))
        }
    } else if field_text(n, "description"@).len() == 0 {
        criterion_fault(position, order, FaultModel::MissingDescription { executor: kind })
    } else if given_fields(n).len() > 0 {
        criterion_fault(
            position,
            order,
            FaultModel::RuleFieldsOnJudge { executor: kind, fields: given_fields(n) },
        )
    } else {
        Ok(criterion_from(n))
    }
}

/// The view of a reading result.
pub open spec fn read_view(r: Result<Criterion, DefinitionError>) -> Result<
    CriterionModel,
    DefinitionErrorModel,
> {
    match r {
        Ok(c) => Ok(c@),
        Err(e) => Err(e@),
    }
}

impl Criterion {
    /// Reads a criterion from its fields without checking them; the same
    /// reading as [`criterion_of`].
    pub fn from_yaml(value: &Yaml) -> (c: Criterion)
        ensures
            c@ == criterion_from(value@),
    {
        criterion_of(value)
    }
}

/// Reads a criterion from its fields without checking them (use it on a
/// definition that has been checked).
pub fn criterion_of(value: &Yaml) -> (c: Criterion)
    ensures
        c@ == criterion_from(value@),
{
    let description = text_chars(value, "description");
    let kind = text_chars(value, "executor");
    if same_str(&kind, AGENT) {
        return Criterion::AgentJudgement { description: string_of(&description) };
    }
    if same_str(&kind, HUMAN) {
        return Criterion::HumanGate { description: string_of(&description) };
    }
    let path = text_chars(value, "path");
    if path.len() > 0 {
        return Criterion::PathExists {
            path: string_of(&path),
            description: string_of(&description),
        };
    }
    let absent = text_chars(value, "absent");
    if absent.len() > 0 {
        return Criterion::PathAbsent {
            absent: string_of(&absent),
            description: string_of(&description),
        };
    }
    let file = text_chars(value, "file");
    if file.len() > 0 {
        let contains = text_chars(value, "contains");
        return Criterion::FileContains {
            file: string_of(&file),
            contains: string_of(&contains),
            description: string_of(&description),
        };
    }
    let run = text_chars(value, "run");
    Criterion::CommandRun { run: string_of(&run), description: string_of(&description) }
}

/// Whether the field `name` is written.
fn is_present(value: &Yaml, name: &str) -> (b: bool)
    ensures
        b == present(value@, name@),
{
    value.get(name).is_some()
}

/// Appends `name` when the field is written.
fn push_if_present(given: &mut Vec<String>, value: &Yaml, name: &str)
    ensures
        final(given).deep_view() == old(given).deep_view() + if_present(value@, name@),
{
    if is_present(value, name) {
        let ghost before = given.deep_view();
        given.push(String::from_str(name));
        assert(given.deep_view() =~= before + if_present(value@, name@));
    } else {
        assert(given.deep_view() =~= old(given).deep_view() + if_present(value@, name@));
    }
}

/// Reads one criterion, the `order`-th of the `position`-th step (both counted
/// from 1), and checks it: the error names the first fault found.
pub fn read_criterion(value: &Yaml, position: usize, order: usize) -> (r: Result<
    Criterion,
    DefinitionError,
>)
    ensures
        read_view(r) == read_from(value@, position, order),
{
    let at = Position::Criterion(position, order);
    let entries = match value.as_mapping() {
        Some(entries) => entries,
        None => {
            return Err(DefinitionError::new(at, Fault::CriterionNotMapping));
        },
    };
    let kind = text_chars(value, "executor");
    let is_rule = same_str(&kind, RULE);
    if !(is_rule || same_str(&kind, AGENT) || same_str(&kind, HUMAN)) {
        return Err(DefinitionError::new(at, Fault::BadCriterionExecutor));
    }
    let odd = unknown_fields(entries, &CRITERION_FIELDS);
    assert(CRITERION_FIELDS@.map_values(|s: &str| s@) =~= (&CRITERION_FIELDS).deep_view());
    if odd.len() > 0 {
        return Err(DefinitionError::new(at, Fault::UnknownCriterionFields(odd)));
    }
    let p = is_present(value, "path");
    let a = is_present(value, "absent");
    let f = is_present(value, "file");
    let c = is_present(value, "contains");
    let rn = is_present(value, "run");
    if is_rule {
        if !(p || a || f || c || rn) {
            return Err(DefinitionError::new(at, Fault::MissingJudgement));
        }
        if c && !f {
            return Err(DefinitionError::new(at, Fault::ContainsWithoutFile));
        }
        if f && !c {
            return Err(DefinitionError::new(at, Fault::FileWithoutContains));
        }
        let others: u8 = (if p {
            1u8
        } else {
            0u8
        }) + (if a {
            1u8
        } else {
            0u8
        }) + (if rn {
            1u8
        } else {
            0u8
        });
        if others > 1 || (others > 0 && f) {
            return Err(DefinitionError::new(at, Fault::TooManyJudgements));
        }
    } else {
        let description = text_chars(value, "description");
        if description.len() == 0 {
            return Err(
                DefinitionError::new(at, Fault::MissingDescription { executor: string_of(&kind) }),
            );
        }
        let mut given: Vec<String> = Vec::new();
        push_if_present(&mut given, value, "path");
        push_if_present(&mut given, value, "absent");
        push_if_present(&mut given, value, "file");
        push_if_present(&mut given, value, "contains");
        push_if_present(&mut given, value, "run");
        if given.len() > 0 {
            return Err(
                DefinitionError::new(
                    at,
                    Fault::RuleFieldsOnJudge { executor: string_of(&kind), fields: given },
                ),
            );
        }
    }
    Ok(criterion_of(value))
}

} // verus!

verus! {

/// A criterion that writing out and reading back leaves unchanged: every
/// field is trimmed, and the field that decides a rule check (path, absent,
/// file) is not empty.
pub open spec fn round_trips(c: CriterionModel) -> bool {
    match c {
        CriterionModel::PathExists { path, description } => path.len() > 0 && trimmed(path)
            && trimmed(description),
        CriterionModel::PathAbsent { absent, description } => absent.len() > 0 && trimmed(absent)
            && trimmed(description),
        CriterionModel::FileContains { file, contains, description } => file.len() > 0
            && trimmed(file) && trimmed(contains) && trimmed(description),
        CriterionModel::CommandRun { run, description } => trimmed(run) && trimmed(description),
        CriterionModel::AgentJudgement { description } => trimmed(description),
        CriterionModel::HumanGate { description } => trimmed(description),
    }
}

pub(crate) proof fn lemma_names_distinct()
    ensures
        "executor"@ != "path"@,
        "executor"@ != "absent"@,
        "executor"@ != "file"@,
        "executor"@ != "contains"@,
        "executor"@ != "run"@,
        "executor"@ != "description"@,
        "path"@ != "absent"@,
        "path"@ != "file"@,
        "path"@ != "contains"@,
        "path"@ != "run"@,
        "path"@ != "description"@,
        "absent"@ != "file"@,
        "absent"@ != "contains"@,
        "absent"@ != "run"@,
        "absent"@ != "description"@,
        "file"@ != "contains"@,
        "file"@ != "run"@,
        "file"@ != "description"@,
        "contains"@ != "run"@,
        "contains"@ != "description"@,
        "run"@ != "description"@,
        trimmed(RULE@),
        trimmed(AGENT@),
        trimmed(HUMAN@),
        RULE@ != AGENT@,
        RULE@ != HUMAN@,
        AGENT@ != HUMAN@,
        RULE@.len() > 0,
{
    reveal_strlit("executor");
    reveal_strlit("path");
    reveal_strlit("absent");
    reveal_strlit("file");
    reveal_strlit("contains");
    reveal_strlit("run");
    reveal_strlit("description");
    reveal_strlit("rule");
    reveal_strlit("agent");
    reveal_strlit("human");
    assert("executor"@.len() == 8);
    assert("run"@.len() == 3);
    assert("description"@.len() == 11);
    assert("path"@.len() == 4);
    assert("file"@.len() == 4);
    assert("absent"@.len() == 6);
    assert("contains"@[0] != "executor"@[0]);
    assert("path"@[0] != "file"@[0]);
    assert("agent"@[0] != "human"@[0]);
    lemma_trimmed_ends(RULE@);
    lemma_trimmed_ends(AGENT@);
    lemma_trimmed_ends(HUMAN@);
}

/// Writing a criterion out and reading it back gives the same criterion,
/// provided its fields are trimmed and the field that decides a rule check is
/// written.
pub proof fn law_criterion_round_trip(c: CriterionModel)
    requires
        round_trips(c),
    ensures
        criterion_from(criterion_node(c)) == c,
{
    lemma_names_distinct();
    reveal_with_fuel(lookup, 5);
    let n = criterion_node(c);
    match c {
        CriterionModel::PathExists { path, description } => {
            assert(field_text(n, "executor"@) == RULE@);
            assert(field_text(n, "path"@) == path);
            assert(field_text(n, "description"@) == description);
        },
        CriterionModel::PathAbsent { absent, description } => {
            assert(field_text(n, "executor"@) == RULE@);
            assert(field_text(n, "path"@) == Seq::<char>::empty());
            assert(field_text(n, "absent"@) == absent);
            assert(field_text(n, "description"@) == description);
        },
        CriterionModel::FileContains { file, contains, description } => {
            assert(field_text(n, "executor"@) == RULE@);
            assert(field_text(n, "path"@) == Seq::<char>::empty());
            assert(field_text(n, "absent"@) == Seq::<char>::empty());
            assert(field_text(n, "file"@) == file);
            assert(field_text(n, "contains"@) == contains);
            assert(field_text(n, "description"@) == description);
        },
        CriterionModel::CommandRun { run, description } => {
            assert(field_text(n, "executor"@) == RULE@);
            assert(field_text(n, "path"@) == Seq::<char>::empty());
            assert(field_text(n, "absent"@) == Seq::<char>::empty());
            assert(field_text(n, "file"@) == Seq::<char>::empty());
            assert(field_text(n, "run"@) == run);
            assert(field_text(n, "description"@) == description);
        },
        CriterionModel::AgentJudgement { description } => {
            assert(field_text(n, "executor"@) == AGENT@);
            assert(field_text(n, "description"@) == description);
        },
        CriterionModel::HumanGate { description } => {
            assert(field_text(n, "executor"@) == HUMAN@);
            assert(field_text(n, "description"@) == description);
        },
    }
}

/// Every criterion read from fields meets the round trip's condition: its
/// fields are trimmed, and the field that decides a rule check is written.
pub proof fn lemma_read_criterion_round_trips(n: Node)
    ensures
        round_trips(criterion_from(n)),
{
    lemma_field_text_trimmed(n, "description"@);
    lemma_field_text_trimmed(n, "path"@);
    lemma_field_text_trimmed(n, "absent"@);
    lemma_field_text_trimmed(n, "file"@);
    lemma_field_text_trimmed(n, "contains"@);
    lemma_field_text_trimmed(n, "run"@);
}

/// Reading back what a read criterion writes gives the same criterion: for
/// whatever fields a criterion was read from, without checks
/// ([`Criterion::from_yaml`]) or with them ([`read_criterion`], when it
/// accepts them).
pub proof fn law_read_criterion_round_trip(n: Node, position: usize, order: usize)
    ensures
        criterion_from(criterion_node(criterion_from(n))) == criterion_from(n),
        read_from(n, position, order) matches Ok(c) ==> criterion_from(criterion_node(c)) == c,
{
    lemma_read_criterion_round_trips(n);
    law_criterion_round_trip(criterion_from(n));
}

} // verus!
