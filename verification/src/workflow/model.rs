//! The workflow aggregate: an ordered list of steps.
//!
//! The model never changes: [`Workflow::of`] reads a definition that has been
//! checked, `from_value` (in `validate`) reads and checks, and `to_yaml`
//! writes the same field shape back.

use crate::criterion::model::{Criterion, CriterionModel, criterion_node, judge_of};
use crate::criterion::read::{criterion_from, criterion_of};
use crate::executor::{AGENT, HUMAN, RULE};
use crate::text::{chars_of, same_chars, same_str, string_of};
use crate::yaml::{
    Node, Yaml, as_sequence, entries_model, field_text, get, lemma_seq_model, lemma_seq_model_push,
    push_entry, push_text_entry, seq_model, str_entry, text_chars,
};
use vstd::prelude::*;

verus! {

/// One step of work: its name, what to do, who does it, and when it is done.
#[derive(Debug, Clone, PartialEq, Eq)]
pub struct Step {
    pub name: String,
    pub description: String,
    pub executor: String,
    pub criteria: Vec<Criterion>,
}

/// The view of a [`Step`].
pub struct StepModel {
    pub name: Seq<char>,
    pub description: Seq<char>,
    pub executor: Seq<char>,
    pub criteria: Seq<CriterionModel>,
}

/// The views of a list of criteria.
pub open spec fn criteria_model(v: Seq<Criterion>) -> Seq<CriterionModel> {
    v.map_values(|c: Criterion| c@)
}

impl View for Step {
    type V = StepModel;

    open spec fn view(&self) -> StepModel {
        StepModel {
            name: self.name@,
            description: self.description@,
            executor: self.executor@,
            criteria: criteria_model(self.criteria@),
        }
    }
}

/// The workflow aggregate: a list of steps (where its file lies is the
/// platform's business).
#[derive(Debug, Clone, PartialEq, Eq)]
pub struct Workflow {
    pub name: String,
    pub description: String,
    pub steps: Vec<Step>,
}

/// The view of a [`Workflow`].
pub struct WorkflowModel {
    pub name: Seq<char>,
    pub description: Seq<char>,
    pub steps: Seq<StepModel>,
}

/// The views of a list of steps.
pub open spec fn steps_model(v: Seq<Step>) -> Seq<StepModel> {
    v.map_values(|s: Step| s@)
}

impl View for Workflow {
    type V = WorkflowModel;

    open spec fn view(&self) -> WorkflowModel {
        WorkflowModel {
            name: self.name@,
            description: self.description@,
            steps: steps_model(self.steps@),
        }
    }
}

/// The items of a field that is a sequence; empty for anything else.
pub open spec fn items_under(n: Node, key: Seq<char>) -> Seq<Node> {
    match get(n, key) {
        Some(v) => match as_sequence(v) {
            Some(items) => items,
            None => Seq::empty(),
        },
        None => Seq::empty(),
    }
}

/// A step's executor as read: the field, or the agent when nothing is written.
pub open spec fn executor_from(n: Node) -> Seq<char> {
    if field_text(n, "executor"@).len() == 0 {
        AGENT@
    } else {
        field_text(n, "executor"@)
    }
}

/// The step its fields describe, read without checking.
pub open spec fn step_from(n: Node) -> StepModel {
    StepModel {
        name: field_text(n, "name"@),
        description: field_text(n, "description"@),
        executor: executor_from(n),
        criteria: items_under(n, "criteria"@).map_values(|c: Node| criterion_from(c)),
    }
}

/// The workflow its fields describe, read without checking; the name is
/// given by the caller.
pub open spec fn workflow_from(name: Seq<char>, n: Node) -> WorkflowModel {
    WorkflowModel {
        name,
        description: field_text(n, "description"@),
        steps: items_under(n, "steps"@).map_values(|s: Node| step_from(s)),
    }
}

/// The criteria that `kind` judges, in order.
pub open spec fn judged_by(criteria: Seq<CriterionModel>, kind: Seq<char>) -> Seq<CriterionModel> {
    criteria.filter(|c: CriterionModel| judge_of(c) == kind)
}

/// Every criterion is judged by exactly one of the rule engine, an agent and
/// a person: the three groups of a step together hold all its criteria.
pub proof fn law_criteria_split_by_judge(cs: Seq<CriterionModel>)
    ensures
        judged_by(cs, RULE@).len() + judged_by(cs, AGENT@).len() + judged_by(cs, HUMAN@).len()
            == cs.len(),
    decreases cs.len(),
{
    reveal_strlit("rule");
    reveal_strlit("agent");
    reveal_strlit("human");
    assert(RULE@ != AGENT@ && RULE@ != HUMAN@ && AGENT@ != HUMAN@) by {
        assert(RULE@[0] != AGENT@[0]);
        assert(RULE@[0] != HUMAN@[0]);
        assert(AGENT@[0] != HUMAN@[0]);
    }
    if cs.len() > 0 {
        law_criteria_split_by_judge(cs.drop_last());
        reveal_with_fuel(Seq::<CriterionModel>::filter, 1);
    }
}

/// The step written back: name, the description when written, executor, and
/// the criteria when there are any.
pub open spec fn step_node(s: StepModel) -> Node {
    Node::Mapping(
        seq![str_entry("name"@, s.name)] + (if s.description.len() > 0 {
            seq![str_entry("description"@, s.description)]
        } else {
            Seq::empty()
        }) + seq![str_entry("executor"@, s.executor)] + (if s.criteria.len() > 0 {
            seq![
                (
                    Node::String("criteria"@),
                    Node::Sequence(s.criteria.map_values(|c: CriterionModel| criterion_node(c))),
                ),
            ]
        } else {
            Seq::empty()
        }),
    )
}

/// The workflow written back: name, the description when written, steps.
pub open spec fn workflow_node(w: WorkflowModel) -> Node {
    Node::Mapping(
        seq![str_entry("name"@, w.name)] + (if w.description.len() > 0 {
            seq![str_entry("description"@, w.description)]
        } else {
            Seq::empty()
        }) + seq![
            (
                Node::String("steps"@),
                Node::Sequence(w.steps.map_values(|s: StepModel| step_node(s))),
            ),
        ],
    )
}

/// The first step with this name.
pub open spec fn step_named(steps: Seq<StepModel>, name: Seq<char>) -> Option<StepModel>
    decreases steps.len(),
{
    if steps.len() == 0 {
        None
    } else if steps[0].name == name {
        Some(steps[0])
    } else {
        step_named(steps.drop_first(), name)
    }
}

/// The step names, in definition order.
pub open spec fn names_of(steps: Seq<StepModel>) -> Seq<Seq<char>> {
    steps.map_values(|s: StepModel| s.name)
}

/// A clone that keeps the view.
pub fn clone_criteria(v: &Vec<Criterion>) -> (r: Vec<Criterion>)
    ensures
        criteria_model(r@) == criteria_model(v@),
{
    let mut r: Vec<Criterion> = Vec::new();
    let mut i: usize = 0;
    while i < v.len()
        invariant
            i <= v.len(),
            criteria_model(r@) == criteria_model(v@).take(i as int),
        decreases v.len() - i,
    {
        let c = clone_criterion(&v[i]);
        let ghost before = r@;
        r.push(c);
        assert(r@ == before.push(c));
        assert(criteria_model(r@) =~= criteria_model(before).push(c@));
        assert(criteria_model(v@).take(i + 1) =~= criteria_model(v@).take(i as int).push(v@[i as int]@));
        assert(criteria_model(r@) =~= criteria_model(v@).take(i + 1));
        i += 1;
    }
    assert(criteria_model(v@).take(v.len() as int) =~= criteria_model(v@));
    r
}

/// A copy of a criterion, field by field.
pub fn clone_criterion(c: &Criterion) -> (r: Criterion)
    ensures
        r@ == c@,
{
    match c {
        Criterion::PathExists { path, description } => Criterion::PathExists {
            path: path.clone(),
            description: description.clone(),
        },
        Criterion::PathAbsent { absent, description } => Criterion::PathAbsent {
            absent: absent.clone(),
            description: description.clone(),
        },
        Criterion::FileContains { file, contains, description } => Criterion::FileContains {
            file: file.clone(),
            contains: contains.clone(),
            description: description.clone(),
        },
        Criterion::CommandRun { run, description } => Criterion::CommandRun {
            run: run.clone(),
            description: description.clone(),
        },
        Criterion::AgentJudgement { description } => Criterion::AgentJudgement {
            description: description.clone(),
        },
        Criterion::HumanGate { description } => Criterion::HumanGate {
            description: description.clone(),
        },
    }
}

/// A copy of a step.
pub fn clone_step(s: &Step) -> (r: Step)
    ensures
        r@ == s@,
{
    Step {
        name: s.name.clone(),
        description: s.description.clone(),
        executor: s.executor.clone(),
        criteria: clone_criteria(&s.criteria),
    }
}

/// A copy of a list of steps.
pub fn clone_steps(v: &Vec<Step>) -> (r: Vec<Step>)
    ensures
        steps_model(r@) == steps_model(v@),
{
    let mut r: Vec<Step> = Vec::new();
    let mut i: usize = 0;
    while i < v.len()
        invariant
            i <= v.len(),
            steps_model(r@) == steps_model(v@).take(i as int),
        decreases v.len() - i,
    {
        let s = clone_step(&v[i]);
        let ghost before = r@;
        r.push(s);
        assert(steps_model(r@) =~= steps_model(before).push(s@));
        assert(steps_model(v@).take(i + 1) =~= steps_model(v@).take(i as int).push(v@[i as int]@));
        assert(steps_model(r@) =~= steps_model(v@).take(i + 1));
        i += 1;
    }
    assert(steps_model(v@).take(v.len() as int) =~= steps_model(v@));
    r
}

impl Step {
    /// Reads a step from its fields without checking them (use it on a
    /// definition that has been checked). No executor means the agent; no
    /// criteria, or criteria that are not a list, mean none.
    pub fn of(value: &Yaml) -> (s: Step)
        ensures
            s@ == step_from(value@),
    {
        let mut criteria: Vec<Criterion> = Vec::new();
        let ghost items = items_under(value@, "criteria"@);
        match value.get("criteria") {
            Some(v) => match v.as_sequence() {
                Some(list) => {
                    proof {
                        lemma_seq_model(list@);
                    }
                    let mut i: usize = 0;
                    while i < list.len()
                        invariant
                            i <= list.len(),
                            items == seq_model(list@),
                            items.len() == list.len(),
                            forall|j: int|
                                0 <= j < list.len() ==> #[trigger] items[j] == list@[j]@,
                            criteria_model(criteria@) == items.take(i as int).map_values(
                                |c: Node| criterion_from(c),
                            ),
                        decreases list.len() - i,
                    {
                        let c = criterion_of(&list[i]);
                        let ghost before = criteria@;
                        criteria.push(c);
                        assert(criteria_model(criteria@) =~= criteria_model(before).push(c@));
                        assert(items.take(i + 1) =~= items.take(i as int).push(items[i as int]));
                        assert(criteria_model(criteria@) =~= items.take(i + 1).map_values(
                            |c: Node| criterion_from(c),
                        ));
                        i += 1;
                    }
                    assert(items.take(list.len() as int) =~= items);
                },
                None => {},
            },
            None => {},
        }
        assert(criteria_model(criteria@) =~= items.map_values(|c: Node| criterion_from(c)));
        let mut executor = text_chars(value, "executor");
        if executor.len() == 0 {
            executor = chars_of(AGENT);
        }
        let name = text_chars(value, "name");
        let description = text_chars(value, "description");
        Step {
            name: string_of(&name),
            description: string_of(&description),
            executor: string_of(&executor),
            criteria,
        }
    }

    /// Whether a person carries out this step.
    pub fn human(&self) -> (b: bool)
        ensures
            b == (self.executor@ == HUMAN@),
    {
        let e = chars_of(self.executor.as_str());
        same_str(&e, HUMAN)
    }

    /// The step's name.
    pub fn name(&self) -> (r: String)
        ensures
            r@ == self.name@,
    {
        self.name.clone()
    }

    /// What the step is to do.
    pub fn description(&self) -> (r: String)
        ensures
            r@ == self.description@,
    {
        self.description.clone()
    }

    /// Who carries out the step.
    pub fn executor(&self) -> (r: String)
        ensures
            r@ == self.executor@,
    {
        self.executor.clone()
    }

    /// All its criteria, in order.
    pub fn criteria(&self) -> (r: Vec<Criterion>)
        ensures
            criteria_model(r@) == criteria_model(self.criteria@),
    {
        clone_criteria(&self.criteria)
    }

    /// The criteria the rule engine judges, in order.
    pub fn rules(&self) -> (r: Vec<Criterion>)
        ensures
            criteria_model(r@) == judged_by(self@.criteria, RULE@),
    {
        self.of_kind(RULE)
    }

    /// The criteria an agent judges, in order.
    pub fn agents(&self) -> (r: Vec<Criterion>)
        ensures
            criteria_model(r@) == judged_by(self@.criteria, AGENT@),
    {
        self.of_kind(AGENT)
    }

    /// The criteria a person judges (the gates), in order.
    pub fn gates(&self) -> (r: Vec<Criterion>)
        ensures
            criteria_model(r@) == judged_by(self@.criteria, HUMAN@),
    {
        self.of_kind(HUMAN)
    }

    fn of_kind(&self, kind: &str) -> (r: Vec<Criterion>)
        ensures
            criteria_model(r@) == judged_by(self@.criteria, kind@),
    {
        let ghost all = self@.criteria;
        let k = chars_of(kind);
        let mut r: Vec<Criterion> = Vec::new();
        let mut i: usize = 0;
        while i < self.criteria.len()
            invariant
                i <= self.criteria.len(),
                all == criteria_model(self.criteria@),
                k@ == kind@,
                criteria_model(r@) == judged_by(all.take(i as int), kind@),
            decreases self.criteria.len() - i,
        {
            let c = &self.criteria[i];
            let e = chars_of(c.executor());
            proof {
                reveal_with_fuel(Seq::<CriterionModel>::filter, 1);
            }
            assert(all.take(i + 1).drop_last() =~= all.take(i as int));
            assert(all[i as int] == c@);
            if same_chars(&e, &k) {
                let d = clone_criterion(c);
                let ghost before = r@;
                r.push(d);
                assert(criteria_model(r@) =~= criteria_model(before).push(d@));
            }
            i += 1;
        }
        assert(all.take(self.criteria.len() as int) =~= all);
        r
    }

    /// Written back in the shape a definition uses: name, description when
    /// written, executor, criteria when there are any.
    pub fn to_yaml(&self) -> (r: Yaml)
        ensures
            r@ == step_node(self@),
    {
        let mut entries: Vec<(Yaml, Yaml)> = Vec::new();
        push_text_entry(&mut entries, "name", self.name.as_str());
        let d = chars_of(self.description.as_str());
        if d.len() > 0 {
            push_text_entry(&mut entries, "description", self.description.as_str());
        }
        push_text_entry(&mut entries, "executor", self.executor.as_str());
        if self.criteria.len() > 0 {
            let mut items: Vec<Yaml> = Vec::new();
            let mut i: usize = 0;
            let ghost all = self@.criteria;
            while i < self.criteria.len()
                invariant
                    i <= self.criteria.len(),
                    all == criteria_model(self.criteria@),
                    seq_model(items@) == all.take(i as int).map_values(
                        |c: CriterionModel| criterion_node(c),
                    ),
                decreases self.criteria.len() - i,
            {
                let v = self.criteria[i].to_yaml();
                proof {
                    lemma_seq_model_push(items@, v);
                }
                items.push(v);
                assert(seq_model(items@) =~= all.take(i + 1).map_values(
                    |c: CriterionModel| criterion_node(c),
                ));
                i += 1;
            }
            assert(all.take(self.criteria.len() as int) =~= all);
            push_entry(&mut entries, "criteria", Yaml::Sequence(items));
        }
        assert(entries_model(entries@) =~= match step_node(self@) {
            Node::Mapping(e) => e,
            _ => Seq::empty(),
        });
        Yaml::Mapping(entries)
    }
}

impl Workflow {
    /// Reads a workflow from its fields without checking them; the name is
    /// given by the caller (the file name, say).
    pub fn of(name: &str, payload: &Yaml) -> (w: Workflow)
        ensures
            w@ == workflow_from(name@, payload@),
    {
        let mut steps: Vec<Step> = Vec::new();
        let ghost items = items_under(payload@, "steps"@);
        match payload.get("steps") {
            Some(v) => match v.as_sequence() {
                Some(list) => {
                    proof {
                        lemma_seq_model(list@);
                    }
                    let mut i: usize = 0;
                    while i < list.len()
                        invariant
                            i <= list.len(),
                            items == seq_model(list@),
                            items.len() == list.len(),
                            forall|j: int|
                                0 <= j < list.len() ==> #[trigger] items[j] == list@[j]@,
                            steps_model(steps@) == items.take(i as int).map_values(
                                |s: Node| step_from(s),
                            ),
                        decreases list.len() - i,
                    {
                        let s = Step::of(&list[i]);
                        let ghost before = steps@;
                        steps.push(s);
                        assert(steps_model(steps@) =~= steps_model(before).push(s@));
                        assert(items.take(i + 1) =~= items.take(i as int).push(items[i as int]));
                        assert(steps_model(steps@) =~= items.take(i + 1).map_values(
                            |s: Node| step_from(s),
                        ));
                        i += 1;
                    }
                    assert(items.take(list.len() as int) =~= items);
                },
                None => {},
            },
            None => {},
        }
        assert(steps_model(steps@) =~= items.map_values(|s: Node| step_from(s)));
        let description = text_chars(payload, "description");
        Workflow { name: String::from_str(name), description: string_of(&description), steps }
    }

    /// Reads a checked definition; the name is given by the caller.
    pub fn new(name: &str, payload: &Yaml) -> (w: Workflow)
        ensures
            w@ == workflow_from(name@, payload@),
    {
        Workflow::of(name, payload)
    }

    /// What the workflow is for.
    pub fn description(&self) -> (r: String)
        ensures
            r@ == self.description@,
    {
        self.description.clone()
    }

    /// Its steps, in order.
    pub fn steps(&self) -> (r: Vec<Step>)
        ensures
            steps_model(r@) == steps_model(self.steps@),
    {
        clone_steps(&self.steps)
    }

    /// The step names, in definition order.
    pub fn step_names(&self) -> (r: Vec<String>)
        ensures
            r.deep_view() == names_of(self@.steps),
    {
        let ghost all = self@.steps;
        let mut r: Vec<String> = Vec::new();
        let mut i: usize = 0;
        while i < self.steps.len()
            invariant
                i <= self.steps.len(),
                all == steps_model(self.steps@),
                r.deep_view() == names_of(all.take(i as int)),
            decreases self.steps.len() - i,
        {
            let ghost before = r.deep_view();
            r.push(self.steps[i].name.clone());
            assert(r.deep_view() =~= before.push(self.steps@[i as int].name@));
            assert(r.deep_view() =~= names_of(all.take(i + 1)));
            i += 1;
        }
        assert(all.take(self.steps.len() as int) =~= all);
        r
    }

    /// The first step with this name.
    pub fn step(&self, name: &str) -> (r: Option<Step>)
        ensures
            match r {
                Some(s) => step_named(self@.steps, name@) == Some(s@),
                None => step_named(self@.steps, name@) is None,
            },
    {
        let ghost all = self@.steps;
        let k = chars_of(name);
        let mut i: usize = 0;
        assert(all.skip(0) =~= all);
        while i < self.steps.len()
            invariant
                i <= self.steps.len(),
                all == steps_model(self.steps@),
                k@ == name@,
                step_named(all, name@) == step_named(all.skip(i as int), name@),
            decreases self.steps.len() - i,
        {
            let n = chars_of(self.steps[i].name.as_str());
            assert(all.skip(i as int).drop_first() =~= all.skip(i + 1));
            assert(all.skip(i as int)[0] == self.steps@[i as int]@);
            if same_chars(&n, &k) {
                return Some(clone_step(&self.steps[i]));
            }
            i += 1;
        }
        None
    }

    /// Written back in the shape a definition uses: name, description when
    /// written, steps.
    pub fn to_yaml(&self) -> (r: Yaml)
        ensures
            r@ == workflow_node(self@),
    {
        let mut entries: Vec<(Yaml, Yaml)> = Vec::new();
        push_text_entry(&mut entries, "name", self.name.as_str());
        let d = chars_of(self.description.as_str());
        if d.len() > 0 {
            push_text_entry(&mut entries, "description", self.description.as_str());
        }
        let mut items: Vec<Yaml> = Vec::new();
        let mut i: usize = 0;
        let ghost all = self@.steps;
        while i < self.steps.len()
            invariant
                i <= self.steps.len(),
                all == steps_model(self.steps@),
                seq_model(items@) == all.take(i as int).map_values(|s: StepModel| step_node(s)),
            decreases self.steps.len() - i,
        {
            let v = self.steps[i].to_yaml();
            proof {
                lemma_seq_model_push(items@, v);
            }
            items.push(v);
            assert(seq_model(items@) =~= all.take(i + 1).map_values(|s: StepModel| step_node(s)));
            i += 1;
        }
        assert(all.take(self.steps.len() as int) =~= all);
        push_entry(&mut entries, "steps", Yaml::Sequence(items));
        assert(entries_model(entries@) =~= match workflow_node(self@) {
            Node::Mapping(e) => e,
            _ => Seq::empty(),
        });
        Yaml::Mapping(entries)
    }
}

} // verus!
