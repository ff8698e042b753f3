//! What is wrong with a definition that does not read: where, and what.
//!
//! Neutral ground: both the criterion and the workflow readers report through
//! it. The error carries no file name; the caller names the file when it
//! renders the message (`message`).

use crate::text::{decimal, decimal_chars, join_chars, join_with, push_chars, push_str, string_of};
use vstd::prelude::*;

verus! {

/// Where in a definition the fault sits.
#[derive(Debug, Clone, Copy, PartialEq, Eq)]
pub enum Position {
    /// The top level of the definition.
    Top,
    /// The step at this position, counted from 1.
    Step(usize),
    /// The criterion at `(step, order)`, both counted from 1.
    Criterion(usize, usize),
}

/// What is wrong.
#[derive(Debug, Clone, PartialEq, Eq)]
pub enum Fault {
    /// The top level is not a mapping.
    TopNotMapping,
    /// The definition has no name.
    MissingName,
    /// The definition has no steps (or an empty list, or not a list).
    MissingSteps,
    /// Fields at the top level that are not known.
    UnknownTopFields(Vec<String>),
    /// A step without a name (or not a mapping at all).
    MissingStepName,
    /// Fields of a step that are not known.
    UnknownStepFields(Vec<String>),
    /// A step's executor is neither agent nor human.
    BadStepExecutor { got: String },
    /// A step's criteria are not a list.
    CriteriaNotList,
    /// A criterion is not a mapping.
    CriterionNotMapping,
    /// A criterion's executor is not rule, agent or human.
    BadCriterionExecutor,
    /// Fields of a criterion that are not known.
    UnknownCriterionFields(Vec<String>),
    /// A rule criterion names no way to judge.
    MissingJudgement,
    /// `contains` without `file`.
    ContainsWithoutFile,
    /// `file` without `contains`.
    FileWithoutContains,
    /// More than one way to judge.
    TooManyJudgements,
    /// An agent or human criterion without a description.
    MissingDescription { executor: String },
    /// An agent or human criterion that carries rule fields.
    RuleFieldsOnJudge { executor: String, fields: Vec<String> },
}

/// The view of a [`Fault`].
pub enum FaultModel {
    TopNotMapping,
    MissingName,
    MissingSteps,
    UnknownTopFields(Seq<Seq<char>>),
    MissingStepName,
    UnknownStepFields(Seq<Seq<char>>),
    BadStepExecutor { got: Seq<char> },
    CriteriaNotList,
    CriterionNotMapping,
    BadCriterionExecutor,
    UnknownCriterionFields(Seq<Seq<char>>),
    MissingJudgement,
    ContainsWithoutFile,
    FileWithoutContains,
    TooManyJudgements,
    MissingDescription { executor: Seq<char> },
    RuleFieldsOnJudge { executor: Seq<char>, fields: Seq<Seq<char>> },
}

impl View for Fault {
    type V = FaultModel;

    open spec fn view(&self) -> FaultModel {
        match self {
            Fault::TopNotMapping => FaultModel::TopNotMapping,
            Fault::MissingName => FaultModel::MissingName,
            Fault::MissingSteps => FaultModel::MissingSteps,
            Fault::UnknownTopFields(v) => FaultModel::UnknownTopFields(v.deep_view()),
            Fault::MissingStepName => FaultModel::MissingStepName,
            Fault::UnknownStepFields(v) => FaultModel::UnknownStepFields(v.deep_view()),
            Fault::BadStepExecutor { got } => FaultModel::BadStepExecutor { got: got@ },
            Fault::CriteriaNotList => FaultModel::CriteriaNotList,
            Fault::CriterionNotMapping => FaultModel::CriterionNotMapping,
            Fault::BadCriterionExecutor => FaultModel::BadCriterionExecutor,
            Fault::UnknownCriterionFields(v) => FaultModel::UnknownCriterionFields(v.deep_view()),
            Fault::MissingJudgement => FaultModel::MissingJudgement,
            Fault::ContainsWithoutFile => FaultModel::ContainsWithoutFile,
            Fault::FileWithoutContains => FaultModel::FileWithoutContains,
            Fault::TooManyJudgements => FaultModel::TooManyJudgements,
            Fault::MissingDescription { executor } => FaultModel::MissingDescription {
                executor: executor@,
            },
            Fault::RuleFieldsOnJudge { executor, fields } => FaultModel::RuleFieldsOnJudge {
                executor: executor@,
                fields: fields.deep_view(),
            },
        }
    }
}

/// A definition that does not read: where and what.
#[derive(Debug, Clone, PartialEq, Eq)]
pub struct DefinitionError {
    pub position: Position,
    pub fault: Fault,
}

/// The view of a [`DefinitionError`].
pub struct DefinitionErrorModel {
    pub position: Position,
    pub fault: FaultModel,
}

impl View for DefinitionError {
    type V = DefinitionErrorModel;

    open spec fn view(&self) -> DefinitionErrorModel {
        DefinitionErrorModel { position: self.position, fault: self.fault@ }
    }
}

/// How a position is spoken of: nothing at the top, the step, or the step
/// and the criterion.
pub open spec fn place_text(p: Position) -> Seq<char> {
    match p {
        Position::Top => Seq::empty(),
        Position::Step(s) => "第 "@ + decimal(s as nat) + " 个步骤"@,
        Position::Criterion(s, o) => "第 "@ + decimal(s as nat) + " 个步骤第 "@ + decimal(
            o as nat,
        ) + " 条判据"@,
    }
}

/// What each fault says, following the place.
pub open spec fn fault_text(f: FaultModel) -> Seq<char> {
    match f {
        FaultModel::TopNotMapping => "的顶层不是映射（name / steps）"@,
        FaultModel::MissingName => "少了 name"@,
        FaultModel::MissingSteps => "少了 steps（至少一个步骤）"@,
        FaultModel::UnknownTopFields(v) => "顶层有不认识的字段："@ + join_with(v, "、"@)
            + "（只认 name、description、steps）"@,
        FaultModel::MissingStepName => "少了 name"@,
        FaultModel::UnknownStepFields(v) => "有不认识的字段："@ + join_with(v, "、"@)
            + "（只认 name、description、executor、criteria）"@,
        FaultModel::BadStepExecutor { got } => "的 executor 只能是 agent 或 human，实得 "@ + got,
        FaultModel::CriteriaNotList => "的 criteria 应当是列表"@,
        FaultModel::CriterionNotMapping => "不是映射"@,
        FaultModel::BadCriterionExecutor =>
            "的 executor 只能是 rule / agent / human（谁判：规则引擎 / 智能体 / 人）"@,
        FaultModel::UnknownCriterionFields(v) => "有不认识的字段："@ + join_with(v, "、"@)
            + "（只认 executor、description、path、absent、file、contains、run）"@,
        FaultModel::MissingJudgement => "是 rule，得写一条判法（path / absent / file+contains / run）"@,
        FaultModel::ContainsWithoutFile => "写了 contains，还得写 file"@,
        FaultModel::FileWithoutContains => "写了 file，还得写 contains"@,
        FaultModel::TooManyJudgements => "的判法只能一种：path / absent / file+contains / run"@,
        FaultModel::MissingDescription { executor } => "是 "@ + executor
            + "，必须写 description（判准 / 要人拍板的事）"@,
        FaultModel::RuleFieldsOnJudge { executor, fields } => "是 "@ + executor + "，不该带 "@
            + join_with(fields, "、"@) + "（那是 rule 的字段）"@,
    }
}

/// The error without a file name: place then fault.
pub open spec fn error_text(e: DefinitionErrorModel) -> Seq<char> {
    place_text(e.position) + fault_text(e.fault)
}

/// The characters of a list of strings.
fn lines_of(v: &Vec<String>) -> (r: Vec<Vec<char>>)
    ensures
        r.deep_view() == v.deep_view(),
{
    let mut r: Vec<Vec<char>> = Vec::new();
    let mut i: usize = 0;
    while i < v.len()
        invariant
            i <= v.len(),
            r.deep_view() == v.deep_view().take(i as int),
        decreases v.len() - i,
    {
        let ghost before = r.deep_view();
        let c = crate::text::chars_of(v[i].as_str());
        assert(c.deep_view() =~= c@);
        r.push(c);
        assert(r.deep_view() =~= before.push(v@[i as int]@));
        assert(v.deep_view()[i as int] == v@[i as int]@);
        assert(r.deep_view() =~= v.deep_view().take(i + 1));
        i += 1;
    }
    assert(v.deep_view().take(v.len() as int) =~= v.deep_view());
    r
}

fn push_joined(out: &mut Vec<char>, v: &Vec<String>)
    ensures
        final(out)@ == old(out)@ + join_with(v.deep_view(), "、"@),
{
    let parts = lines_of(v);
    let joined = join_chars(&parts, "、");
    push_chars(out, &joined);
}

impl Position {
    /// How this position is spoken of.
    pub fn text(&self) -> (r: Vec<char>)
        ensures
            r@ == place_text(*self),
    {
        let mut out: Vec<char> = Vec::new();
        match self {
            Position::Top => {},
            Position::Step(s) => {
                push_str(&mut out, "第 ");
                let d = decimal_chars(*s);
                push_chars(&mut out, &d);
                push_str(&mut out, " 个步骤");
            },
            Position::Criterion(s, o) => {
                push_str(&mut out, "第 ");
                let d = decimal_chars(*s);
                push_chars(&mut out, &d);
                push_str(&mut out, " 个步骤第 ");
                let e = decimal_chars(*o);
                push_chars(&mut out, &e);
                push_str(&mut out, " 条判据");
            },
        }
        out
    }
}

impl Fault {
    /// What this fault says.
    pub fn text(&self) -> (r: Vec<char>)
        ensures
            r@ == fault_text(self@),
    {
        let mut out: Vec<char> = Vec::new();
        match self {
            Fault::TopNotMapping => push_str(&mut out, "的顶层不是映射（name / steps）"),
            Fault::MissingName => push_str(&mut out, "少了 name"),
            Fault::MissingSteps => push_str(&mut out, "少了 steps（至少一个步骤）"),
            Fault::UnknownTopFields(v) => {
                push_str(&mut out, "顶层有不认识的字段：");
                push_joined(&mut out, v);
                push_str(&mut out, "（只认 name、description、steps）");
            },
            Fault::MissingStepName => push_str(&mut out, "少了 name"),
            Fault::UnknownStepFields(v) => {
                push_str(&mut out, "有不认识的字段：");
                push_joined(&mut out, v);
                push_str(&mut out, "（只认 name、description、executor、criteria）");
            },
            Fault::BadStepExecutor { got } => {
                push_str(&mut out, "的 executor 只能是 agent 或 human，实得 ");
                push_str(&mut out, got.as_str());
            },
            Fault::CriteriaNotList => push_str(&mut out, "的 criteria 应当是列表"),
            Fault::CriterionNotMapping => push_str(&mut out, "不是映射"),
            Fault::BadCriterionExecutor => push_str(
                &mut out,
                "的 executor 只能是 rule / agent / human（谁判：规则引擎 / 智能体 / 人）",
            ),
            Fault::UnknownCriterionFields(v) => {
                push_str(&mut out, "有不认识的字段：");
                push_joined(&mut out, v);
                push_str(&mut out, "（只认 executor、description、path、absent、file、contains、run）");
            },
            Fault::MissingJudgement => push_str(
                &mut out,
                "是 rule，得写一条判法（path / absent / file+contains / run）",
            ),
            Fault::ContainsWithoutFile => push_str(&mut out, "写了 contains，还得写 file"),
            Fault::FileWithoutContains => push_str(&mut out, "写了 file，还得写 contains"),
            Fault::TooManyJudgements => push_str(
                &mut out,
                "的判法只能一种：path / absent / file+contains / run",
            ),
            Fault::MissingDescription { executor } => {
                push_str(&mut out, "是 ");
                push_str(&mut out, executor.as_str());
                push_str(&mut out, "，必须写 description（判准 / 要人拍板的事）");
            },
            Fault::RuleFieldsOnJudge { executor, fields } => {
                push_str(&mut out, "是 ");
                push_str(&mut out, executor.as_str());
                push_str(&mut out, "，不该带 ");
                push_joined(&mut out, fields);
                push_str(&mut out, "（那是 rule 的字段）");
            },
        }
        out
    }
}

impl DefinitionError {
    /// An error at `position` saying `fault`.
    pub fn new(position: Position, fault: Fault) -> (e: DefinitionError)
        ensures
            e.position == position,
            e.fault == fault,
    {
        DefinitionError { position, fault }
    }

    /// The error without a file name: where, then what.
    pub fn to_string(&self) -> (r: String)
        ensures
            r@ == error_text(self@),
    {
        let mut out = self.position.text();
        let f = self.fault.text();
        push_chars(&mut out, &f);
        string_of(&out)
    }

    /// The error as the user reads it: the file, a space, where, then what.
    pub fn message(&self, file: &str) -> (r: String)
        ensures
            r@ == file@ + " "@ + error_text(self@),
    {
        let mut out = crate::text::chars_of(file);
        push_str(&mut out, " ");
        let p = self.position.text();
        push_chars(&mut out, &p);
        let f = self.fault.text();
        push_chars(&mut out, &f);
        string_of(&out)
    }
}

} // verus!
