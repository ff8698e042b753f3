//! Criteria turned into what a platform has to run: the rule engine runs its
//! checks; agent and human criteria are not run here.

use super::model::{Criterion, CriterionModel, RuleKind, text_of};
use vstd::prelude::*;

verus! {

/// One criterion to run: what it says, and how to judge it (`kind` empty
/// means it is not run here: an agent or a person judges it).
#[derive(Debug, Clone)]
pub struct RuleItem {
    pub description: String,
    pub kind: Option<RuleKind>,
    pub args: Vec<String>,
}

/// The view of a [`RuleItem`].
pub struct RuleItemModel {
    pub description: Seq<char>,
    pub kind: Option<RuleKind>,
    pub args: Seq<Seq<char>>,
}

impl View for RuleItem {
    type V = RuleItemModel;

    open spec fn view(&self) -> RuleItemModel {
        RuleItemModel {
            description: self.description@,
            kind: self.kind,
            args: self.args.deep_view(),
        }
    }
}

/// The item a criterion becomes: its text, its kind, and the fields the
/// check takes (file then text for `contains`).
pub open spec fn item_of(c: CriterionModel) -> RuleItemModel {
    RuleItemModel {
        description: text_of(c),
        kind: match c {
            CriterionModel::PathExists { .. } => Some(RuleKind::Path),
            CriterionModel::PathAbsent { .. } => Some(RuleKind::Absent),
            CriterionModel::FileContains { .. } => Some(RuleKind::Contains),
            CriterionModel::CommandRun { .. } => Some(RuleKind::Run),
            _ => None,
        },
        args: match c {
            CriterionModel::PathExists { path, .. } => seq![path],
            CriterionModel::PathAbsent { absent, .. } => seq![absent],
            CriterionModel::FileContains { file, contains, .. } => seq![file, contains],
            CriterionModel::CommandRun { run, .. } => seq![run],
            _ => Seq::empty(),
        },
    }
}

impl RuleItem {
    /// Whether the rule engine runs it.
    pub fn machine(&self) -> (b: bool)
        ensures
            b == (self.kind is Some),
    {
        self.kind.is_some()
    }
}

/// The item for one criterion.
fn item(criterion: &Criterion) -> (r: RuleItem)
    ensures
        r@ == item_of(criterion@),
{
    let description = criterion.text();
    let mut args: Vec<String> = Vec::new();
    let kind = match criterion {
        Criterion::PathExists { path, .. } => {
            args.push(path.clone());
            Some(RuleKind::Path)
        },
        Criterion::PathAbsent { absent, .. } => {
            args.push(absent.clone());
            Some(RuleKind::Absent)
        },
        Criterion::FileContains { file, contains, .. } => {
            args.push(file.clone());
            args.push(contains.clone());
            Some(RuleKind::Contains)
        },
        Criterion::CommandRun { run, .. } => {
            args.push(run.clone());
            Some(RuleKind::Run)
        },
        _ => None,
    };
    let r = RuleItem { description, kind, args };
    assert(r@.args =~= item_of(criterion@).args);
    r
}

/// The criteria turned into items, one each, in order.
pub fn items_of(criteria: &[Criterion]) -> (r: Vec<RuleItem>)
    ensures
        r.len() == criteria.len(),
        forall|i: int| 0 <= i < criteria.len() ==> #[trigger] r[i]@ == item_of(criteria[i]@),
{
    let mut r: Vec<RuleItem> = Vec::new();
    let mut i: usize = 0;
    while i < criteria.len()
        invariant
            i <= criteria.len(),
            r.len() == i,
            forall|j: int| 0 <= j < i ==> #[trigger] r[j]@ == item_of(criteria[j]@),
        decreases criteria.len() - i,
    {
        r.push(item(&criteria[i]));
        i += 1;
    }
    r
}

/// What the rule engine is handed for a criterion: the kind of check and
/// exactly the fields it judges by — the path that must exist, the path that
/// must not, the file and the text it must hold, the command to run; an
/// agent or human criterion is not run and gets nothing. The text is what a
/// person reads ([`text_of`]).
pub proof fn law_items_carry_the_judging_fields(c: CriterionModel)
    ensures
        item_of(c).description == text_of(c),
        c matches CriterionModel::PathExists { path, .. } ==> item_of(c).kind == Some(RuleKind::Path)
            && item_of(c).args == seq![path],
        c matches CriterionModel::PathAbsent { absent, .. } ==> item_of(c).kind == Some(
            RuleKind::Absent,
        ) && item_of(c).args == seq![absent],
        c matches CriterionModel::FileContains { file, contains, .. } ==> item_of(c).kind == Some(
            RuleKind::Contains,
        ) && item_of(c).args == seq![file, contains],
        c matches CriterionModel::CommandRun { run, .. } ==> item_of(c).kind == Some(RuleKind::Run)
            && item_of(c).args == seq![run],
        c matches CriterionModel::AgentJudgement { .. } ==> item_of(c).kind is None
            && item_of(c).args.len() == 0,
        c matches CriterionModel::HumanGate { .. } ==> item_of(c).kind is None
            && item_of(c).args.len() == 0,
{
}

} // verus!
