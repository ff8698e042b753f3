//! Criteria: who judges and how.
//!
//! A criterion is made of fields, not a line of syntax: `path` exists,
//! `absent` does not, `file` + `contains` holds the text, `run` exits with
//! zero. The toolkit only says what to run; running it is each platform's job.

use crate::executor::{AGENT, HUMAN, RULE};
use crate::text::{chars_of, contains, push_str, string_of};
use crate::yaml::{Node, Yaml, entries_model, push_text_entry, str_entry};
use vstd::prelude::*;

verus! {

/// The four mechanical checks. The wire name ([`RuleKind::as_str`]) is the
/// field a definition writes for it.
#[derive(Debug, Clone, Copy, PartialEq, Eq)]
pub enum RuleKind {
    Path,
    Absent,
    Contains,
    Run,
}

/// The wire name of a rule kind.
pub open spec fn kind_name(k: RuleKind) -> Seq<char> {
    match k {
        RuleKind::Path => "path"@,
        RuleKind::Absent => "absent"@,
        RuleKind::Contains => "contains"@,
        RuleKind::Run => "run"@,
    }
}

impl RuleKind {
    /// The field a definition writes for this kind.
    pub fn as_str(&self) -> (r: &'static str)
        ensures
            r@ == kind_name(*self),
    {
        match self {
            RuleKind::Path => "path",
            RuleKind::Absent => "absent",
            RuleKind::Contains => "contains",
            RuleKind::Run => "run",
        }
    }
}

/// A criterion: who judges, how, and what it says.
///
/// A value, never changed. Each of the four rule checks is a variant; agent
/// and human criteria carry only their description.
#[derive(Debug, Clone, PartialEq, Eq)]
pub enum Criterion {
    PathExists { path: String, description: String },
    PathAbsent { absent: String, description: String },
    FileContains { file: String, contains: String, description: String },
    CommandRun { run: String, description: String },
    AgentJudgement { description: String },
    HumanGate { description: String },
}

/// The view of a [`Criterion`].
pub enum CriterionModel {
    PathExists { path: Seq<char>, description: Seq<char> },
    PathAbsent { absent: Seq<char>, description: Seq<char> },
    FileContains { file: Seq<char>, contains: Seq<char>, description: Seq<char> },
    CommandRun { run: Seq<char>, description: Seq<char> },
    AgentJudgement { description: Seq<char> },
    HumanGate { description: Seq<char> },
}

impl View for Criterion {
    type V = CriterionModel;

    open spec fn view(&self) -> CriterionModel {
        match self {
            Criterion::PathExists { path, description } => CriterionModel::PathExists {
                path: path@,
                description: description@,
            },
            Criterion::PathAbsent { absent, description } => CriterionModel::PathAbsent {
                absent: absent@,
                description: description@,
            },
            Criterion::FileContains { file, contains, description } =>
                CriterionModel::FileContains {
                file: file@,
                contains: contains@,
                description: description@,
            },
            Criterion::CommandRun { run, description } => CriterionModel::CommandRun {
                run: run@,
                description: description@,
            },
            Criterion::AgentJudgement { description } => CriterionModel::AgentJudgement {
                description: description@,
            },
            Criterion::HumanGate { description } => CriterionModel::HumanGate {
                description: description@,
            },
        }
    }
}

/// Who judges: rule, agent or human.
pub open spec fn judge_of(c: CriterionModel) -> Seq<char> {
    match c {
        CriterionModel::AgentJudgement { .. } => AGENT@,
        CriterionModel::HumanGate { .. } => HUMAN@,
        _ => RULE@,
    }
}

/// The description as written.
pub open spec fn description_of(c: CriterionModel) -> Seq<char> {
    match c {
        CriterionModel::PathExists { description, .. } => description,
        CriterionModel::PathAbsent { description, .. } => description,
        CriterionModel::FileContains { description, .. } => description,
        CriterionModel::CommandRun { description, .. } => description,
        CriterionModel::AgentJudgement { description } => description,
        CriterionModel::HumanGate { description } => description,
    }
}

/// What a person reads: the written description, or else a sentence made
/// from the check.
pub open spec fn text_of(c: CriterionModel) -> Seq<char> {
    if description_of(c).len() > 0 {
        description_of(c)
    } else {
        match c {
            CriterionModel::PathExists { path, .. } => "存在："@ + path,
            CriterionModel::PathAbsent { absent, .. } => "不存在："@ + absent,
            CriterionModel::FileContains { file, contains, .. } => "含「"@ + contains + "」："@
                + file,
            CriterionModel::CommandRun { run, .. } => "跑通："@ + run,
            _ => Seq::empty(),
        }
    }
}

/// The description entry, present only when something is written.
pub open spec fn description_entry(d: Seq<char>) -> Seq<(Node, Node)> {
    if d.len() > 0 {
        seq![str_entry("description"@, d)]
    } else {
        Seq::empty()
    }
}

/// The fields a definition writes for the criterion, in this order.
pub open spec fn criterion_entries(c: CriterionModel) -> Seq<(Node, Node)> {
    match c {
        CriterionModel::PathExists { path, description } => seq![
            str_entry("executor"@, RULE@),
            str_entry("path"@, path),
        ] + description_entry(description),
        CriterionModel::PathAbsent { absent, description } => seq![
            str_entry("executor"@, RULE@),
            str_entry("absent"@, absent),
        ] + description_entry(description),
        CriterionModel::FileContains { file, contains, description } => seq![
            str_entry("executor"@, RULE@),
            str_entry("file"@, file),
            str_entry("contains"@, contains),
        ] + description_entry(description),
        CriterionModel::CommandRun { run, description } => seq![
            str_entry("executor"@, RULE@),
            str_entry("run"@, run),
        ] + description_entry(description),
        CriterionModel::AgentJudgement { description } => seq![
            str_entry("executor"@, AGENT@),
            str_entry("description"@, description),
        ],
        CriterionModel::HumanGate { description } => seq![
            str_entry("executor"@, HUMAN@),
            str_entry("description"@, description),
        ],
    }
}

/// The criterion written back in the shape a definition uses.
pub open spec fn criterion_node(c: CriterionModel) -> Node {
    Node::Mapping(criterion_entries(c))
}

/// `before` expanded by `expand`: text holding a `{{` is handed to it and
/// replaced by what it gives back; other text is kept.
pub open spec fn expands_to<F: Fn(&str) -> String>(
    expand: F,
    before: Seq<char>,
    after: Seq<char>,
) -> bool {
    if contains(before, "{{"@) {
        exists|w: &str, r: String|
            w@ == before && r@ == after && #[trigger] call_ensures(expand, (w,), r)
    } else {
        after == before
    }
}

/// `d` is `c` with every field expanded by `expand`.
pub open spec fn expanded_from<F: Fn(&str) -> String>(
    expand: F,
    c: CriterionModel,
    d: CriterionModel,
) -> bool {
    match (c, d) {
        (
            CriterionModel::PathExists { path: p, description: a },
            CriterionModel::PathExists { path: q, description: b },
        ) => expands_to(expand, p, q) && expands_to(expand, a, b),
        (
            CriterionModel::PathAbsent { absent: p, description: a },
            CriterionModel::PathAbsent { absent: q, description: b },
        ) => expands_to(expand, p, q) && expands_to(expand, a, b),
        (
            CriterionModel::FileContains { file: p, contains: s, description: a },
            CriterionModel::FileContains { file: q, contains: t, description: b },
        ) => expands_to(expand, p, q) && expands_to(expand, s, t) && expands_to(expand, a, b),
        (
            CriterionModel::CommandRun { run: p, description: a },
            CriterionModel::CommandRun { run: q, description: b },
        ) => expands_to(expand, p, q) && expands_to(expand, a, b),
        (
            CriterionModel::AgentJudgement { description: a },
            CriterionModel::AgentJudgement { description: b },
        ) => expands_to(expand, a, b),
        (
            CriterionModel::HumanGate { description: a },
            CriterionModel::HumanGate { description: b },
        ) => expands_to(expand, a, b),
        _ => false,
    }
}

/// One field expanded: handed to `expand` only when it holds a `{{`.
fn expand_field<F: Fn(&str) -> String>(expand: &F, value: &String) -> (r: String)
    requires
        forall|s: &str| call_requires(*expand, (s,)),
    ensures
        expands_to(*expand, value@, r@),
{
    let chars = chars_of(value.as_str());
    if crate::text::contains_str(&chars, "{{") {
        let w: &str = value.as_str();
        let r = expand(w);
        assert(call_ensures(*expand, (w,), r));
        r
    } else {
        value.clone()
    }
}

/// Appends the description entry when something is written.
fn push_description(entries: &mut Vec<(Yaml, Yaml)>, description: &String)
    ensures
        entries_model(final(entries)@) == entries_model(old(entries)@) + description_entry(
            description@,
        ),
{
    let dc = chars_of(description.as_str());
    if dc.len() > 0 {
        push_text_entry(entries, "description", description.as_str());
        assert(entries_model(entries@) =~= entries_model(old(entries)@) + description_entry(
            description@,
        ));
    } else {
        assert(entries_model(entries@) =~= entries_model(old(entries)@) + description_entry(
            description@,
        ));
    }
}

impl Criterion {
    /// Who judges: `rule`, `agent` or `human`.
    pub fn executor(&self) -> (r: &'static str)
        ensures
            r@ == judge_of(self@),
    {
        match self {
            Criterion::AgentJudgement { .. } => AGENT,
            Criterion::HumanGate { .. } => HUMAN,
            _ => RULE,
        }
    }

    /// The description as written (possibly empty).
    pub fn description(&self) -> (r: &str)
        ensures
            r@ == description_of(self@),
    {
        match self {
            Criterion::PathExists { description, .. } => description.as_str(),
            Criterion::PathAbsent { description, .. } => description.as_str(),
            Criterion::FileContains { description, .. } => description.as_str(),
            Criterion::CommandRun { description, .. } => description.as_str(),
            Criterion::AgentJudgement { description } => description.as_str(),
            Criterion::HumanGate { description } => description.as_str(),
        }
    }

    /// What a person reads: the description when written, else a sentence
    /// made from the check; agent and human criteria without one read empty.
    pub fn text(&self) -> (r: String)
        ensures
            r@ == text_of(self@),
    {
        let d = self.description();
        let dc = chars_of(d);
        if dc.len() > 0 {
            return String::from_str(d);
        }
        let mut out: Vec<char> = Vec::new();
        match self {
            Criterion::PathExists { path, .. } => {
                push_str(&mut out, "存在：");
                push_str(&mut out, path.as_str());
            },
            Criterion::PathAbsent { absent, .. } => {
                push_str(&mut out, "不存在：");
                push_str(&mut out, absent.as_str());
            },
            Criterion::FileContains { file, contains, .. } => {
                push_str(&mut out, "含「");
                push_str(&mut out, contains.as_str());
                push_str(&mut out, "」：");
                push_str(&mut out, file.as_str());
            },
            Criterion::CommandRun { run, .. } => {
                push_str(&mut out, "跑通：");
                push_str(&mut out, run.as_str());
            },
            _ => {},
        }
        string_of(&out)
    }

    /// Written back in the shape a definition uses: the executor, the check's
    /// fields, and the description when one is written (always for agent and
    /// human criteria).
    pub fn to_yaml(&self) -> (r: Yaml)
        ensures
            r@ == criterion_node(self@),
    {
        let mut entries: Vec<(Yaml, Yaml)> = Vec::new();
        match self {
            Criterion::PathExists { path, description } => {
                push_text_entry(&mut entries, "executor", RULE);
                push_text_entry(&mut entries, "path", path.as_str());
                push_description(&mut entries, description);
            },
            Criterion::PathAbsent { absent, description } => {
                push_text_entry(&mut entries, "executor", RULE);
                push_text_entry(&mut entries, "absent", absent.as_str());
                push_description(&mut entries, description);
            },
            Criterion::FileContains { file, contains, description } => {
                push_text_entry(&mut entries, "executor", RULE);
                push_text_entry(&mut entries, "file", file.as_str());
                push_text_entry(&mut entries, "contains", contains.as_str());
                push_description(&mut entries, description);
            },
            Criterion::CommandRun { run, description } => {
                push_text_entry(&mut entries, "executor", RULE);
                push_text_entry(&mut entries, "run", run.as_str());
                push_description(&mut entries, description);
            },
            Criterion::AgentJudgement { description } => {
                push_text_entry(&mut entries, "executor", AGENT);
                push_text_entry(&mut entries, "description", description.as_str());
            },
            Criterion::HumanGate { description } => {
                push_text_entry(&mut entries, "executor", HUMAN);
                push_text_entry(&mut entries, "description", description.as_str());
            },
        }
        assert(entries_model(entries@) =~= criterion_entries(self@));
        Yaml::Mapping(entries)
    }

    /// Placeholder expansion: every field that holds a `{{` is handed to
    /// `expand` and replaced by what it gives back; the others are kept, and
    /// `expand` is not called for them.
    pub fn expanded<F: Fn(&str) -> String>(&self, expand: F) -> (r: Criterion)
        requires
            forall|s: &str| call_requires(expand, (s,)),
        ensures
            expanded_from(expand, self@, r@),
    {
        match self {
            Criterion::PathExists { path, description } => Criterion::PathExists {
                path: expand_field(&expand, path),
                description: expand_field(&expand, description),
            },
            Criterion::PathAbsent { absent, description } => Criterion::PathAbsent {
                absent: expand_field(&expand, absent),
                description: expand_field(&expand, description),
            },
            Criterion::FileContains { file, contains, description } => Criterion::FileContains {
                file: expand_field(&expand, file),
                contains: expand_field(&expand, contains),
                description: expand_field(&expand, description),
            },
            Criterion::CommandRun { run, description } => Criterion::CommandRun {
                run: expand_field(&expand, run),
                description: expand_field(&expand, description),
            },
            Criterion::AgentJudgement { description } => Criterion::AgentJudgement {
                description: expand_field(&expand, description),
            },
            Criterion::HumanGate { description } => Criterion::HumanGate {
                description: expand_field(&expand, description),
            },
        }
    }
}

} // verus!
