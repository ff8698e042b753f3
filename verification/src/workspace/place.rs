//! Where a task's artifacts land, and what the placeholders in its criteria
//! stand for.
//!
//! A landing relative to the workspace root is what the task declares, or
//! `artifacts/<kind>/<task>.md`; the journal (`log`) is the task file itself,
//! `tasks/<task>.yaml`; `{{artifacts}}` is the `artifacts` directory. A
//! criterion's placeholders are expanded to exactly these places, so writing
//! `{{report}}` in a criterion and writing the report's place are the same
//! thing. Against a base directory ([`Workspace::artifact`],
//! [`Workspace::placeholders`]) a declared path is taken as declared when
//! absolute and under the base otherwise.

use super::model::Workspace;
use crate::artifact::Artifact;
use crate::criterion::model::{Criterion, CriterionModel, expanded_from, expands_to};
use crate::paths::{join_chars, joined};
use crate::task::model::{Task, TaskModel, declared_for};
use crate::text::{chars_of, contains, find_from, first_at, lemma_first_at, occurs_at, push_chars, push_str, slice_of, string_of, same_str};
use vstd::prelude::*;

verus! {

/// Where an artifact of this kind lands, joined to `base`.
pub open spec fn landing_at(t: TaskModel, kind: Seq<char>, base: Seq<char>) -> Seq<char> {
    if kind == "log"@ {
        joined(base, "tasks/"@ + t.name + ".yaml"@)
    } else {
        match declared_for(t, kind) {
            Some(w) => if w.len() > 0 && w[0] == '/' {
                w
            } else {
                joined(base, w)
            },
            None => joined(base, "artifacts/"@ + kind + "/"@ + t.name + ".md"@),
        }
    }
}

/// Where an artifact lands, relative to the workspace root: as declared, or
/// `artifacts/<name>/<task>.md`.
pub open spec fn place_of(t: TaskModel, name: Seq<char>) -> Seq<char> {
    match declared_for(t, name) {
        Some(w) => w,
        None => "artifacts/"@ + name + "/"@ + t.name + ".md"@,
    }
}

/// The four placeholders a criterion may hold and the paths they stand for.
pub struct Placeholders {
    pub report: String,
    pub journal: String,
    pub log: String,
    pub artifacts: String,
}

/// The view of [`Placeholders`].
pub struct PlaceholdersModel {
    pub report: Seq<char>,
    pub journal: Seq<char>,
    pub log: Seq<char>,
    pub artifacts: Seq<char>,
}

impl View for Placeholders {
    type V = PlaceholdersModel;

    open spec fn view(&self) -> PlaceholdersModel {
        PlaceholdersModel {
            report: self.report@,
            journal: self.journal@,
            log: self.log@,
            artifacts: self.artifacts@,
        }
    }
}

/// The placeholders of a task's run, against `base`: the report, the journal
/// and the log at their landings, and the artifacts directory.
pub open spec fn placeholders_for(t: TaskModel, base: Seq<char>) -> PlaceholdersModel {
    PlaceholdersModel {
        report: landing_at(t, "report"@, base),
        journal: landing_at(t, "journal"@, base),
        log: landing_at(t, "log"@, base),
        artifacts: joined(base, "artifacts"@),
    }
}

/// The placeholders of a task's run relative to the workspace root: the
/// report and the journal at their places, the task file, and the artifacts
/// directory.
pub open spec fn root_placeholders(t: TaskModel) -> PlaceholdersModel {
    PlaceholdersModel {
        report: place_of(t, "report"@),
        journal: place_of(t, "journal"@),
        log: "tasks/"@ + t.name + ".yaml"@,
        artifacts: "artifacts"@,
    }
}

/// The path a placeholder's name stands for; `None` for a name not known.
pub open spec fn path_for(tab: PlaceholdersModel, name: Seq<char>) -> Option<Seq<char>> {
    if name == "report"@ {
        Some(tab.report)
    } else if name == "journal"@ {
        Some(tab.journal)
    } else if name == "log"@ {
        Some(tab.log)
    } else if name == "artifacts"@ {
        Some(tab.artifacts)
    } else {
        None
    }
}

/// The opening of a placeholder.
pub open spec fn opening() -> Seq<char> {
    seq!['{', '{']
}

/// The closing of a placeholder.
pub open spec fn closing() -> Seq<char> {
    seq!['}', '}']
}

/// Text with its placeholders replaced, scanning from the left: each `{{`
/// up to the next `}}` is a placeholder; a known name gives way to its path,
/// an unknown one is kept as written; a `{{` that is never closed, and all
/// that follows it, is kept as written.
pub open spec fn expand_text(tab: PlaceholdersModel, s: Seq<char>) -> Seq<char>
    decreases s.len(),
{
    match first_at(s, opening(), 0) {
        None => s,
        Some(i) => {
            let after = s.skip(i + 2);
            match first_at(after, closing(), 0) {
                None => s,
                Some(j) => {
                    proof {
                        lemma_first_at(s, opening(), 0);
                        lemma_first_at(after, closing(), 0);
                    }
                    let name = after.take(j);
                    s.take(i) + match path_for(tab, name) {
                        Some(p) => p,
                        None => opening() + name + closing(),
                    } + expand_text(tab, after.skip(j + 2))
                },
            }
        },
    }
}

/// A field of a criterion after expansion: text holding a `{{` is expanded,
/// other text is kept.
pub open spec fn field_expanded(tab: PlaceholdersModel, f: Seq<char>) -> Seq<char> {
    if contains(f, "{{"@) {
        expand_text(tab, f)
    } else {
        f
    }
}

/// A criterion with every field expanded.
pub open spec fn criterion_expanded(tab: PlaceholdersModel, c: CriterionModel) -> CriterionModel {
    match c {
        CriterionModel::PathExists { path, description } => CriterionModel::PathExists {
            path: field_expanded(tab, path),
            description: field_expanded(tab, description),
        },
        CriterionModel::PathAbsent { absent, description } => CriterionModel::PathAbsent {
            absent: field_expanded(tab, absent),
            description: field_expanded(tab, description),
        },
        CriterionModel::FileContains { file, contains, description } => {
            CriterionModel::FileContains {
                file: field_expanded(tab, file),
                contains: field_expanded(tab, contains),
                description: field_expanded(tab, description),
            }
        },
        CriterionModel::CommandRun { run, description } => CriterionModel::CommandRun {
            run: field_expanded(tab, run),
            description: field_expanded(tab, description),
        },
        CriterionModel::AgentJudgement { description } => CriterionModel::AgentJudgement {
            description: field_expanded(tab, description),
        },
        CriterionModel::HumanGate { description } => CriterionModel::HumanGate {
            description: field_expanded(tab, description),
        },
    }
}

/// One field expanded by a function that expands as the table does.
proof fn lemma_field<F: Fn(&str) -> String>(
    f: F,
    tab: PlaceholdersModel,
    before: Seq<char>,
    after: Seq<char>,
)
    requires
        expands_to(f, before, after),
        forall|w: &str, r: String| call_ensures(f, (w,), r) ==> r@ == expand_text(tab, w@),
    ensures
        after == field_expanded(tab, before),
{
    if contains(before, "{{"@) {
        let (w, r) = choose|w: &str, r: String|
            w@ == before && r@ == after && #[trigger] call_ensures(f, (w,), r);
    }
}

/// A criterion expanded by a function that expands as the table does.
proof fn lemma_criterion<F: Fn(&str) -> String>(
    f: F,
    tab: PlaceholdersModel,
    c: CriterionModel,
    d: CriterionModel,
)
    requires
        expanded_from(f, c, d),
        forall|w: &str, r: String| call_ensures(f, (w,), r) ==> r@ == expand_text(tab, w@),
    ensures
        d == criterion_expanded(tab, c),
{
    match (c, d) {
        (
            CriterionModel::PathExists { path: p, description: a },
            CriterionModel::PathExists { path: q, description: b },
        ) => {
            lemma_field(f, tab, p, q);
            lemma_field(f, tab, a, b);
        },
        (
            CriterionModel::PathAbsent { absent: p, description: a },
            CriterionModel::PathAbsent { absent: q, description: b },
        ) => {
            lemma_field(f, tab, p, q);
            lemma_field(f, tab, a, b);
        },
        (
            CriterionModel::FileContains { file: p, contains: s, description: a },
            CriterionModel::FileContains { file: q, contains: t, description: b },
        ) => {
            lemma_field(f, tab, p, q);
            lemma_field(f, tab, s, t);
            lemma_field(f, tab, a, b);
        },
        (
            CriterionModel::CommandRun { run: p, description: a },
            CriterionModel::CommandRun { run: q, description: b },
        ) => {
            lemma_field(f, tab, p, q);
            lemma_field(f, tab, a, b);
        },
        (
            CriterionModel::AgentJudgement { description: a },
            CriterionModel::AgentJudgement { description: b },
        ) => {
            lemma_field(f, tab, a, b);
        },
        (
            CriterionModel::HumanGate { description: a },
            CriterionModel::HumanGate { description: b },
        ) => {
            lemma_field(f, tab, a, b);
        },
        _ => {},
    }
}

impl Placeholders {
    /// The path a placeholder's name stands for; `None` for a name not known.
    pub fn path_of(&self, name: &str) -> (r: Option<&str>)
        ensures
            match r {
                Some(p) => path_for(self@, name@) == Some(p@),
                None => path_for(self@, name@) is None,
            },
    {
        let n = chars_of(name);
        if same_str(&n, "report") {
            Some(self.report.as_str())
        } else if same_str(&n, "journal") {
            Some(self.journal.as_str())
        } else if same_str(&n, "log") {
            Some(self.log.as_str())
        } else if same_str(&n, "artifacts") {
            Some(self.artifacts.as_str())
        } else {
            None
        }
    }

    /// The text with its placeholders replaced: a known `{{name}}` by its
    /// path, an unknown one kept as written, and an unclosed `{{` left alone
    /// with everything after it.
    pub fn expand(&self, text: &str) -> (r: String)
        ensures
            r@ == expand_text(self@, text@),
    {
        let mut open: Vec<char> = Vec::new();
        open.push('{');
        open.push('{');
        let mut close: Vec<char> = Vec::new();
        close.push('}');
        close.push('}');
        assert(open@ =~= opening());
        assert(close@ =~= closing());
        let mut out: Vec<char> = Vec::new();
        let mut rest = chars_of(text);
        loop
            invariant
                open@ == opening(),
                close@ == closing(),
                out@ + expand_text(self@, rest@) == expand_text(self@, text@),
            decreases rest.len(),
        {
            let ghost s = rest@;
            proof {
                lemma_first_at(s, opening(), 0);
            }
            match find_from(&rest, &open, 0) {
                None => {
                    push_chars(&mut out, &rest);
                    return string_of(&out);
                },
                Some(i) => {
                    let after = slice_of(&rest, i + 2, rest.len());
                    assert(after@ =~= s.skip(i + 2));
                    proof {
                        lemma_first_at(after@, closing(), 0);
                    }
                    match find_from(&after, &close, 0) {
                        None => {
                            push_chars(&mut out, &rest);
                            return string_of(&out);
                        },
                        Some(j) => {
                            let head = slice_of(&rest, 0, i);
                            assert(head@ =~= s.take(i as int));
                            let name = slice_of(&after, 0, j);
                            assert(name@ =~= after@.take(j as int));
                            let tail = slice_of(&after, j + 2, after.len());
                            assert(tail@ =~= after@.skip(j + 2));
                            let ghost before = out@;
                            push_chars(&mut out, &head);
                            let known = self.path_of(string_of(&name).as_str());
                            match known {
                                Some(p) => {
                                    push_str(&mut out, p);
                                },
                                None => {
                                    push_chars(&mut out, &open);
                                    push_chars(&mut out, &name);
                                    push_chars(&mut out, &close);
                                },
                            }
                            assert(out@ + expand_text(self@, tail@) =~= before + expand_text(
                                self@,
                                s,
                            ));
                            rest = tail;
                        },
                    }
                },
            }
        }
    }
}

impl Workspace {
    /// Where this run writes this kind of artifact, joined to the platform's
    /// `base`: the log is the task file itself (`tasks/<task>.yaml`); a
    /// declared path is taken as declared when absolute and under `base`
    /// otherwise; anything else lands at `artifacts/<kind>/<task>.md`.
    pub fn artifact(&self, task: &Task, kind: &str, base: &str) -> (r: String)
        ensures
            r@ == landing_at(task@, kind@, base@),
    {
        let k = chars_of(kind);
        let b = chars_of(base);
        if same_str(&k, "log") {
            let mut rest = chars_of("tasks/");
            push_str(&mut rest, task.name.as_str());
            push_str(&mut rest, ".yaml");
            let s = string_of(&rest);
            let r = join_chars(&b, s.as_str());
            return string_of(&r);
        }
        match task.declared(kind) {
            Some(w) => {
                let wc = chars_of(w.as_str());
                if wc.len() > 0 && wc[0] == '/' {
                    w
                } else {
                    let r = join_chars(&b, w.as_str());
                    string_of(&r)
                }
            },
            None => {
                let mut rest = chars_of("artifacts/");
                push_str(&mut rest, kind);
                push_str(&mut rest, "/");
                push_str(&mut rest, task.name.as_str());
                push_str(&mut rest, ".md");
                let s = string_of(&rest);
                let r = join_chars(&b, s.as_str());
                string_of(&r)
            },
        }
    }

    /// Where this artifact lands, relative to the workspace root: as the task
    /// declares it, or `artifacts/<name>/<task>.md`.
    pub fn place(&self, task: &Task, artifact: &Artifact) -> (r: String)
        ensures
            r@ == place_of(task@, artifact@.name),
    {
        match task.declared(artifact.name.as_str()) {
            Some(w) => w,
            None => {
                let mut out = chars_of("artifacts/");
                push_str(&mut out, artifact.name.as_str());
                push_str(&mut out, "/");
                push_str(&mut out, task.name.as_str());
                push_str(&mut out, ".md");
                string_of(&out)
            },
        }
    }

    /// The placeholders of this run against `base`, worked out from the same
    /// landings as [`Workspace::artifact`].
    pub fn placeholders(&self, task: &Task, base: &str) -> (tab: Placeholders)
        ensures
            tab@ == placeholders_for(task@, base@),
    {
        let b = chars_of(base);
        let a = join_chars(&b, "artifacts");
        Placeholders {
            report: self.artifact(task, "report", base),
            journal: self.artifact(task, "journal", base),
            log: self.artifact(task, "log", base),
            artifacts: string_of(&a),
        }
    }

    /// The placeholders of this run relative to the workspace root (see
    /// [`root_placeholders`]), from the same places as [`Workspace::place`].
    fn root_placeholders(&self, task: &Task) -> (tab: Placeholders)
        ensures
            tab@ == root_placeholders(task@),
    {
        let mut log = chars_of("tasks/");
        push_str(&mut log, task.name.as_str());
        push_str(&mut log, ".yaml");
        Placeholders {
            report: self.place(task, &Artifact::named("report")),
            journal: self.place(task, &Artifact::named("journal")),
            log: string_of(&log),
            artifacts: String::from_str("artifacts"),
        }
    }

    /// The criterion with its placeholders replaced by this run's places
    /// relative to the workspace root (the same places [`Workspace::place`]
    /// gives); fields without a `{{` are kept.
    pub fn expanded(&self, criterion: &Criterion, task: &Task) -> (r: Criterion)
        ensures
            r@ == criterion_expanded(root_placeholders(task@), criterion@),
    {
        let tab = self.root_placeholders(task);
        let ex = |text: &str| -> (r: String)
            ensures
                r@ == expand_text(tab@, text@),
            { tab.expand(text) };
        assert(forall|w: &str, r: String| call_ensures(ex, (w,), r) ==> r@ == expand_text(tab@, w@));
        let r = criterion.expanded(ex);
        proof {
            lemma_criterion(ex, tab@, criterion@, r@);
        }
        r
    }
}

/// The first `}}` after a name without `}` is the one that closes it.
proof fn lemma_closes_at(name: Seq<char>)
    requires
        forall|k: int| 0 <= k < name.len() ==> name[k] != '}',
    ensures
        first_at(name + closing(), closing(), 0) == Some(name.len() as int),
{
    let after = name + closing();
    let n = name.len() as int;
    lemma_first_at(after, closing(), 0);
    assert(after.subrange(n, n + 2) =~= closing());
    assert(occurs_at(after, closing(), n));
    let found = first_at(after, closing(), 0);
    assert(found is Some);
    let j = found->0;
    assert(0 <= j && occurs_at(after, closing(), j));
    if j < n {
        assert(after.subrange(j, j + 2)[0] == after[j]);
        assert(after[j] == name[j]);
        assert(false);
    }
    if j > n {
        assert(!occurs_at(after, closing(), n));
    }
}

/// One placeholder standing alone gives way to its path, when its name holds
/// no `}`.
proof fn lemma_single_placeholder(tab: PlaceholdersModel, name: Seq<char>, p: Seq<char>)
    requires
        forall|k: int| 0 <= k < name.len() ==> name[k] != '}',
        path_for(tab, name) == Some(p),
    ensures
        expand_text(tab, opening() + name + closing()) == p,
{
    let s = opening() + name + closing();
    assert(s.subrange(0, 2) =~= opening());
    assert(first_at(s, opening(), 0) == Some(0int));
    let after = s.skip(2);
    assert(after =~= name + closing());
    lemma_closes_at(name);
    assert(after.take(name.len() as int) =~= name);
    let rest = after.skip(name.len() + 2int);
    assert(rest =~= Seq::<char>::empty());
    assert(expand_text(tab, rest) == rest);
    assert(s.take(0) =~= Seq::<char>::empty());
    assert(expand_text(tab, s) == s.take(0) + p + expand_text(tab, rest));
}

/// A criterion that writes a placeholder and one that writes the landing say
/// the same: `{{report}}`, `{{journal}}` and `{{log}}` stand for exactly where
/// [`Workspace::artifact`] puts the report, the journal and the log, and
/// `{{artifacts}}` for the artifacts directory under the same base.
pub proof fn law_placeholders_are_the_landings(t: TaskModel, base: Seq<char>)
    ensures
        expand_text(placeholders_for(t, base), "{{report}}"@) == landing_at(t, "report"@, base),
        expand_text(placeholders_for(t, base), "{{journal}}"@) == landing_at(t, "journal"@, base),
        expand_text(placeholders_for(t, base), "{{log}}"@) == landing_at(t, "log"@, base),
        expand_text(placeholders_for(t, base), "{{artifacts}}"@) == joined(base, "artifacts"@),
{
    reveal_strlit("{{report}}");
    reveal_strlit("{{journal}}");
    reveal_strlit("{{log}}");
    reveal_strlit("{{artifacts}}");
    reveal_strlit("report");
    reveal_strlit("journal");
    reveal_strlit("log");
    reveal_strlit("artifacts");
    let tab = placeholders_for(t, base);
    assert("{{report}}"@ =~= opening() + "report"@ + closing());
    assert("{{journal}}"@ =~= opening() + "journal"@ + closing());
    assert("{{log}}"@ =~= opening() + "log"@ + closing());
    assert("{{artifacts}}"@ =~= opening() + "artifacts"@ + closing());
    assert("report"@ != "journal"@ && "report"@ != "log"@ && "report"@ != "artifacts"@);
    assert("journal"@ != "log"@ && "journal"@ != "artifacts"@ && "log"@ != "artifacts"@);
    lemma_single_placeholder(tab, "report"@, tab.report);
    lemma_single_placeholder(tab, "journal"@, tab.journal);
    lemma_single_placeholder(tab, "log"@, tab.log);
    lemma_single_placeholder(tab, "artifacts"@, tab.artifacts);
}

/// Writing a placeholder in a criterion is writing the place directly:
/// expanded for a task, `{{report}}` and `{{journal}}` are where
/// [`Workspace::place`] puts the report and the journal, `{{log}}` is the task
/// file `tasks/<task>.yaml`, and `{{artifacts}}` is `artifacts`.
pub proof fn law_placeholders_are_the_places(t: TaskModel)
    ensures
        expand_text(root_placeholders(t), "{{report}}"@) == place_of(t, "report"@),
        expand_text(root_placeholders(t), "{{journal}}"@) == place_of(t, "journal"@),
        expand_text(root_placeholders(t), "{{log}}"@) == "tasks/"@ + t.name + ".yaml"@,
        expand_text(root_placeholders(t), "{{artifacts}}"@) == "artifacts"@,
{
    reveal_strlit("{{report}}");
    reveal_strlit("{{journal}}");
    reveal_strlit("{{log}}");
    reveal_strlit("{{artifacts}}");
    reveal_strlit("report");
    reveal_strlit("journal");
    reveal_strlit("log");
    reveal_strlit("artifacts");
    let tab = root_placeholders(t);
    assert("{{report}}"@ =~= opening() + "report"@ + closing());
    assert("{{journal}}"@ =~= opening() + "journal"@ + closing());
    assert("{{log}}"@ =~= opening() + "log"@ + closing());
    assert("{{artifacts}}"@ =~= opening() + "artifacts"@ + closing());
    assert("report"@ != "journal"@ && "report"@ != "log"@ && "report"@ != "artifacts"@);
    assert("journal"@ != "log"@ && "journal"@ != "artifacts"@ && "log"@ != "artifacts"@);
    lemma_single_placeholder(tab, "report"@, tab.report);
    lemma_single_placeholder(tab, "journal"@, tab.journal);
    lemma_single_placeholder(tab, "log"@, tab.log);
    lemma_single_placeholder(tab, "artifacts"@, tab.artifacts);
}

/// Text without a `{{` is left as it is.
pub proof fn law_plain_text_is_kept(tab: PlaceholdersModel, s: Seq<char>)
    requires
        !contains(s, "{{"@),
    ensures
        expand_text(tab, s) == s,
{
    reveal_strlit("{{");
    assert("{{"@ =~= opening());
    lemma_first_at(s, opening(), 0);
    match first_at(s, opening(), 0) {
        Some(i) => {
            assert(occurs_at(s, "{{"@, i));
        },
        None => {},
    }
}

} // verus!
