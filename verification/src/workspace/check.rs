//! Checking a definition against the workspace: do the paths its rule
//! criteria name exist, and is every report section its descriptions mention
//! covered by a `contains` criterion.
//!
//! Whether a path exists is the caller's to say: the toolkit does not touch
//! the file system. A path holding a placeholder that only a task's run fills
//! in is not asked about; its finding says it was left unchecked.

use super::model::Workspace;
use crate::criterion::model::Criterion;
use crate::paths::{expanded_against, lemma_expanded_without_placeholders};
use crate::text::{chars_of, contains, contains_str, push_chars, push_str, string_of};
use crate::workflow::check::{
    all_mentions, all_named_paths, any_covers, covered_sections, covered_texts, covers,
    first_of_each, mentioned_sections, named_paths, path_question, section_question, where_of,
};
use crate::workflow::findings::{
    held_by_rule, lemma_covered, lemma_first_of_each, lemma_mentioned_in, lemma_rule_paths,
    mentioned_in, met_before, rule_paths,
};
use crate::workflow::model::{Workflow, WorkflowModel};
use vstd::prelude::*;

pub use crate::workflow::check::looks_like_section;

verus! {

/// One thing the check found: where, what was checked, and whether it
/// passed — `None` when it was left unchecked.
#[derive(Debug, Clone)]
pub struct Finding {
    pub where_: String,
    pub what: String,
    /// The result when checked; `None` when left for the task's run.
    pub ok: Option<bool>,
}

/// The first placeholder a path holds that only a task's run fills in, in
/// the order `{{report}}`, `{{journal}}`, `{{log}}`, `{{artifacts}}`.
pub open spec fn first_runtime_placeholder(path: Seq<char>) -> Option<Seq<char>> {
    if contains(path, "{{report}}"@) {
        Some("{{report}}"@)
    } else if contains(path, "{{journal}}"@) {
        Some("{{journal}}"@)
    } else if contains(path, "{{log}}"@) {
        Some("{{log}}"@)
    } else if contains(path, "{{artifacts}}"@) {
        Some("{{artifacts}}"@)
    } else {
        None
    }
}

/// What a finding left unchecked says.
pub open spec fn unchecked_question(placeholder: Seq<char>) -> Seq<char> {
    "判据里的路径含 "@ + placeholder + "，未核（等任务执行时再核）"@
}

/// One finding about one named path: left unchecked when the path holds a
/// runtime placeholder, else the answer `exists` gave for the path as written.
pub open spec fn path_checked<F: Fn(&str) -> bool>(
    f: Finding,
    item: (Seq<char>, Seq<char>),
    path_exists: F,
) -> bool {
    &&& f.where_@ == where_of(item.0, item.1)
    &&& match first_runtime_placeholder(item.1) {
        Some(p) => f.what@ == unchecked_question(p) && f.ok is None,
        None => f.what@ == path_question(item.1) && exists|w: &str, b: bool|
            w@ == item.1 && f.ok == Some(b) && #[trigger] call_ensures(path_exists, (w,), b),
    }
}

/// `found` holds one finding for each named path, in order.
pub open spec fn paths_checked<F: Fn(&str) -> bool>(
    found: Seq<Finding>,
    paths: Seq<(Seq<char>, Seq<char>)>,
    path_exists: F,
) -> bool {
    &&& found.len() == paths.len()
    &&& forall|k: int| 0 <= k < found.len() ==> path_checked(#[trigger] found[k], paths[k], path_exists)
}

/// The ensures of a workspace check: one finding per path a rule criterion
/// names, step by step, then one per section the descriptions mention, each
/// name once, in the order first met.
pub open spec fn checked_in_workspace<F: Fn(&str) -> bool>(
    w: WorkflowModel,
    path_exists: F,
    found: Seq<Finding>,
) -> bool {
    let paths = all_named_paths(w.steps);
    let names = first_of_each(all_mentions(w.steps));
    let covered = covered_texts(w.steps);
    &&& found.len() == paths.len() + names.len()
    &&& paths_checked(found.take(paths.len() as int), paths, path_exists)
    &&& forall|j: int|
        0 <= j < names.len() ==> {
            &&& (#[trigger] found[paths.len() + j]).where_@ == "description"@
            &&& found[paths.len() + j].what@ == section_question(names[j])
            &&& found[paths.len() + j].ok == Some(covers(covered, names[j]))
        }
}

/// The first runtime placeholder a path holds, as text.
fn runtime_placeholder(path: &str) -> (r: Option<&'static str>)
    ensures
        match r {
            Some(p) => first_runtime_placeholder(path@) == Some(p@),
            None => first_runtime_placeholder(path@) is None,
        },
{
    let chars = chars_of(path);
    if contains_str(&chars, "{{report}}") {
        Some("{{report}}")
    } else if contains_str(&chars, "{{journal}}") {
        Some("{{journal}}")
    } else if contains_str(&chars, "{{log}}") {
        Some("{{log}}")
    } else if contains_str(&chars, "{{artifacts}}") {
        Some("{{artifacts}}")
    } else {
        None
    }
}

impl Workspace {
    /// Checks a definition: every path a `path` or `file` criterion names is
    /// asked of `path_exists` as written — except one holding `{{report}}`,
    /// `{{journal}}`, `{{log}}` or `{{artifacts}}`, whose finding says it
    /// waits for the task's run; then every report section the descriptions
    /// mention is checked against the texts the `contains` criteria look for.
    pub fn check<F: Fn(&str) -> bool>(&self, workflow: &Workflow, path_exists: F) -> (found: Vec<
        Finding,
    >)
        requires
            forall|s: &str| call_requires(path_exists, (s,)),
        ensures
            checked_in_workspace(workflow@, path_exists, found@),
    {
        let ghost steps = workflow@.steps;
        let mut found: Vec<Finding> = Vec::new();
        let mut i: usize = 0;
        while i < workflow.steps.len()
            invariant
                i <= workflow.steps.len(),
                steps == workflow@.steps,
                steps.len() == workflow.steps.len(),
                forall|s: &str| call_requires(path_exists, (s,)),
                paths_checked(found@, all_named_paths(steps.take(i as int)), path_exists),
            decreases workflow.steps.len() - i,
        {
            let step = &workflow.steps[i];
            let ghost cs = step@.criteria;
            let ghost start = all_named_paths(steps.take(i as int));
            assert(steps.take(i + 1).drop_last() =~= steps.take(i as int));
            assert(steps.take(i + 1).last() == step@);
            let mut j: usize = 0;
            assert(start + named_paths(step@.name, cs.take(0)) =~= start);
            while j < step.criteria.len()
                invariant
                    j <= step.criteria.len(),
                    cs == step@.criteria,
                    cs.len() == step.criteria.len(),
                    forall|s: &str| call_requires(path_exists, (s,)),
                    paths_checked(found@, start + named_paths(step@.name, cs.take(j as int)), path_exists),
                decreases step.criteria.len() - j,
            {
                assert(cs.take(j + 1).drop_last() =~= cs.take(j as int));
                assert(cs.take(j + 1).last() == step.criteria@[j as int]@);
                let literal: Option<&String> = match &step.criteria[j] {
                    Criterion::PathExists { path, .. } => Some(path),
                    Criterion::FileContains { file, .. } => Some(file),
                    _ => None,
                };
                let ghost paths = start + named_paths(step@.name, cs.take(j as int));
                match literal {
                    Some(lit) => {
                        let lc = chars_of(lit.as_str());
                        let mut place = chars_of(step.name.as_str());
                        push_str(&mut place, "·");
                        push_chars(&mut place, &lc);
                        let f = match runtime_placeholder(lit.as_str()) {
                            Some(p) => {
                                let mut what = chars_of("判据里的路径含 ");
                                push_str(&mut what, p);
                                push_str(&mut what, "，未核（等任务执行时再核）");
                                Finding { where_: string_of(&place), what: string_of(&what), ok: None }
                            },
                            None => {
                                let w: &str = lit.as_str();
                                let b = path_exists(w);
                                let mut what = chars_of("判据里的路径在不在：");
                                push_str(&mut what, w);
                                let f = Finding {
                                    where_: string_of(&place),
                                    what: string_of(&what),
                                    ok: Some(b),
                                };
                                assert(path_checked(f, (step@.name, lit@), path_exists));
                                f
                            },
                        };
                        let ghost before = found@;
                        found.push(f);
                        proof {
                            let item = (step@.name, lit@);
                            assert(named_paths(step@.name, cs.take(j + 1)) =~= named_paths(
                                step@.name,
                                cs.take(j as int),
                            ) + seq![item]);
                            assert(start + named_paths(step@.name, cs.take(j + 1)) =~= paths.push(item));
                            assert forall|k: int| 0 <= k < found@.len() implies path_checked(
                                #[trigger] found@[k],
                                paths.push(item)[k],
                                path_exists,
                            ) by {
                                if k < before.len() {
                                    assert(found@[k] == before[k]);
                                    assert(paths.push(item)[k] == paths[k]);
                                }
                            }
                        }
                    },
                    None => {
                        assert(named_paths(step@.name, cs.take(j + 1)) =~= named_paths(
                            step@.name,
                            cs.take(j as int),
                        ));
                    },
                }
                j += 1;
            }
            assert(cs.take(step.criteria.len() as int) =~= cs);
            assert(all_named_paths(steps.take(i + 1)) == start + named_paths(step@.name, cs));
            i += 1;
        }
        assert(steps.take(workflow.steps.len() as int) =~= steps);
        let ghost paths = all_named_paths(steps);
        let ghost npaths = found.len();
        assert(found@.take(npaths as int) =~= found@);
        let covered = covered_sections(workflow);
        let names = mentioned_sections(workflow);
        let mut k: usize = 0;
        while k < names.len()
            invariant
                k <= names.len(),
                found.len() == npaths + k,
                paths == all_named_paths(steps),
                npaths == paths.len(),
                paths_checked(found@.take(npaths as int), paths, path_exists),
                names.deep_view() == first_of_each(all_mentions(steps)),
                covered.deep_view() == covered_texts(steps),
                forall|j: int|
                    0 <= j < k ==> {
                        &&& (#[trigger] found@[npaths + j]).where_@ == "description"@
                        &&& found@[npaths + j].what@ == section_question(names.deep_view()[j])
                        &&& found@[npaths + j].ok == Some(covers(covered.deep_view(), names.deep_view()[j]))
                    },
            decreases names.len() - k,
        {
            assert(names.deep_view()[k as int] =~= names@[k as int]@);
            let mut what = chars_of("description 提到的报告小节有没有判据覆盖：");
            push_chars(&mut what, &names[k]);
            let f = Finding {
                where_: String::from_str("description"),
                what: string_of(&what),
                ok: Some(any_covers(&covered, &names[k])),
            };
            let ghost before = found@;
            found.push(f);
            assert(found@.take(npaths as int) =~= before.take(npaths as int));
            assert forall|j: int| 0 <= j < k + 1 implies {
                &&& (#[trigger] found@[npaths + j]).where_@ == "description"@
                &&& found@[npaths + j].what@ == section_question(names.deep_view()[j])
                &&& found@[npaths + j].ok == Some(covers(covered.deep_view(), names.deep_view()[j]))
            } by {
                if j < k {
                    assert(found@[npaths + j] == before[npaths + j]);
                }
            }
            k += 1;
        }
        found
    }
}

/// A workspace check in closed form. Its path findings come first: one for
/// each path a `path` criterion names and each file a `contains` criterion
/// names, step after step and criterion after criterion (other criteria name
/// none), each at `step·path`. One is left unchecked (`None`) exactly when
/// its path holds `{{report}}`, `{{journal}}`, `{{log}}` or `{{artifacts}}`;
/// any other holds what `exists` answered for the path, which is the path
/// expanded against any base, as no placeholder is left in it to expand.
/// Then one finding at `description` for each section name the descriptions
/// mention, each name once, in the order first met; it passes exactly when
/// some `contains` criterion's text holds the name.
pub proof fn law_workspace_check_in_closed_form<F: Fn(&str) -> bool>(
    w: WorkflowModel,
    base: Seq<char>,
    path_exists: F,
    found: Seq<Finding>,
)
    requires
        checked_in_workspace(w, path_exists, found),
    ensures
        all_named_paths(w.steps) == rule_paths(w.steps),
        found.len() == rule_paths(w.steps).len() + first_of_each(mentioned_in(w.steps)).len(),
        forall|k: int|
            0 <= k < rule_paths(w.steps).len() ==> {
                let p = rule_paths(w.steps)[k];
                &&& (#[trigger] found[k]).where_@ == where_of(p.0, p.1)
                &&& (found[k].ok is None <==> first_runtime_placeholder(p.1) is Some)
                &&& (first_runtime_placeholder(p.1) is None ==> exists|q: &str, b: bool|
                    q@ == expanded_against(p.1, base) && found[k].ok == Some(b)
                        && #[trigger] call_ensures(path_exists, (q,), b))
            },
        forall|j: int|
            0 <= j < first_of_each(mentioned_in(w.steps)).len() ==> {
                let name = first_of_each(mentioned_in(w.steps))[j];
                &&& (#[trigger] found[rule_paths(w.steps).len() + j]).where_@ == "description"@
                &&& found[rule_paths(w.steps).len() + j].what@ == section_question(name)
                &&& found[rule_paths(w.steps).len() + j].ok == Some(held_by_rule(w.steps, name))
            },
        forall|x: Seq<char>|
            #[trigger] first_of_each(mentioned_in(w.steps)).contains(x) <==> mentioned_in(
                w.steps,
            ).contains(x),
        first_of_each(mentioned_in(w.steps)).no_duplicates(),
        forall|a: int, b: int|
            0 <= a < b < first_of_each(mentioned_in(w.steps)).len() ==> met_before(
                mentioned_in(w.steps),
                #[trigger] first_of_each(mentioned_in(w.steps))[a],
                #[trigger] first_of_each(mentioned_in(w.steps))[b],
            ),
{
    lemma_rule_paths(w.steps);
    lemma_mentioned_in(w.steps);
    lemma_first_of_each(mentioned_in(w.steps));
    let paths = rule_paths(w.steps);
    let names = first_of_each(mentioned_in(w.steps));
    assert forall|k: int| 0 <= k < paths.len() implies {
        let p = paths[k];
        &&& (#[trigger] found[k]).where_@ == where_of(p.0, p.1)
        &&& (found[k].ok is None <==> first_runtime_placeholder(p.1) is Some)
        &&& (first_runtime_placeholder(p.1) is None ==> exists|q: &str, b: bool|
            q@ == expanded_against(p.1, base) && found[k].ok == Some(b)
                && #[trigger] call_ensures(path_exists, (q,), b))
    } by {
        let p = paths[k];
        assert(found.take(paths.len() as int)[k] == found[k]);
        assert(path_checked(found[k], p, path_exists));
        if first_runtime_placeholder(p.1) is None {
            lemma_expanded_without_placeholders(p.1, base);
        }
    }
    assert forall|j: int| 0 <= j < names.len() implies {
        let name = names[j];
        &&& (#[trigger] found[paths.len() + j]).where_@ == "description"@
        &&& found[paths.len() + j].what@ == section_question(name)
        &&& found[paths.len() + j].ok == Some(held_by_rule(w.steps, name))
    } by {
        lemma_covered(w.steps, names[j]);
    }
}

} // verus!
