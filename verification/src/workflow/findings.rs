//! What a definition check finds, said without the step-by-step specs it is
//! built from: the paths are those the rule criteria name, step by step and
//! criterion by criterion; the sections are the names the descriptions
//! mention, each once, in the order first met; a section is covered exactly
//! when some `contains` criterion's text holds its name.

use super::check::{
    Finding, all_mentions, all_named_paths, checked_against, checked_paths, contained_texts,
    covered_texts, covers, first_of_each, mentions, named_paths, path_named, path_question,
    bracket_names, ends_name, heading_name, heading_names, name_end, section_like, section_tail, section_question, up_to_next_heading,
    waits_for_task, where_of,
};
use super::model::{StepModel, WorkflowModel};
use crate::criterion::model::CriterionModel;
use crate::paths::expanded_against;
use crate::text::{contains, first_at, lemma_first_at, occurs_at, trim, trim_start};
use vstd::prelude::*;

verus! {

/// The pair a criterion gives for the path it names, with the step's name;
/// none for a criterion that names no path.
pub open spec fn path_entry(name: Seq<char>) -> spec_fn(CriterionModel) -> Option<
    (Seq<char>, Seq<char>),
> {
    |c: CriterionModel|
        match path_named(c) {
            Some(p) => Some((name, p)),
            None => None,
        }
}

/// The paths a step's criteria name, in order, each with the step's name.
pub open spec fn step_paths(s: StepModel) -> Seq<(Seq<char>, Seq<char>)> {
    s.criteria.filter_map(path_entry(s.name))
}

/// The paths all steps' criteria name: step after step, each step's in
/// order.
pub open spec fn rule_paths(steps: Seq<StepModel>) -> Seq<(Seq<char>, Seq<char>)> {
    steps.map_values(|s: StepModel| step_paths(s)).flatten()
}

/// The section names the descriptions mention: step after step, each
/// description's in order.
pub open spec fn mentioned_in(steps: Seq<StepModel>) -> Seq<Seq<char>> {
    steps.map_values(|s: StepModel| mentions(s.description)).flatten()
}

/// `a` stands in `xs` before `b` first does.
pub open spec fn met_before(xs: Seq<Seq<char>>, a: Seq<char>, b: Seq<char>) -> bool {
    exists|i: int|
        0 <= i < xs.len() && #[trigger] xs[i] == a && forall|j: int| 0 <= j <= i ==> xs[j] != b
}

/// A `contains` criterion whose text holds the name.
pub open spec fn holds_name(c: CriterionModel, name: Seq<char>) -> bool {
    match c {
        CriterionModel::FileContains { contains: text, .. } => contains(text, name),
        _ => false,
    }
}

/// Some `contains` criterion of some step holds the name in its text.
pub open spec fn held_by_rule(steps: Seq<StepModel>, name: Seq<char>) -> bool {
    exists|i: int, j: int|
        0 <= i < steps.len() && 0 <= j < steps[i].criteria.len() && #[trigger] holds_name(
            steps[i].criteria[j],
            name,
        )
}

proof fn lemma_named_paths(name: Seq<char>, cs: Seq<CriterionModel>)
    ensures
        named_paths(name, cs) == cs.filter_map(path_entry(name)),
    decreases cs.len(),
{
    if cs.len() > 0 {
        lemma_named_paths(name, cs.drop_last());
        let rest = named_paths(name, cs.drop_last());
        assert(rest + Seq::<(Seq<char>, Seq<char>)>::empty() =~= rest);
    }
}

/// The paths the check asks about, step by step.
pub proof fn lemma_rule_paths(steps: Seq<StepModel>)
    ensures
        all_named_paths(steps) == rule_paths(steps),
    decreases steps.len(),
{
    if steps.len() > 0 {
        let m = steps.map_values(|s: StepModel| step_paths(s));
        lemma_rule_paths(steps.drop_last());
        lemma_named_paths(steps.last().name, steps.last().criteria);
        assert(m.drop_last() =~= steps.drop_last().map_values(|s: StepModel| step_paths(s)));
        assert(m =~= m.drop_last().push(m.last()));
        m.drop_last().lemma_flatten_push(m.last());
    }
}

/// The names mentioned, step by step.
pub proof fn lemma_mentioned_in(steps: Seq<StepModel>)
    ensures
        all_mentions(steps) == mentioned_in(steps),
    decreases steps.len(),
{
    if steps.len() > 0 {
        let m = steps.map_values(|s: StepModel| mentions(s.description));
        lemma_mentioned_in(steps.drop_last());
        assert(m.drop_last() =~= steps.drop_last().map_values(
            |s: StepModel| mentions(s.description),
        ));
        assert(m =~= m.drop_last().push(m.last()));
        m.drop_last().lemma_flatten_push(m.last());
    }
}

/// Dropping repeats keeps every name once, and in the order first met.
pub proof fn lemma_first_of_each(xs: Seq<Seq<char>>)
    ensures
        forall|x: Seq<char>| #[trigger] first_of_each(xs).contains(x) <==> xs.contains(x),
        first_of_each(xs).no_duplicates(),
        forall|a: int, b: int|
            0 <= a < b < first_of_each(xs).len() ==> met_before(
                xs,
                #[trigger] first_of_each(xs)[a],
                #[trigger] first_of_each(xs)[b],
            ),
    decreases xs.len(),
{
    if xs.len() > 0 {
        let p = xs.drop_last();
        let l = xs.last();
        let d = first_of_each(p);
        let r = first_of_each(xs);
        lemma_first_of_each(p);
        assert forall|x: Seq<char>| xs.contains(x) <==> p.contains(x) || x == l by {
            if xs.contains(x) {
                let k = choose|k: int| 0 <= k < xs.len() && xs[k] == x;
                if k < p.len() {
                    assert(p[k] == x);
                }
            }
            if p.contains(x) {
                let k = choose|k: int| 0 <= k < p.len() && p[k] == x;
                assert(xs[k] == x);
            }
            if x == l {
                assert(xs[xs.len() - 1] == x);
            }
        }
        assert forall|a: int, b: int|
            0 <= a < b < d.len() && met_before(p, d[a], d[b]) implies met_before(xs, d[a], d[b]) by {
            let i = choose|i: int|
                0 <= i < p.len() && #[trigger] p[i] == d[a] && forall|j: int|
                    0 <= j <= i ==> p[j] != d[b];
            assert(xs[i] == d[a]);
            assert forall|j: int| 0 <= j <= i implies xs[j] != d[b] by {
                assert(xs[j] == p[j]);
            }
        }
        if d.contains(l) {
            assert(r == d);
        } else {
            assert(r == d.push(l));
            assert forall|x: Seq<char>| #[trigger] r.contains(x) <==> xs.contains(x) by {
                if r.contains(x) {
                    let k = choose|k: int| 0 <= k < r.len() && r[k] == x;
                    if k < d.len() {
                        assert(d[k] == x);
                    }
                }
                if d.contains(x) {
                    let k = choose|k: int| 0 <= k < d.len() && d[k] == x;
                    assert(r[k] == x);
                }
                if x == l {
                    assert(r[r.len() - 1] == x);
                }
            }
            assert forall|a: int, b: int| 0 <= a < b < r.len() implies r[a] != r[b] by {
                if b == d.len() {
                    assert(d.contains(r[a]));
                } else {
                    assert(d[a] != d[b]);
                }
            }
            assert forall|a: int, b: int| 0 <= a < b < r.len() implies met_before(
                xs,
                #[trigger] r[a],
                #[trigger] r[b],
            ) by {
                assert(r[a] == d[a]);
                if b < d.len() {
                    assert(r[b] == d[b]);
                    assert(met_before(p, d[a], d[b]));
                } else {
                    assert(d.contains(d[a]));
                    assert(p.contains(d[a]));
                    let i = choose|i: int| 0 <= i < p.len() && p[i] == d[a];
                    assert(xs[i] == d[a]);
                    assert forall|j: int| 0 <= j <= i implies xs[j] != l by {
                        assert(xs[j] == p[j]);
                        if p[j] == l {
                            assert(p.contains(l));
                        }
                    }
                }
            }
        }
    }
}

proof fn lemma_covers_concat(a: Seq<Seq<char>>, b: Seq<Seq<char>>, name: Seq<char>)
    ensures
        covers(a + b, name) == (covers(a, name) || covers(b, name)),
{
    let s = a + b;
    if covers(s, name) {
        let k = choose|k: int| 0 <= k < s.len() && contains(#[trigger] s[k], name);
        if k < a.len() {
            assert(a[k] == s[k]);
        } else {
            assert(b[k - a.len()] == s[k]);
        }
    }
    if covers(a, name) {
        let k = choose|k: int| 0 <= k < a.len() && contains(#[trigger] a[k], name);
        assert(s[k] == a[k]);
    }
    if covers(b, name) {
        let k = choose|k: int| 0 <= k < b.len() && contains(#[trigger] b[k], name);
        assert(s[a.len() + k] == b[k]);
    }
}

proof fn lemma_contained_texts(cs: Seq<CriterionModel>, name: Seq<char>)
    ensures
        covers(contained_texts(cs), name) == exists|j: int|
            0 <= j < cs.len() && #[trigger] holds_name(cs[j], name),
    decreases cs.len(),
{
    if cs.len() > 0 {
        let p = cs.drop_last();
        lemma_contained_texts(p, name);
        let tail = match cs.last() {
            CriterionModel::FileContains { contains, .. } => seq![contains],
            _ => Seq::empty(),
        };
        lemma_covers_concat(contained_texts(p), tail, name);
        if exists|j: int| 0 <= j < cs.len() && #[trigger] holds_name(cs[j], name) {
            let j = choose|j: int| 0 <= j < cs.len() && #[trigger] holds_name(cs[j], name);
            if j < p.len() {
                assert(holds_name(p[j], name));
            } else {
                assert(contains(tail[0], name));
            }
        }
        if exists|j: int| 0 <= j < p.len() && #[trigger] holds_name(p[j], name) {
            let j = choose|j: int| 0 <= j < p.len() && #[trigger] holds_name(p[j], name);
            assert(holds_name(cs[j], name));
        }
        if covers(tail, name) {
            assert(holds_name(cs[cs.len() - 1], name));
        }
    }
}

/// A section is covered exactly when some `contains` criterion holds its
/// name.
pub proof fn lemma_covered(steps: Seq<StepModel>, name: Seq<char>)
    ensures
        covers(covered_texts(steps), name) == held_by_rule(steps, name),
    decreases steps.len(),
{
    if steps.len() > 0 {
        let p = steps.drop_last();
        let cs = steps.last().criteria;
        lemma_covered(p, name);
        lemma_contained_texts(cs, name);
        lemma_covers_concat(covered_texts(p), contained_texts(cs), name);
        if held_by_rule(steps, name) {
            let (i, j) = choose|i: int, j: int|
                0 <= i < steps.len() && 0 <= j < steps[i].criteria.len() && #[trigger] holds_name(
                    steps[i].criteria[j],
                    name,
                );
            if i < p.len() {
                assert(p[i] == steps[i]);
                assert(holds_name(p[i].criteria[j], name));
            } else {
                assert(holds_name(cs[j], name));
            }
        }
        if held_by_rule(p, name) {
            let (i, j) = choose|i: int, j: int|
                0 <= i < p.len() && 0 <= j < p[i].criteria.len() && #[trigger] holds_name(
                    p[i].criteria[j],
                    name,
                );
            assert(p[i] == steps[i]);
            assert(holds_name(steps[i].criteria[j], name));
        }
        if exists|j: int| 0 <= j < cs.len() && #[trigger] holds_name(cs[j], name) {
            let j = choose|j: int| 0 <= j < cs.len() && #[trigger] holds_name(cs[j], name);
            assert(holds_name(steps[steps.len() - 1].criteria[j], name));
        }
    }
}

/// A definition check in closed form. Its path findings come first: one for
/// each path a `path` criterion names and each file a `contains` criterion
/// names, step after step and criterion after criterion (other criteria name
/// none), leaving out those that wait for a task's `{{report}}`,
/// `{{journal}}` or `{{log}}`; each stands at `step·path` and holds what
/// `exists` answered for the path expanded against the data root. Then one
/// finding at `description` for each section name the descriptions mention,
/// each name once, in the order first met; it passes exactly when some
/// `contains` criterion's text holds the name.
pub proof fn law_check_in_closed_form<F: Fn(&str) -> bool>(
    w: WorkflowModel,
    data: Seq<char>,
    path_exists: F,
    found: Seq<Finding>,
)
    requires
        checked_against(w, data, path_exists, found),
    ensures
        checked_paths(w.steps) == rule_paths(w.steps).filter(
            |p: (Seq<char>, Seq<char>)| !waits_for_task(p.1),
        ),
        found.len() == checked_paths(w.steps).len() + first_of_each(mentioned_in(w.steps)).len(),
        forall|k: int|
            0 <= k < checked_paths(w.steps).len() ==> {
                let p = checked_paths(w.steps)[k];
                &&& !waits_for_task(p.1)
                &&& (#[trigger] found[k]).where_@ == where_of(p.0, p.1)
                &&& found[k].what@ == path_question(expanded_against(p.1, data))
                &&& exists|q: &str|
                    q@ == expanded_against(p.1, data) && call_ensures(path_exists, (q,), found[k].ok)
            },
        forall|j: int|
            0 <= j < first_of_each(mentioned_in(w.steps)).len() ==> {
                let name = first_of_each(mentioned_in(w.steps))[j];
                &&& (#[trigger] found[checked_paths(w.steps).len() + j]).where_@ == "description"@
                &&& found[checked_paths(w.steps).len() + j].what@ == section_question(name)
                &&& found[checked_paths(w.steps).len() + j].ok == held_by_rule(w.steps, name)
            },
        forall|x: Seq<char>|
            #[trigger] first_of_each(mentioned_in(w.steps)).contains(x) <==> mentioned_in(
                w.steps,
            ).contains(x),
        first_of_each(mentioned_in(w.steps)).no_duplicates(),
        forall|a: int, b: int|
            0 <= a < b < first_of_each(mentioned_in(w.steps)).len() ==> met_before(
                mentioned_in(w.steps),
                #[trigger] first_of_each(mentioned_in(w.steps))[a],
                #[trigger] first_of_each(mentioned_in(w.steps))[b],
            ),
{
    let paths = checked_paths(w.steps);
    lemma_rule_paths(w.steps);
    lemma_mentioned_in(w.steps);
    lemma_first_of_each(mentioned_in(w.steps));
    let names = first_of_each(mentioned_in(w.steps));
    assert forall|k: int| 0 <= k < paths.len() implies {
        let p = paths[k];
        &&& !waits_for_task(p.1)
        &&& (#[trigger] found[k]).where_@ == where_of(p.0, p.1)
        &&& found[k].what@ == path_question(expanded_against(p.1, data))
        &&& exists|q: &str|
            q@ == expanded_against(p.1, data) && call_ensures(path_exists, (q,), found[k].ok)
    } by {
        all_named_paths(w.steps).lemma_filter_pred(
            |p: (Seq<char>, Seq<char>)| !waits_for_task(p.1),
            k,
        );
        assert(found.take(paths.len() as int)[k] == found[k]);
    }
    assert forall|j: int| 0 <= j < names.len() implies {
        let name = names[j];
        &&& (#[trigger] found[paths.len() + j]).where_@ == "description"@
        &&& found[paths.len() + j].what@ == section_question(name)
        &&& found[paths.len() + j].ok == held_by_rule(w.steps, name)
    } by {
        lemma_covered(w.steps, names[j]);
    }
}

/// Two `## ` never overlap: the next one stands at least three characters on.
proof fn lemma_headings_apart(s: Seq<char>, i: int, k: int)
    requires
        occurs_at(s, "## "@, i),
        occurs_at(s, "## "@, k),
        i < k,
    ensures
        i + 3 <= k,
{
    reveal_strlit("## ");
    assert(s.subrange(i, i + 3)[1] == s[i + 1]);
    assert(s.subrange(i, i + 3)[2] == s[i + 2]);
    assert(s.subrange(k, k + 3)[0] == s[k]);
    assert(s.subrange(k, k + 3)[1] == s[k + 1]);
}

/// Every `## ` in a description is a heading: the name written right after
/// any `## ` (up to the next `## `), when it looks like a section, is among
/// the sections the description mentions.
pub proof fn law_every_heading_is_mentioned(s: Seq<char>, i: int)
    requires
        occurs_at(s, "## "@, i),
        section_like(heading_name(up_to_next_heading(s.skip(i + 3)))),
    ensures
        heading_names(s).contains(heading_name(up_to_next_heading(s.skip(i + 3)))),
        mentions(s).contains(heading_name(up_to_next_heading(s.skip(i + 3)))),
    decreases s.len(),
{
    reveal_strlit("## ");
    let name = heading_name(up_to_next_heading(s.skip(i + 3)));
    lemma_first_at(s, "## "@, 0);
    let i0 = first_at(s, "## "@, 0)->0;
    assert(i0 <= i);
    let rest = s.skip(i0 + 3);
    if i == i0 {
        assert(heading_names(s) == seq![name] + heading_names(rest));
        assert((seq![name] + heading_names(rest))[0] == name);
    } else {
        lemma_headings_apart(s, i0, i);
        let k = i - i0 - 3;
        assert(rest.subrange(k, k + 3) =~= s.subrange(i, i + 3));
        assert(rest.skip(k + 3) =~= s.skip(i + 3));
        law_every_heading_is_mentioned(rest, k);
        let later = heading_names(rest);
        let j = choose|j: int| 0 <= j < later.len() && later[j] == name;
        if section_like(heading_name(up_to_next_heading(rest))) {
            assert((seq![heading_name(up_to_next_heading(rest))] + later)[j + 1] == name);
        }
    }
    let m = heading_names(s);
    let jj = choose|jj: int| 0 <= jj < m.len() && m[jj] == name;
    assert(mentions(s)[jj] == name);
}

/// Every section a description mentions under a heading is the name written
/// right after some `## ` in it.
pub proof fn law_headings_come_from_the_text(s: Seq<char>)
    ensures
        forall|k: int|
            0 <= k < heading_names(s).len() ==> exists|i: int|
                occurs_at(s, "## "@, i) && #[trigger] heading_names(s)[k] == heading_name(
                    up_to_next_heading(s.skip(i + 3)),
                ),
    decreases s.len(),
{
    reveal_strlit("## ");
    lemma_first_at(s, "## "@, 0);
    match first_at(s, "## "@, 0) {
        None => {},
        Some(i0) => {
            let rest = s.skip(i0 + 3);
            law_headings_come_from_the_text(rest);
            let later = heading_names(rest);
            let name = heading_name(up_to_next_heading(rest));
            assert forall|k: int| 0 <= k < later.len() implies exists|i: int|
                occurs_at(s, "## "@, i) && #[trigger] later[k] == heading_name(
                    up_to_next_heading(s.skip(i + 3)),
                ) by {
                let j = choose|j: int|
                    occurs_at(rest, "## "@, j) && #[trigger] later[k] == heading_name(
                        up_to_next_heading(rest.skip(j + 3)),
                    );
                let i = j + i0 + 3;
                assert(rest.subrange(j, j + 3) =~= s.subrange(i, i + 3));
                assert(rest.skip(j + 3) =~= s.skip(i + 3));
                assert(occurs_at(s, "## "@, i));
            }
            assert(occurs_at(s, "## "@, i0));
            if section_like(name) {
                let m = heading_names(s);
                assert(m == seq![name] + later);
                assert forall|k: int| 0 <= k < m.len() implies exists|i: int|
                    occurs_at(s, "## "@, i) && #[trigger] m[k] == heading_name(
                        up_to_next_heading(s.skip(i + 3)),
                    ) by {
                    if k == 0 {
                        assert(m[0] == heading_name(up_to_next_heading(s.skip(i0 + 3))));
                    } else {
                        assert(m[k] == later[k - 1]);
                    }
                }
            }
        },
    }
}

/// The first occurrence of a character, found by `first_at`.
proof fn lemma_first_char_at(s: Seq<char>, c: char, i: int)
    requires
        0 <= i < s.len(),
        s[i] == c,
        forall|k: int| 0 <= k < i ==> s[k] != c,
    ensures
        first_at(s, seq![c], 0) == Some(i),
{
    lemma_first_at(s, seq![c], 0);
    assert(s.subrange(i, i + 1) =~= seq![c]);
    assert(occurs_at(s, seq![c], i));
    match first_at(s, seq![c], 0) {
        Some(k) => {
            if k < i {
                assert(s.subrange(k, k + 1)[0] == s[k]);
            }
        },
        None => {},
    }
}

/// The corner brackets of a description, read from the left: the first `「`
/// and the first `」` after it enclose a name; when the text after the `」`
/// (past white space) starts with 一节, 节 or 两节 and the name looks like a
/// section, the name is mentioned; and every section the text after the `」`
/// mentions in brackets is mentioned too.
pub proof fn law_bracketed_sections_are_mentioned(s: Seq<char>, i: int, j: int)
    requires
        0 <= i < j < s.len(),
        s[i] == '「',
        s[j] == '」',
        forall|k: int| 0 <= k < i ==> s[k] != '「',
        forall|k: int| i < k < j ==> s[k] != '」',
    ensures
        section_tail(trim_start(s.skip(j + 1))) && section_like(trim(s.subrange(i + 1, j)))
            ==> bracket_names(s).contains(trim(s.subrange(i + 1, j))),
        forall|x: Seq<char>| bracket_names(s.skip(j + 1)).contains(x) ==> #[trigger] bracket_names(
            s,
        ).contains(x),
        forall|x: Seq<char>| #[trigger] bracket_names(s).contains(x) ==> x == trim(s.subrange(i + 1, j))
            || bracket_names(s.skip(j + 1)).contains(x),
{
    lemma_first_char_at(s, '「', i);
    let after = s.skip(i + 1);
    let e = j - i - 1;
    assert forall|k: int| 0 <= k < e implies after[k] != '」' by {
        assert(after[k] == s[i + 1 + k]);
    }
    assert(after[e] == s[j]);
    lemma_first_char_at(after, '」', e);
    let name = trim(after.take(e));
    let rest = after.skip(e + 1);
    assert(after.take(e) =~= s.subrange(i + 1, j));
    assert(rest =~= s.skip(j + 1));
    let later = bracket_names(rest);
    if section_tail(trim_start(rest)) && section_like(name) {
        assert(bracket_names(s) == seq![name] + later);
        assert((seq![name] + later)[0] == name);
        assert forall|x: Seq<char>| later.contains(x) implies #[trigger] bracket_names(s).contains(x) by {
            let k = choose|k: int| 0 <= k < later.len() && later[k] == x;
            assert((seq![name] + later)[k + 1] == x);
        }
        assert forall|x: Seq<char>| #[trigger] bracket_names(s).contains(x) implies x == name
            || later.contains(x) by {
            let k = choose|k: int|
                0 <= k < bracket_names(s).len() && bracket_names(s)[k] == x;
            if k > 0 {
                assert(later[k - 1] == x);
            }
        }
    } else {
        assert(bracket_names(s) == later);
    }
}

proof fn lemma_name_end(p: Seq<char>, k: int, from: int)
    requires
        0 <= from <= k <= p.len(),
        forall|m: int| from <= m < k ==> !ends_name(#[trigger] p[m]),
        k == p.len() || ends_name(p[k]),
    ensures
        name_end(p, from) == k,
    decreases k - from,
{
    if from < k {
        lemma_name_end(p, k, from + 1);
    }
}

/// The name after a `## ` is the text up to the first white space, backquote
/// or closing corner bracket (or the end), trimmed.
pub proof fn law_heading_name_stops_at_the_first_break(p: Seq<char>, k: int)
    requires
        0 <= k <= p.len(),
        forall|m: int| 0 <= m < k ==> !ends_name(#[trigger] p[m]),
        k == p.len() || ends_name(p[k]),
    ensures
        heading_name(p) == trim(p.take(k)),
{
    lemma_name_end(p, k, 0);
}

/// The text a heading's name is read from runs up to the next `## `: it is
/// the whole rest when no `## ` follows, and otherwise the part before the
/// first `## `, which holds none.
pub proof fn law_heading_text_runs_to_the_next_heading(t: Seq<char>)
    ensures
        t.len() >= up_to_next_heading(t).len(),
        up_to_next_heading(t) == t.take(up_to_next_heading(t).len() as int),
        forall|k: int|
            0 <= k < up_to_next_heading(t).len() ==> !#[trigger] occurs_at(
                t,
                "## "@,
                k,
            ),
        up_to_next_heading(t).len() < t.len() ==> occurs_at(t, "## "@, up_to_next_heading(t).len() as int),
{
    lemma_first_at(t, "## "@, 0);
    match first_at(t, "## "@, 0) {
        Some(j) => {
            assert(t.take(j).len() == j);
        },
        None => {
            assert(t.take(t.len() as int) =~= t);
        },
    }
}

/// The path a criterion names for a check: a `path` criterion its path, a
/// `contains` criterion its file; an `absent`, `run`, agent or human
/// criterion names none.
pub proof fn law_paths_named_by_criteria(c: CriterionModel)
    ensures
        c matches CriterionModel::PathExists { path, .. } ==> path_named(c) == Some(path),
        c matches CriterionModel::FileContains { file, .. } ==> path_named(c) == Some(file),
        c matches CriterionModel::PathAbsent { .. } ==> path_named(c) is None,
        c matches CriterionModel::CommandRun { .. } ==> path_named(c) is None,
        c matches CriterionModel::AgentJudgement { .. } ==> path_named(c) is None,
        c matches CriterionModel::HumanGate { .. } ==> path_named(c) is None,
{
}

} // verus!
