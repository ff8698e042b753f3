//! Checking a definition against the workspace: do the paths its criteria
//! name exist, and is every report section its descriptions mention covered
//! by a `contains` criterion.
//!
//! Whether a path exists is the caller's to say (`exists`): the toolkit does
//! not touch the file system.

use super::model::{StepModel, Workflow, WorkflowModel};
use crate::criterion::model::{Criterion, CriterionModel};
use crate::paths::{expand_placeholders, expanded_against};
use crate::text::{
    chars_of, contains, contains_chars, contains_str, find_from, first_at, push_chars, push_str,
    same_chars, slice_of, starts_with, starts_with_str, string_of, trim, trim_chars, trim_start,
    white_space,
};
use vstd::prelude::*;

verus! {

/// One thing the check found: where, what was checked, whether it passed.
#[derive(Debug, Clone)]
pub struct Finding {
    pub where_: String,
    pub what: String,
    pub ok: bool,
}

/// A character that no report section name holds: an ASCII digit, or one of
/// `[ ] { } . / ` < > - _` (version numbers, placeholders and paths).
pub open spec fn odd_in_section(c: char) -> bool {
    ('0' <= c && c <= '9') || c == '[' || c == ']' || c == '{' || c == '}' || c == '.' || c == '/'
        || c == '`' || c == '<' || c == '>' || c == '-' || c == '_'
}

/// One more path finding keeps the findings in step with the paths.
pub proof fn lemma_path_findings_push<F: Fn(&str) -> bool>(
    found: Seq<Finding>,
    paths: Seq<(Seq<char>, Seq<char>)>,
    f: Finding,
    item: (Seq<char>, Seq<char>),
    data: Seq<char>,
    path_exists: F,
    w: &str,
)
    requires
        path_findings(found, paths, data, path_exists),
        f.where_@ == where_of(item.0, item.1),
        f.what@ == path_question(expanded_against(item.1, data)),
        w@ == expanded_against(item.1, data),
        call_ensures(path_exists, (w,), f.ok),
    ensures
        path_findings(found.push(f), paths.push(item), data, path_exists),
{
    let g = found.push(f);
    let q = paths.push(item);
    assert forall|k: int| 0 <= k < g.len() implies {
        &&& (#[trigger] g[k]).where_@ == where_of(q[k].0, q[k].1)
        &&& g[k].what@ == path_question(expanded_against(q[k].1, data))
        &&& exists|w: &str|
            w@ == expanded_against(q[k].1, data) && call_ensures(path_exists, (w,), g[k].ok)
    } by {
        if k < found.len() {
            assert(g[k] == found[k]);
            assert(q[k] == paths[k]);
        } else {
            assert(g[k] == f);
            assert(q[k] == item);
            assert(w@ == expanded_against(q[k].1, data) && call_ensures(path_exists, (w,), g[k].ok));
        }
    }
}

/// Whether a name looks like a report section: a short word of at most
/// twelve characters, none of them odd.
pub open spec fn section_like(name: Seq<char>) -> bool {
    name.len() > 0 && name.len() <= 12 && forall|i: int|
        0 <= i < name.len() ==> !odd_in_section(#[trigger] name[i])
}

/// A character that ends a name written after `## `.
pub open spec fn ends_name(c: char) -> bool {
    white_space(c) || c == '`' || c == '」'
}

/// The index of the first character at or after `k` that ends a name.
pub open spec fn name_end(s: Seq<char>, k: int) -> int
    decreases s.len() - k,
{
    if k < 0 || k >= s.len() {
        s.len() as int
    } else if ends_name(s[k]) {
        k
    } else {
        name_end(s, k + 1)
    }
}

/// The text up to the next `## ` (or the end).
pub open spec fn up_to_next_heading(s: Seq<char>) -> Seq<char> {
    match first_at(s, "## "@, 0) {
        Some(j) => s.take(j),
        None => s,
    }
}

/// The name written at the start of a piece: up to the first white space,
/// backquote or closing corner bracket, trimmed.
pub open spec fn heading_name(piece: Seq<char>) -> Seq<char> {
    trim(piece.take(name_end(piece, 0)))
}

/// The section names written after each `## `, in order, keeping those that
/// look like section names.
pub open spec fn heading_names(s: Seq<char>) -> Seq<Seq<char>>
    decreases s.len(),
{
    match first_at(s, "## "@, 0) {
        None => Seq::empty(),
        Some(i) => {
            if 0 <= i && i + 3 <= s.len() {
                let rest = s.skip(i + 3);
                let name = heading_name(up_to_next_heading(rest));
                let later = heading_names(rest);
                if section_like(name) {
                    seq![name] + later
                } else {
                    later
                }
            } else {
                Seq::empty()
            }
        },
    }
}

/// What follows a closing bracket that makes the bracketed text a section:
/// 一节, 节 or 两节 (after white space).
pub open spec fn section_tail(t: Seq<char>) -> bool {
    starts_with(t, "一节"@) || starts_with(t, "节"@) || starts_with(t, "两节"@)
}

/// The names in corner brackets `「…」` followed by 一节, 节 or 两节, in
/// order, keeping those that look like section names; an unclosed bracket
/// ends the scan.
pub open spec fn bracket_names(s: Seq<char>) -> Seq<Seq<char>>
    decreases s.len(),
{
    match first_at(s, seq!['「'], 0) {
        None => Seq::empty(),
        Some(a) => {
            if 0 <= a && a + 1 <= s.len() {
                let after = s.skip(a + 1);
                match first_at(after, seq!['」'], 0) {
                    None => Seq::empty(),
                    Some(e) => {
                        if 0 <= e && e + 1 <= after.len() {
                            let name = trim(after.take(e));
                            let rest = after.skip(e + 1);
                            let later = bracket_names(rest);
                            if section_tail(trim_start(rest)) && section_like(name) {
                                seq![name] + later
                            } else {
                                later
                            }
                        } else {
                            Seq::empty()
                        }
                    },
                }
            } else {
                Seq::empty()
            }
        },
    }
}

/// The section names a description mentions: first those after `## `, then
/// those in corner brackets.
pub open spec fn mentions(description: Seq<char>) -> Seq<Seq<char>> {
    heading_names(description) + bracket_names(description)
}

/// The section names every step's description mentions, step by step.
pub open spec fn all_mentions(steps: Seq<StepModel>) -> Seq<Seq<char>>
    decreases steps.len(),
{
    if steps.len() == 0 {
        Seq::empty()
    } else {
        all_mentions(steps.drop_last()) + mentions(steps.last().description)
    }
}

/// The list with repeats dropped, keeping the first of each.
pub open spec fn first_of_each(xs: Seq<Seq<char>>) -> Seq<Seq<char>>
    decreases xs.len(),
{
    if xs.len() == 0 {
        Seq::empty()
    } else {
        let d = first_of_each(xs.drop_last());
        if d.contains(xs.last()) {
            d
        } else {
            d.push(xs.last())
        }
    }
}

/// The texts `contains` criteria look for.
pub open spec fn contained_texts(cs: Seq<CriterionModel>) -> Seq<Seq<char>>
    decreases cs.len(),
{
    if cs.len() == 0 {
        Seq::empty()
    } else {
        contained_texts(cs.drop_last()) + match cs.last() {
            CriterionModel::FileContains { contains, .. } => seq![contains],
            _ => Seq::empty(),
        }
    }
}

/// The texts every step's `contains` criteria look for, step by step.
pub open spec fn covered_texts(steps: Seq<StepModel>) -> Seq<Seq<char>>
    decreases steps.len(),
{
    if steps.len() == 0 {
        Seq::empty()
    } else {
        covered_texts(steps.drop_last()) + contained_texts(steps.last().criteria)
    }
}

/// Whether some covered text holds the name.
pub open spec fn covers(covered: Seq<Seq<char>>, name: Seq<char>) -> bool {
    exists|i: int| 0 <= i < covered.len() && contains(#[trigger] covered[i], name)
}

/// The path a rule criterion names: the path that must exist, or the file
/// that must hold the text.
pub open spec fn path_named(c: CriterionModel) -> Option<Seq<char>> {
    match c {
        CriterionModel::PathExists { path, .. } => Some(path),
        CriterionModel::FileContains { file, .. } => Some(file),
        _ => None,
    }
}

/// The paths a step's criteria name, each with the step's name.
pub open spec fn named_paths(name: Seq<char>, cs: Seq<CriterionModel>) -> Seq<
    (Seq<char>, Seq<char>),
>
    decreases cs.len(),
{
    if cs.len() == 0 {
        Seq::empty()
    } else {
        named_paths(name, cs.drop_last()) + match path_named(cs.last()) {
            Some(p) => seq![(name, p)],
            None => Seq::empty(),
        }
    }
}

/// The paths all steps' criteria name, step by step, each with its step.
pub open spec fn all_named_paths(steps: Seq<StepModel>) -> Seq<(Seq<char>, Seq<char>)>
    decreases steps.len(),
{
    if steps.len() == 0 {
        Seq::empty()
    } else {
        all_named_paths(steps.drop_last()) + named_paths(
            steps.last().name,
            steps.last().criteria,
        )
    }
}

/// Whether a path holds a placeholder that only a task fills in:
/// `{{report}}`, `{{journal}}` or `{{log}}`.
pub open spec fn waits_for_task(path: Seq<char>) -> bool {
    contains(path, "{{report}}"@) || contains(path, "{{journal}}"@) || contains(path, "{{log}}"@)
}

/// Where a finding about a path stands: the step's name, `·`, the path.
pub open spec fn where_of(step: Seq<char>, path: Seq<char>) -> Seq<char> {
    step + "·"@ + path
}

/// What a path finding says.
pub open spec fn path_question(written: Seq<char>) -> Seq<char> {
    "判据里的路径在不在："@ + written
}

/// What a section finding says.
pub open spec fn section_question(name: Seq<char>) -> Seq<char> {
    "description 提到的报告小节有没有判据覆盖："@ + name
}

/// `found` holds one finding for each path, asked of `exists` after the
/// placeholders are expanded against `data`.
pub open spec fn path_findings<F: Fn(&str) -> bool>(
    found: Seq<Finding>,
    paths: Seq<(Seq<char>, Seq<char>)>,
    data: Seq<char>,
    path_exists: F,
) -> bool {
    &&& found.len() == paths.len()
    &&& forall|k: int|
        0 <= k < found.len() ==> {
            &&& (#[trigger] found[k]).where_@ == where_of(paths[k].0, paths[k].1)
            &&& found[k].what@ == path_question(expanded_against(paths[k].1, data))
            &&& exists|w: &str|
                w@ == expanded_against(paths[k].1, data) && call_ensures(path_exists, (w,), found[k].ok)
        }
}

/// Whether a name looks like a report section: a short word (at most twelve
/// characters) without digits, brackets, braces, dots, slashes, backquotes,
/// angle brackets, dashes or underscores.
pub fn looks_like_section(name: &str) -> (b: bool)
    ensures
        b == section_like(name@),
{
    let c = chars_of(name);
    looks_like_section_chars(&c)
}

pub(crate) fn looks_like_section_chars(c: &[char]) -> (b: bool)
    ensures
        b == section_like(c@),
{
    if c.len() == 0 || c.len() > 12 {
        return false;
    }
    let mut i: usize = 0;
    while i < c.len()
        invariant
            i <= c.len(),
            forall|j: int| 0 <= j < i ==> !odd_in_section(#[trigger] c@[j]),
        decreases c.len() - i,
    {
        let ch = c[i];
        if ('0' <= ch && ch <= '9') || ch == '[' || ch == ']' || ch == '{' || ch == '}' || ch
            == '.' || ch == '/' || ch == '`' || ch == '<' || ch == '>' || ch == '-' || ch == '_' {
            return false;
        }
        i += 1;
    }
    true
}

/// The name written at the start of a piece.
fn heading_name_chars(piece: &[char]) -> (r: Vec<char>)
    ensures
        r@ == heading_name(piece@),
{
    let mut k: usize = 0;
    while k < piece.len() && !(crate::text::is_whitespace(piece[k]) || piece[k] == '`' || piece[k]
        == '」')
        invariant
            k <= piece.len(),
            name_end(piece@, 0) == name_end(piece@, k as int),
        decreases piece.len() - k,
    {
        k += 1;
    }
    assert(name_end(piece@, k as int) == k);
    let head = slice_of(piece, 0, k);
    assert(head@ =~= piece@.take(k as int));
    trim_chars(&head)
}

/// The section names written after each `## `.
pub fn heading_names_chars(s: &[char]) -> (r: Vec<Vec<char>>)
    ensures
        r.deep_view() == heading_names(s@),
{
    let sep = chars_of("## ");
    proof {
        reveal_strlit("## ");
    }
    let mut out: Vec<Vec<char>> = Vec::new();
    let mut rest = slice_of(s, 0, s.len());
    assert(rest@ =~= s@);
    loop
        invariant
            sep@ == "## "@,
            sep@.len() == 3,
            out.deep_view() + heading_names(rest@) == heading_names(s@),
        decreases rest.len(),
    {
        match find_from(&rest, &sep, 0) {
            None => {
                assert(out.deep_view() + Seq::<Seq<char>>::empty() =~= out.deep_view());
                return out;
            },
            Some(i) => {
                let next = slice_of(&rest, i + 3, rest.len());
                assert(next@ =~= rest@.skip(i + 3));
                let piece = match find_from(&next, &sep, 0) {
                    Some(j) => {
                        let p = slice_of(&next, 0, j);
                        assert(p@ =~= next@.take(j as int));
                        p
                    },
                    None => slice_of(&next, 0, next.len()),
                };
                assert(piece@ =~= up_to_next_heading(next@));
                let name = heading_name_chars(&piece);
                if looks_like_section_chars(&name) {
                    let ghost before = out.deep_view();
                    assert(name.deep_view() =~= name@);
                    out.push(name);
                    assert(out.deep_view() =~= before.push(heading_name(up_to_next_heading(next@))));
                    assert(out.deep_view() + heading_names(next@) =~= before + (seq![
                        heading_name(up_to_next_heading(next@)),
                    ] + heading_names(next@)));
                }
                rest = next;
            },
        }
    }
}

/// The names in corner brackets followed by 一节, 节 or 两节.
pub fn bracket_names_chars(s: &[char]) -> (r: Vec<Vec<char>>)
    ensures
        r.deep_view() == bracket_names(s@),
{
    let open = chars_of("「");
    let close = chars_of("」");
    proof {
        reveal_strlit("「");
        reveal_strlit("」");
        assert(open@ =~= seq!['「']);
        assert(close@ =~= seq!['」']);
    }
    let mut out: Vec<Vec<char>> = Vec::new();
    let mut rest = slice_of(s, 0, s.len());
    assert(rest@ =~= s@);
    loop
        invariant
            open@ == seq!['「'],
            close@ == seq!['」'],
            out.deep_view() + bracket_names(rest@) == bracket_names(s@),
        decreases rest.len(),
    {
        match find_from(&rest, &open, 0) {
            None => {
                assert(out.deep_view() + Seq::<Seq<char>>::empty() =~= out.deep_view());
                return out;
            },
            Some(a) => {
                let after = slice_of(&rest, a + 1, rest.len());
                assert(after@ =~= rest@.skip(a + 1));
                match find_from(&after, &close, 0) {
                    None => {
                        assert(out.deep_view() + Seq::<Seq<char>>::empty() =~= out.deep_view());
                        return out;
                    },
                    Some(e) => {
                        let inside = slice_of(&after, 0, e);
                        assert(inside@ =~= after@.take(e as int));
                        let name = trim_chars(&inside);
                        let next = slice_of(&after, e + 1, after.len());
                        assert(next@ =~= after@.skip(e + 1));
                        let tail = trim_start_chars(&next);
                        let is_section = starts_with_str(&tail, "一节") || starts_with_str(
                            &tail,
                            "节",
                        ) || starts_with_str(&tail, "两节");
                        if is_section && looks_like_section_chars(&name) {
                            let ghost before = out.deep_view();
                            assert(name.deep_view() =~= name@);
                            out.push(name);
                            assert(out.deep_view() =~= before.push(trim(after@.take(e as int))));
                            assert(out.deep_view() + bracket_names(next@) =~= before + (seq![
                                trim(after@.take(e as int)),
                            ] + bracket_names(next@)));
                        }
                        rest = next;
                    },
                }
            },
        }
    }
}

/// `s` with leading white space removed.
pub fn trim_start_chars(s: &[char]) -> (r: Vec<char>)
    ensures
        r@ == trim_start(s@),
{
    let n = s.len();
    let mut i: usize = 0;
    while i < n && crate::text::is_whitespace(s[i])
        invariant
            i <= n == s.len(),
            forall|j: int| 0 <= j < i ==> white_space(#[trigger] s@[j]),
        decreases n - i,
    {
        i += 1;
    }
    proof {
        crate::text::lemma_trim_start_skip(s@, i as int);
        let t = s@.skip(i as int);
        if i < n {
            assert(!white_space(t[0]));
        }
        assert(trim_start(t) == t);
    }
    let r = slice_of(s, i, n);
    assert(r@ =~= s@.skip(i as int));
    r
}

/// The section names a description mentions.
pub fn mentions_chars(description: &[char]) -> (r: Vec<Vec<char>>)
    ensures
        r.deep_view() == mentions(description@),
{
    let mut a = heading_names_chars(description);
    let mut b = bracket_names_chars(description);
    let ghost da = a.deep_view();
    let ghost db = b.deep_view();
    a.append(&mut b);
    assert(a.deep_view() =~= da + db);
    a
}

/// Adds the names not yet in `seen`, in order.
fn add_new(seen: &mut Vec<Vec<char>>, names: &Vec<Vec<char>>, Ghost(flat): Ghost<Seq<Seq<char>>>) -> (r: Ghost<Seq<Seq<char>>>)
    requires
        old(seen).deep_view() == first_of_each(flat),
    ensures
        r@ == flat + names.deep_view(),
        final(seen).deep_view() == first_of_each(r@),
{
    let ghost mut now = flat;
    let mut i: usize = 0;
    while i < names.len()
        invariant
            i <= names.len(),
            now == flat + names.deep_view().take(i as int),
            seen.deep_view() == first_of_each(now),
        decreases names.len() - i,
    {
        let ghost next = now.push(names[i as int]@);
        assert(next.drop_last() =~= now);
        assert(names.deep_view()[i as int] == names@[i as int]@);
        assert(names@[i as int].deep_view() =~= names@[i as int]@);
        let already = contains_name(seen, &names[i]);
        if !already {
            let ghost before = seen.deep_view();
            let copy = slice_of(&names[i], 0, names[i].len());
            assert(copy@ =~= names@[i as int]@);
            assert(copy.deep_view() =~= copy@);
            seen.push(copy);
            assert(seen.deep_view() =~= before.push(names@[i as int]@));
        }
        proof {
            now = next;
        }
        assert(now =~= flat + names.deep_view().take(i + 1));
        i += 1;
    }
    assert(names.deep_view().take(names.len() as int) =~= names.deep_view());
    Ghost(now)
}

/// Whether `name` is among `list`.
fn contains_name(list: &Vec<Vec<char>>, name: &Vec<char>) -> (b: bool)
    ensures
        b == list.deep_view().contains(name@),
{
    let mut i: usize = 0;
    while i < list.len()
        invariant
            i <= list.len(),
            forall|j: int| 0 <= j < i ==> list.deep_view()[j] != name@,
        decreases list.len() - i,
    {
        assert(list.deep_view()[i as int] =~= list@[i as int]@);
        if same_chars(&list[i], name) {
            return true;
        }
        i += 1;
    }
    false
}

/// Whether some text in `covered` holds `name`.
pub(crate) fn any_covers(covered: &Vec<Vec<char>>, name: &Vec<char>) -> (b: bool)
    ensures
        b == covers(covered.deep_view(), name@),
{
    let mut i: usize = 0;
    while i < covered.len()
        invariant
            i <= covered.len(),
            forall|j: int| 0 <= j < i ==> !contains(#[trigger] covered.deep_view()[j], name@),
        decreases covered.len() - i,
    {
        assert(covered.deep_view()[i as int] =~= covered@[i as int]@);
        if contains_chars(&covered[i], name) {
            return true;
        }
        i += 1;
    }
    false
}

/// The section names the steps' descriptions mention, each once, in the order
/// first met.
pub fn mentioned_sections(w: &Workflow) -> (r: Vec<Vec<char>>)
    ensures
        r.deep_view() == first_of_each(all_mentions(w@.steps)),
{
    let ghost steps = w@.steps;
    let mut seen: Vec<Vec<char>> = Vec::new();
    let ghost mut flat: Seq<Seq<char>> = Seq::empty();
    assert(seen.deep_view() =~= first_of_each(flat));
    let mut i: usize = 0;
    while i < w.steps.len()
        invariant
            i <= w.steps.len(),
            steps == w@.steps,
            steps.len() == w.steps.len(),
            flat == all_mentions(steps.take(i as int)),
            seen.deep_view() == first_of_each(flat),
        decreases w.steps.len() - i,
    {
        let d = chars_of(w.steps[i].description.as_str());
        let names = mentions_chars(&d);
        let Ghost(next) = add_new(&mut seen, &names, Ghost(flat));
        proof {
            assert(steps.take(i + 1).drop_last() =~= steps.take(i as int));
            assert(steps.take(i + 1).last() == steps[i as int]);
            assert(steps[i as int].description == w.steps@[i as int].description@);
            flat = next;
        }
        i += 1;
    }
    assert(steps.take(w.steps.len() as int) =~= steps);
    seen
}

/// The texts the steps' `contains` criteria look for, in order.
pub fn covered_sections(w: &Workflow) -> (r: Vec<Vec<char>>)
    ensures
        r.deep_view() == covered_texts(w@.steps),
{
    let ghost steps = w@.steps;
    let mut out: Vec<Vec<char>> = Vec::new();
    let mut i: usize = 0;
    while i < w.steps.len()
        invariant
            i <= w.steps.len(),
            steps == w@.steps,
            steps.len() == w.steps.len(),
            out.deep_view() == covered_texts(steps.take(i as int)),
        decreases w.steps.len() - i,
    {
        let step = &w.steps[i];
        let ghost cs = step@.criteria;
        assert(steps.take(i + 1).drop_last() =~= steps.take(i as int));
        assert(steps.take(i + 1).last() == step@);
        let ghost start = out.deep_view();
        let mut j: usize = 0;
        while j < step.criteria.len()
            invariant
                j <= step.criteria.len(),
                cs == step@.criteria,
                cs.len() == step.criteria.len(),
                out.deep_view() == start + contained_texts(cs.take(j as int)),
            decreases step.criteria.len() - j,
        {
            assert(cs.take(j + 1).drop_last() =~= cs.take(j as int));
            assert(cs.take(j + 1).last() == step.criteria@[j as int]@);
            match &step.criteria[j] {
                Criterion::FileContains { contains, .. } => {
                    let ghost before = out.deep_view();
                    let c = chars_of(contains.as_str());
                    assert(c.deep_view() =~= c@);
                    out.push(c);
                    assert(out.deep_view() =~= before.push(contains@));
                    assert(out.deep_view() =~= start + contained_texts(cs.take(j + 1)));
                },
                _ => {
                    assert(out.deep_view() =~= start + contained_texts(cs.take(j + 1)));
                },
            }
            j += 1;
        }
        assert(cs.take(step.criteria.len() as int) =~= cs);
        assert(out.deep_view() =~= covered_texts(steps.take(i + 1)));
        i += 1;
    }
    assert(steps.take(w.steps.len() as int) =~= steps);
    out
}

/// The path findings' paths: those the criteria name, leaving out the ones
/// that wait for a task.
pub open spec fn checked_paths(steps: Seq<StepModel>) -> Seq<(Seq<char>, Seq<char>)> {
    all_named_paths(steps).filter(|p: (Seq<char>, Seq<char>)| !waits_for_task(p.1))
}

/// A section finding about `name`.
fn section_finding(name: &Vec<char>, covered: &Vec<Vec<char>>) -> (f: Finding)
    ensures
        f.where_@ == "description"@,
        f.what@ == section_question(name@),
        f.ok == covers(covered.deep_view(), name@),
{
    let mut what = chars_of("description 提到的报告小节有没有判据覆盖：");
    push_chars(&mut what, name);
    Finding {
        where_: String::from_str("description"),
        what: string_of(&what),
        ok: any_covers(covered, name),
    }
}

impl Workflow {
    /// Checks this definition: every path a `path` or `file` criterion names
    /// (with the placeholders expanded against `data`; paths that wait for a
    /// task's `{{report}}`, `{{journal}}` or `{{log}}` are left out) is asked
    /// of `exists`; then every report section the descriptions mention is
    /// checked against the texts the `contains` criteria look for.
    pub fn check<F: Fn(&str) -> bool>(&self, data: &str, path_exists: F) -> (found: Vec<Finding>)
        requires
            forall|s: &str| call_requires(path_exists, (s,)),
        ensures
            checked_against(self@, data@, path_exists, found@),
    {
        let ghost steps = self@.steps;
        let mut found: Vec<Finding> = Vec::new();
        let ghost mut paths: Seq<(Seq<char>, Seq<char>)> = Seq::empty();
        let mut i: usize = 0;
        assert(all_named_paths(steps.take(0)).filter(
            |p: (Seq<char>, Seq<char>)| !waits_for_task(p.1),
        ) =~= paths);
        while i < self.steps.len()
            invariant
                i <= self.steps.len(),
                steps == self@.steps,
                steps.len() == self.steps.len(),
                forall|s: &str| call_requires(path_exists, (s,)),
                paths == all_named_paths(steps.take(i as int)).filter(
                    |p: (Seq<char>, Seq<char>)| !waits_for_task(p.1),
                ),
                path_findings(found@, paths, data@, path_exists),
            decreases self.steps.len() - i,
        {
            let step = &self.steps[i];
            let ghost cs = step@.criteria;
            let ghost start = paths;
            assert(steps.take(i + 1).drop_last() =~= steps.take(i as int));
            assert(steps.take(i + 1).last() == step@);
            let mut j: usize = 0;
            assert(named_paths(step@.name, cs.take(0)).filter(
                |p: (Seq<char>, Seq<char>)| !waits_for_task(p.1),
            ) =~= Seq::<(Seq<char>, Seq<char>)>::empty());
            assert(start + Seq::<(Seq<char>, Seq<char>)>::empty() =~= start);
            while j < step.criteria.len()
                invariant
                    j <= step.criteria.len(),
                    cs == step@.criteria,
                    cs.len() == step.criteria.len(),
                    forall|s: &str| call_requires(path_exists, (s,)),
                    paths == start + named_paths(step@.name, cs.take(j as int)).filter(
                        |p: (Seq<char>, Seq<char>)| !waits_for_task(p.1),
                    ),
                    path_findings(found@, paths, data@, path_exists),
                decreases step.criteria.len() - j,
            {
                assert(cs.take(j + 1).drop_last() =~= cs.take(j as int));
                assert(cs.take(j + 1).last() == step.criteria@[j as int]@);
                proof {
                    reveal_with_fuel(Seq::<(Seq<char>, Seq<char>)>::filter, 1);
                }
                let literal: Option<&String> = match &step.criteria[j] {
                    Criterion::PathExists { path, .. } => Some(path),
                    Criterion::FileContains { file, .. } => Some(file),
                    _ => None,
                };
                match literal {
                    Some(lit) => {
                        let lc = chars_of(lit.as_str());
                        let waits = contains_str(&lc, "{{report}}") || contains_str(
                            &lc,
                            "{{journal}}",
                        ) || contains_str(&lc, "{{log}}");
                        if !waits {
                            let written = expand_placeholders(lit.as_str(), data);
                            let w: &str = written.as_str();
                            let ok = path_exists(w);
                            let mut place = chars_of(step.name.as_str());
                            push_str(&mut place, "·");
                            push_chars(&mut place, &lc);
                            let mut what = chars_of("判据里的路径在不在：");
                            push_str(&mut what, w);
                            let f = Finding {
                                where_: string_of(&place),
                                what: string_of(&what),
                                ok,
                            };
                            let ghost before = found@;
                            found.push(f);
                            proof {
                                let item = (step@.name, lit@);
                                assert(named_paths(step@.name, cs.take(j + 1)) =~= named_paths(
                                    step@.name,
                                    cs.take(j as int),
                                ) + seq![item]);
                                let old_paths = paths;
                                paths = paths.push(item);
                                assert((named_paths(step@.name, cs.take(j as int)) + seq![
                                    item,
                                ]).filter(|p: (Seq<char>, Seq<char>)| !waits_for_task(p.1))
                                    =~= named_paths(step@.name, cs.take(j as int)).filter(
                                    |p: (Seq<char>, Seq<char>)| !waits_for_task(p.1),
                                ).push(item)) by {
                                    let s0 = named_paths(step@.name, cs.take(j as int));
                                    assert((s0 + seq![item]).drop_last() =~= s0);
                                    assert((s0 + seq![item]).last() == item);
                                }
                                assert(call_ensures(path_exists, (w,), ok));
                                lemma_path_findings_push(
                                    before,
                                    old_paths,
                                    f,
                                    item,
                                    data@,
                                    path_exists,
                                    w,
                                );
                                assert(found@ == before.push(f));
                            }
                        } else {
                            proof {
                                let item = (step@.name, lit@);
                                let s0 = named_paths(step@.name, cs.take(j as int));
                                assert(named_paths(step@.name, cs.take(j + 1)) =~= s0 + seq![item]);
                                assert((s0 + seq![item]).drop_last() =~= s0);
                                assert((s0 + seq![item]).filter(
                                    |p: (Seq<char>, Seq<char>)| !waits_for_task(p.1),
                                ) =~= s0.filter(|p: (Seq<char>, Seq<char>)| !waits_for_task(p.1)));
                            }
                        }
                    },
                    None => {
                        assert(named_paths(step@.name, cs.take(j + 1)) =~= named_paths(
                            step@.name,
                            cs.take(j as int),
                        ));
                    },
                }
                j += 1;
            }
            proof {
                assert(cs.take(step.criteria.len() as int) =~= cs);
                let a = all_named_paths(steps.take(i as int));
                let b = named_paths(step@.name, cs);
                assert(all_named_paths(steps.take(i + 1)) == a + b);
                Seq::filter_distributes_over_add(
                    a,
                    b,
                    |p: (Seq<char>, Seq<char>)| !waits_for_task(p.1),
                );
            }
            i += 1;
        }
        assert(steps.take(self.steps.len() as int) =~= steps);
        let ghost npaths = found.len();
        assert(found@.take(npaths as int) =~= found@);
        let covered = covered_sections(self);
        let names = mentioned_sections(self);
        let mut k: usize = 0;
        while k < names.len()
            invariant
                k <= names.len(),
                found.len() == npaths + k,
                path_findings(found@.take(npaths as int), paths, data@, path_exists),
                paths == checked_paths(steps),
                npaths == paths.len(),
                names.deep_view() == first_of_each(all_mentions(steps)),
                covered.deep_view() == covered_texts(steps),
                forall|j: int|
                    0 <= j < k ==> {
                        &&& (#[trigger] found@[npaths + j]).where_@ == "description"@
                        &&& found@[npaths + j].what@ == section_question(names.deep_view()[j])
                        &&& found@[npaths + j].ok == covers(covered.deep_view(), names.deep_view()[j])
                    },
            decreases names.len() - k,
        {
            assert(names.deep_view()[k as int] =~= names@[k as int]@);
            let f = section_finding(&names[k], &covered);
            let ghost before = found@;
            found.push(f);
            assert(found@.take(npaths as int) =~= before.take(npaths as int));
            assert forall|j: int| 0 <= j < k + 1 implies {
                &&& (#[trigger] found@[npaths + j]).where_@ == "description"@
                &&& found@[npaths + j].what@ == section_question(names.deep_view()[j])
                &&& found@[npaths + j].ok == covers(covered.deep_view(), names.deep_view()[j])
            } by {
                if j < k {
                    assert(found@[npaths + j] == before[npaths + j]);
                }
            }
            k += 1;
        }
        found
    }
}

/// The ensures of a definition check, over the workflow's view.
pub open spec fn checked_against<F: Fn(&str) -> bool>(
    w: WorkflowModel,
    data: Seq<char>,
    path_exists: F,
    found: Seq<Finding>,
) -> bool {
    let paths = checked_paths(w.steps);
    let names = first_of_each(all_mentions(w.steps));
    let covered = covered_texts(w.steps);
    &&& found.len() == paths.len() + names.len()
    &&& path_findings(found.take(paths.len() as int), paths, data, path_exists)
    &&& forall|j: int|
        0 <= j < names.len() ==> {
            &&& (#[trigger] found[paths.len() + j]).where_@ == "description"@
            &&& found[paths.len() + j].what@ == section_question(names[j])
            &&& found[paths.len() + j].ok == covers(covered, names[j])
        }
}

/// Checks a workflow definition (see [`Workflow::check`]).
pub fn check<F: Fn(&str) -> bool>(flow: &Workflow, data: &str, path_exists: F) -> (found: Vec<
    Finding,
>)
    requires
        forall|s: &str| call_requires(path_exists, (s,)),
    ensures
        checked_against(flow@, data@, path_exists, found@),
{
    flow.check(data, path_exists)
}

/// One line of the report on a finding.
pub open spec fn finding_line(f: Finding) -> Seq<char> {
    "  "@ + (if f.ok {
        "✓"@
    } else {
        "✗"@
    }) + " "@ + f.where_@ + "——"@ + f.what@
}

/// The report a person reads: how many things were checked, one line for each
/// (a tick or a cross, where, what), and a note when there was nothing to check.
pub open spec fn report_lines(found: Seq<Finding>) -> Seq<Seq<char>> {
    seq!["核对 "@ + crate::text::decimal(found.len()) + " 件事"@] + found.map_values(
        |f: Finding| finding_line(f),
    ) + if found.len() == 0 {
        seq!["  （这条定义里没有可核对的路径与小节）"@]
    } else {
        Seq::empty()
    }
}

/// The check's findings written as lines a person reads.
pub fn describe(found: &[Finding]) -> (lines: Vec<String>)
    ensures
        lines.deep_view() == report_lines(found@),
{
    let mut head = chars_of("核对 ");
    let n = crate::text::decimal_chars(found.len());
    push_chars(&mut head, &n);
    push_str(&mut head, " 件事");
    let mut lines: Vec<String> = Vec::new();
    lines.push(string_of(&head));
    let mut i: usize = 0;
    while i < found.len()
        invariant
            i <= found.len(),
            lines.deep_view() == seq!["核对 "@ + crate::text::decimal(found@.len()) + " 件事"@]
                + found@.take(i as int).map_values(|f: Finding| finding_line(f)),
        decreases found.len() - i,
    {
        let f = &found[i];
        let mut line = chars_of("  ");
        if f.ok {
            push_str(&mut line, "✓");
        } else {
            push_str(&mut line, "✗");
        }
        push_str(&mut line, " ");
        push_str(&mut line, f.where_.as_str());
        push_str(&mut line, "——");
        push_str(&mut line, f.what.as_str());
        let ghost before = lines.deep_view();
        lines.push(string_of(&line));
        assert(lines.deep_view() =~= before.push(finding_line(*f)));
        assert(found@.take(i + 1).map_values(|f: Finding| finding_line(f)) =~= found@.take(
            i as int,
        ).map_values(|f: Finding| finding_line(f)).push(finding_line(*f)));
        i += 1;
    }
    assert(found@.take(found.len() as int) =~= found@);
    if found.len() == 0 {
        let ghost before = lines.deep_view();
        lines.push(String::from_str("  （这条定义里没有可核对的路径与小节）"));
        assert(lines.deep_view() =~= before.push("  （这条定义里没有可核对的路径与小节）"@));
    }
    assert(lines.deep_view() =~= report_lines(found@));
    lines
}

/// Whether every finding passed.
pub fn all_ok(found: &[Finding]) -> (b: bool)
    ensures
        b == forall|i: int| 0 <= i < found.len() ==> (#[trigger] found@[i]).ok,
{
    let mut i: usize = 0;
    while i < found.len()
        invariant
            i <= found.len(),
            forall|j: int| 0 <= j < i ==> (#[trigger] found@[j]).ok,
        decreases found.len() - i,
    {
        if !found[i].ok {
            return false;
        }
        i += 1;
    }
    true
}

} // verus!
