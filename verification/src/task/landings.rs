//! Where a task's artifacts land, as declared: a map from the artifact's name
//! to the path written for it, kept sorted by name with each name once.

use crate::text::{chars_of, same_chars};
use crate::yaml::{Node, as_str};
use vstd::prelude::*;

verus! {

/// Text order: character by character by code point, a proper prefix first
/// (the order of `String`).
pub open spec fn text_lt(a: Seq<char>, b: Seq<char>) -> bool
    decreases a.len(),
{
    if a.len() == 0 {
        b.len() > 0
    } else if b.len() == 0 {
        false
    } else if a[0] != b[0] {
        a[0] < b[0]
    } else {
        text_lt(a.drop_first(), b.drop_first())
    }
}

/// The entries as views: name and path.
pub open spec fn pairs_model(v: Seq<(String, String)>) -> Seq<(Seq<char>, Seq<char>)> {
    v.map_values(|p: (String, String)| (p.0@, p.1@))
}

/// The map with `k` set to `p`: an entry with the same name is replaced, else
/// the entry goes before the first larger name.
pub open spec fn insert_sorted(m: Seq<(Seq<char>, Seq<char>)>, k: Seq<char>, p: Seq<char>) -> Seq<
    (Seq<char>, Seq<char>),
>
    decreases m.len(),
{
    if m.len() == 0 {
        seq![(k, p)]
    } else if m[0].0 == k {
        seq![(k, p)] + m.drop_first()
    } else if text_lt(k, m[0].0) {
        seq![(k, p)] + m
    } else {
        seq![m[0]] + insert_sorted(m.drop_first(), k, p)
    }
}

/// The declared landings a mapping holds: each entry with a string name and a
/// string path, set one after another (so a later name replaces an earlier one).
pub open spec fn landings_from(entries: Seq<(Node, Node)>) -> Seq<(Seq<char>, Seq<char>)>
    decreases entries.len(),
{
    if entries.len() == 0 {
        Seq::empty()
    } else {
        let m = landings_from(entries.drop_last());
        match (as_str(entries.last().0), as_str(entries.last().1)) {
            (Some(k), Some(p)) => insert_sorted(m, k, p),
            _ => m,
        }
    }
}

/// The path declared under a name.
pub open spec fn declared_path(m: Seq<(Seq<char>, Seq<char>)>, k: Seq<char>) -> Option<Seq<char>>
    decreases m.len(),
{
    if m.len() == 0 {
        None
    } else if m[0].0 == k {
        Some(m[0].1)
    } else {
        declared_path(m.drop_first(), k)
    }
}

/// Names strictly increasing: sorted, each once.
pub open spec fn sorted_names(m: Seq<(Seq<char>, Seq<char>)>) -> bool {
    forall|i: int, j: int| 0 <= i < j < m.len() ==> text_lt(#[trigger] m[i].0, #[trigger] m[j].0)
}

pub proof fn lemma_text_lt_irreflexive(a: Seq<char>)
    ensures
        !text_lt(a, a),
    decreases a.len(),
{
    if a.len() > 0 {
        lemma_text_lt_irreflexive(a.drop_first());
    }
}

pub proof fn lemma_text_lt_asymmetric(a: Seq<char>, b: Seq<char>)
    ensures
        text_lt(a, b) ==> !text_lt(b, a),
    decreases a.len(),
{
    if a.len() > 0 && b.len() > 0 && a[0] == b[0] {
        lemma_text_lt_asymmetric(a.drop_first(), b.drop_first());
    }
}

pub proof fn lemma_text_lt_total(a: Seq<char>, b: Seq<char>)
    ensures
        a != b ==> text_lt(a, b) || text_lt(b, a),
    decreases a.len(),
{
    if a.len() > 0 && b.len() > 0 && a[0] == b[0] {
        lemma_text_lt_total(a.drop_first(), b.drop_first());
        if a.drop_first() == b.drop_first() {
            assert(a =~= seq![a[0]] + a.drop_first());
            assert(b =~= seq![b[0]] + b.drop_first());
        }
    } else if a.len() > 0 && b.len() > 0 {
    } else if a.len() == 0 && b.len() == 0 {
        assert(a =~= b);
    }
}

pub proof fn lemma_text_lt_transitive(a: Seq<char>, b: Seq<char>, c: Seq<char>)
    ensures
        text_lt(a, b) && text_lt(b, c) ==> text_lt(a, c),
    decreases a.len(),
{
    if a.len() > 0 && b.len() > 0 && c.len() > 0 {
        lemma_text_lt_transitive(a.drop_first(), b.drop_first(), c.drop_first());
    }
}

/// Whether `a` comes before `b` in text order.
pub fn text_less(a: &[char], b: &[char]) -> (r: bool)
    ensures
        r == text_lt(a@, b@),
{
    let mut i: usize = 0;
    assert(a@.skip(0) =~= a@);
    assert(b@.skip(0) =~= b@);
    while i < a.len() && i < b.len() && a[i] == b[i]
        invariant
            i <= a.len(),
            i <= b.len(),
            text_lt(a@, b@) == text_lt(a@.skip(i as int), b@.skip(i as int)),
        decreases a.len() - i,
    {
        assert(a@.skip(i as int).drop_first() =~= a@.skip(i + 1));
        assert(b@.skip(i as int).drop_first() =~= b@.skip(i + 1));
        i += 1;
    }
    if i == a.len() {
        i < b.len()
    } else if i == b.len() {
        false
    } else {
        assert(a@.skip(i as int)[0] == a@[i as int]);
        assert(b@.skip(i as int)[0] == b@[i as int]);
        a[i] < b[i]
    }
}

/// `insert_sorted` passes over entries with smaller names.
pub proof fn lemma_insert_sorted_skip(
    m: Seq<(Seq<char>, Seq<char>)>,
    k: Seq<char>,
    p: Seq<char>,
    i: int,
)
    requires
        0 <= i <= m.len(),
        forall|j: int| 0 <= j < i ==> text_lt(#[trigger] m[j].0, k),
    ensures
        insert_sorted(m, k, p) == m.take(i) + insert_sorted(m.skip(i), k, p),
    decreases i,
{
    if i == 0 {
        assert(m.skip(0) =~= m);
        assert(m.take(0) + insert_sorted(m, k, p) =~= insert_sorted(m, k, p));
    } else {
        lemma_text_lt_irreflexive(k);
        lemma_text_lt_asymmetric(m[0].0, k);
        assert(text_lt(m[0].0, k));
        let t = m.drop_first();
        assert forall|j: int| 0 <= j < i - 1 implies text_lt(#[trigger] t[j].0, k) by {
            assert(t[j] == m[j + 1]);
        }
        lemma_insert_sorted_skip(t, k, p, i - 1);
        assert(t.skip(i - 1) =~= m.skip(i));
        assert(m.take(i) =~= seq![m[0]] + t.take(i - 1));
    }
}

/// A copy of the pairs.
pub fn copy_pairs(v: &Vec<(String, String)>) -> (r: Vec<(String, String)>)
    ensures
        pairs_model(r@) == pairs_model(v@),
{
    let mut r: Vec<(String, String)> = Vec::new();
    let mut i: usize = 0;
    while i < v.len()
        invariant
            i <= v.len(),
            pairs_model(r@) == pairs_model(v@).take(i as int),
        decreases v.len() - i,
    {
        let e = (v[i].0.clone(), v[i].1.clone());
        let ghost before = r@;
        r.push(e);
        assert(pairs_model(r@) =~= pairs_model(before).push((e.0@, e.1@)));
        assert(pairs_model(v@).take(i + 1) =~= pairs_model(v@).take(i as int).push(
            (v@[i as int].0@, v@[i as int].1@),
        ));
        i += 1;
    }
    assert(pairs_model(v@).take(v.len() as int) =~= pairs_model(v@));
    r
}

/// Whether the name comes before `k` in text order.
fn name_before(name: &String, k: &Vec<char>) -> (b: bool)
    ensures
        b == text_lt(name@, k@),
{
    let n = chars_of(name.as_str());
    text_less(&n, k)
}

/// Sets `k` to `p`, keeping the names in text order, each once.
pub fn insert_landing(m: &mut Vec<(String, String)>, k: String, p: String)
    ensures
        pairs_model(final(m)@) == insert_sorted(pairs_model(old(m)@), k@, p@),
{
    let ghost model = pairs_model(m@);
    let kc = chars_of(k.as_str());
    let mut i: usize = 0;
    while i < m.len() && name_before(&m[i].0, &kc)
        invariant
            i <= m.len(),
            model == pairs_model(m@),
            model.len() == m.len(),
            kc@ == k@,
            forall|j: int| 0 <= j < i ==> text_lt(#[trigger] model[j].0, k@),
        decreases m.len() - i,
    {
        assert(model[i as int].0 == m@[i as int].0@);
        i += 1;
    }
    proof {
        lemma_insert_sorted_skip(model, k@, p@, i as int);
    }
    let ghost rest = model.skip(i as int);
    if i < m.len() {
        let name = chars_of(m[i].0.as_str());
        assert(!text_lt(model[i as int].0, k@));
        assert(rest[0] == model[i as int]);
        assert(model[i as int].0 == m@[i as int].0@);
        assert(rest.drop_first() =~= model.skip(i + 1));
        if same_chars(&name, &kc) {
            let _ = m.remove(i);
            m.insert(i, (k, p));
            assert(pairs_model(m@) =~= model.take(i as int) + (seq![(k@, p@)] + rest.drop_first()));
        } else {
            proof {
                lemma_text_lt_total(name@, k@);
            }
            m.insert(i, (k, p));
            assert(pairs_model(m@) =~= model.take(i as int) + (seq![(k@, p@)] + rest));
        }
    } else {
        m.push((k, p));
        assert(rest.len() == 0);
        assert(pairs_model(m@) =~= model.take(i as int) + seq![(k@, p@)]);
    }
}

/// The path declared under `k`, if any.
pub fn declared_in<'a>(m: &'a Vec<(String, String)>, k: &str) -> (r: Option<&'a String>)
    ensures
        match r {
            Some(p) => declared_path(pairs_model(m@), k@) == Some(p@),
            None => declared_path(pairs_model(m@), k@) is None,
        },
{
    let ghost model = pairs_model(m@);
    let kc = chars_of(k);
    let mut i: usize = 0;
    assert(model.skip(0) =~= model);
    while i < m.len()
        invariant
            i <= m.len(),
            model == pairs_model(m@),
            model.len() == m.len(),
            kc@ == k@,
            declared_path(model, k@) == declared_path(model.skip(i as int), k@),
        decreases m.len() - i,
    {
        let name = chars_of(m[i].0.as_str());
        assert(model.skip(i as int).drop_first() =~= model.skip(i + 1));
        assert(model.skip(i as int)[0] == (m@[i as int].0@, m@[i as int].1@));
        if same_chars(&name, &kc) {
            return Some(&m[i].1);
        }
        i += 1;
    }
    None
}

/// Inserting keeps the names sorted and each once.
pub proof fn lemma_insert_sorted_sorted(m: Seq<(Seq<char>, Seq<char>)>, k: Seq<char>, p: Seq<char>)
    requires
        sorted_names(m),
    ensures
        sorted_names(insert_sorted(m, k, p)),
        forall|i: int|
            0 <= i < insert_sorted(m, k, p).len() ==> (#[trigger] insert_sorted(m, k, p)[i].0 == k
                || exists|j: int| 0 <= j < m.len() && m[j].0 == insert_sorted(m, k, p)[i].0),
    decreases m.len(),
{
    let r = insert_sorted(m, k, p);
    if m.len() == 0 {
    } else if m[0].0 == k {
        assert forall|i: int, j: int| 0 <= i < j < r.len() implies text_lt(
            #[trigger] r[i].0,
            #[trigger] r[j].0,
        ) by {
            assert(r[j] == m[j]);
            if i > 0 {
                assert(r[i] == m[i]);
            }
        }
        assert forall|i: int| 0 <= i < r.len() implies (#[trigger] r[i].0 == k || exists|j: int|
            0 <= j < m.len() && m[j].0 == r[i].0) by {
            if i > 0 {
                assert(r[i] == m[i]);
            }
        }
    } else if text_lt(k, m[0].0) {
        assert forall|i: int, j: int| 0 <= i < j < r.len() implies text_lt(
            #[trigger] r[i].0,
            #[trigger] r[j].0,
        ) by {
            assert(r[j] == m[j - 1]);
            if i > 0 {
                assert(r[i] == m[i - 1]);
            } else if j - 1 > 0 {
                assert(text_lt(m[0].0, m[j - 1].0));
                lemma_text_lt_transitive(k, m[0].0, m[j - 1].0);
            }
        }
        assert forall|i: int| 0 <= i < r.len() implies (#[trigger] r[i].0 == k || exists|j: int|
            0 <= j < m.len() && m[j].0 == r[i].0) by {
            if i > 0 {
                assert(r[i] == m[i - 1]);
            }
        }
    } else {
        let t = m.drop_first();
        assert(sorted_names(t)) by {
            assert forall|i: int, j: int| 0 <= i < j < t.len() implies text_lt(
                #[trigger] t[i].0,
                #[trigger] t[j].0,
            ) by {
                assert(t[i] == m[i + 1]);
                assert(t[j] == m[j + 1]);
            }
        }
        lemma_insert_sorted_sorted(t, k, p);
        let s = insert_sorted(t, k, p);
        lemma_text_lt_total(m[0].0, k);
        assert(r == seq![m[0]] + s);
        assert forall|i: int| 0 <= i < s.len() implies text_lt(m[0].0, #[trigger] s[i].0) by {
            if s[i].0 == k {
            } else {
                let j = choose|j: int| 0 <= j < t.len() && t[j].0 == s[i].0;
                assert(t[j] == m[j + 1]);
            }
        }
        assert forall|i: int, j: int| 0 <= i < j < r.len() implies text_lt(
            #[trigger] r[i].0,
            #[trigger] r[j].0,
        ) by {
            assert(r[j] == s[j - 1]);
            if i > 0 {
                assert(r[i] == s[i - 1]);
            }
        }
        assert forall|i: int| 0 <= i < r.len() implies (#[trigger] r[i].0 == k || exists|j: int|
            0 <= j < m.len() && m[j].0 == r[i].0) by {
            if i > 0 {
                assert(r[i] == s[i - 1]);
                if s[i - 1].0 != k {
                    let j = choose|j: int| 0 <= j < t.len() && t[j].0 == s[i - 1].0;
                    assert(t[j] == m[j + 1]);
                }
            } else {
                assert(m[0].0 == r[0].0);
            }
        }
    }
}

/// The declared landings are sorted by name, each name once.
pub proof fn lemma_landings_sorted(entries: Seq<(Node, Node)>)
    ensures
        sorted_names(landings_from(entries)),
    decreases entries.len(),
{
    if entries.len() > 0 {
        lemma_landings_sorted(entries.drop_last());
        match (as_str(entries.last().0), as_str(entries.last().1)) {
            (Some(k), Some(p)) => {
                lemma_insert_sorted_sorted(landings_from(entries.drop_last()), k, p);
            },
            _ => {},
        }
    }
}

} // verus!
