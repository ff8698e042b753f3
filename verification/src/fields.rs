//! Reading fields out of a definition: the field tables each level knows and
//! the two readers every model shares.

use crate::text::{chars_of, same_chars, string_of};
use crate::yaml::{Yaml, as_str, entries_model, lemma_entries_model, text_chars, field_text, unknown_keys};
use vstd::prelude::*;

verus! {

/// The fields a definition knows at its top level.
pub const TOP_FIELDS: [&'static str; 3] = ["name", "description", "steps"];

/// The fields a step knows.
pub const STEP_FIELDS: [&'static str; 4] = ["name", "description", "executor", "criteria"];

/// The fields a criterion knows.
pub const CRITERION_FIELDS: [&'static str; 7] = [
    "executor",
    "description",
    "path",
    "absent",
    "file",
    "contains",
    "run",
];

/// The fields a work record knows.
pub const RECORD_FIELDS: [&'static str; 7] = [
    "id",
    "seq",
    "created_at",
    "order_id",
    "step_id",
    "description",
    "is_succeeded",
];

/// A string field with white space trimmed at both ends; a field that is
/// missing or is not a string reads as empty.
pub fn text_of(value: &Yaml, key: &str) -> (r: String)
    ensures
        r@ == field_text(value@, key@),
{
    let c = text_chars(value, key);
    string_of(&c)
}

/// Whether `k` is one of the names in `list`.
pub fn listed(k: &[char], list: &[&str]) -> (b: bool)
    ensures
        b == list.deep_view().contains(k@),
{
    let ghost names = list.deep_view();
    let mut i: usize = 0;
    while i < list.len()
        invariant
            i <= list.len(),
            names == list.deep_view(),
            names.len() == list.len(),
            forall|j: int| 0 <= j < i ==> names[j] != k@,
        decreases list.len() - i,
    {
        let c = chars_of(list[i]);
        assert(names[i as int] == list@[i as int]@);
        if same_chars(&c, k) {
            return true;
        }
        i += 1;
    }
    false
}

/// One step of `unknown_keys`, seen from an index into the entries.
pub proof fn lemma_unknown_keys_step(
    entries: Seq<(crate::yaml::Node, crate::yaml::Node)>,
    allowed: Seq<Seq<char>>,
    i: int,
)
    requires
        0 <= i < entries.len(),
    ensures
        unknown_keys(entries.skip(i), allowed) == (match as_str(entries[i].0) {
            Some(k) => if allowed.contains(k) {
                unknown_keys(entries.skip(i + 1), allowed)
            } else {
                seq![k] + unknown_keys(entries.skip(i + 1), allowed)
            },
            None => unknown_keys(entries.skip(i + 1), allowed),
        }),
{
    assert(entries.skip(i).drop_first() =~= entries.skip(i + 1));
    assert(entries.skip(i)[0] == entries[i]);
}

/// The string keys of a mapping that are not among `allowed`, in written order.
pub fn unknown_fields(entries: &Vec<(Yaml, Yaml)>, allowed: &[&str]) -> (r: Vec<String>)
    ensures
        r.deep_view() == unknown_keys(entries_model(entries@), allowed.deep_view()),
{
    let ghost model = entries_model(entries@);
    let ghost target = unknown_keys(model, allowed.deep_view());
    proof {
        lemma_entries_model(entries@);
        assert(model.skip(0) =~= model);
    }
    let mut out: Vec<String> = Vec::new();
    let mut i: usize = 0;
    while i < entries.len()
        invariant
            i <= entries.len(),
            model == entries_model(entries@),
            model.len() == entries.len(),
            forall|j: int|
                0 <= j < entries.len() ==> #[trigger] model[j] == (
                    entries@[j].0@,
                    entries@[j].1@,
                ),
            target == unknown_keys(model, allowed.deep_view()),
            out.deep_view() + unknown_keys(model.skip(i as int), allowed.deep_view()) == target,
        decreases entries.len() - i,
    {
        proof {
            lemma_unknown_keys_step(model, allowed.deep_view(), i as int);
        }
        assert(model[i as int].0 == entries@[i as int].0@);
        match entries[i].0.as_str() {
            Some(k) => {
                let kc = chars_of(k.as_str());
                if !listed(&kc, allowed) {
                    let ghost before = out.deep_view();
                    out.push(k.clone());
                    assert(out.deep_view() =~= before.push(k@));
                    assert(out.deep_view() + unknown_keys(model.skip(i + 1), allowed.deep_view())
                        =~= before + (seq![k@] + unknown_keys(
                        model.skip(i + 1),
                        allowed.deep_view(),
                    )));
                }
            },
            None => {},
        }
        i += 1;
    }
    assert(model.skip(i as int) =~= Seq::<(crate::yaml::Node, crate::yaml::Node)>::empty());
    assert(out.deep_view() + Seq::<Seq<char>>::empty() =~= out.deep_view());
    out
}

} // verus!
