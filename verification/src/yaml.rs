//! Parsed definition data: the values that a YAML (or JSON) document holds.
//!
//! A definition reaches this library already parsed. `Yaml` holds it as plain
//! data, with a mapping kept as the list of its entries in written order; its
//! view `Node` is the same tree over `Seq<char>`. The accessors read it the way
//! a YAML value is read: tags are looked through, a key is found only among
//! string keys, a number is a `u64` only when it is a non-negative integer.

use crate::text::{chars_of, lemma_trim_is_trimmed, lemma_trimmed_ends, trim, trim_chars, trimmed};
use vstd::prelude::*;

verus! {

/// A number as written in the document.
#[derive(Debug, Clone, PartialEq)]
pub enum Number {
    PosInt(u64),
    NegInt(i64),
    /// A floating-point number, kept as the text it is written with.
    Float(String),
}

/// A parsed value.
#[derive(Debug, PartialEq)]
pub enum Yaml {
    Null,
    Bool(bool),
    Number(Number),
    String(String),
    Sequence(Vec<Yaml>),
    /// The entries of a mapping, in written order.
    Mapping(Vec<(Yaml, Yaml)>),
    /// A tagged value: the tag and what it tags.
    Tagged(String, Box<Yaml>),
}

/// The view of a [`Number`].
pub enum NumberModel {
    PosInt(u64),
    NegInt(i64),
    Float(Seq<char>),
}

/// The view of a [`Yaml`]: the same tree over character sequences.
pub enum Node {
    Null,
    Bool(bool),
    Number(NumberModel),
    String(Seq<char>),
    Sequence(Seq<Node>),
    Mapping(Seq<(Node, Node)>),
    Tagged(Seq<char>, Box<Node>),
}

pub open spec fn number_model(n: Number) -> NumberModel {
    match n {
        Number::PosInt(u) => NumberModel::PosInt(u),
        Number::NegInt(i) => NumberModel::NegInt(i),
        Number::Float(t) => NumberModel::Float(t@),
    }
}

pub open spec fn value_model(v: Yaml) -> Node
    decreases v, 2int,
{
    match v {
        Yaml::Null => Node::Null,
        Yaml::Bool(b) => Node::Bool(b),
        Yaml::Number(n) => Node::Number(number_model(n)),
        Yaml::String(s) => Node::String(s@),
        Yaml::Sequence(items) => Node::Sequence(seq_model(items@)),
        Yaml::Mapping(entries) => Node::Mapping(entries_model(entries@)),
        Yaml::Tagged(tag, inner) => Node::Tagged(tag@, Box::new(value_model(*inner))),
    }
}

pub open spec fn seq_model(s: Seq<Yaml>) -> Seq<Node>
    decreases s, 1int,
{
    if s.len() == 0 {
        Seq::empty()
    } else {
        seq![value_model(s[0])] + seq_model(s.subrange(1, s.len() as int))
    }
}

pub open spec fn entries_model(s: Seq<(Yaml, Yaml)>) -> Seq<(Node, Node)>
    decreases s, 1int,
{
    if s.len() == 0 {
        Seq::empty()
    } else {
        seq![(value_model(s[0].0), value_model(s[0].1))] + entries_model(
            s.subrange(1, s.len() as int),
        )
    }
}

impl View for Yaml {
    type V = Node;

    open spec fn view(&self) -> Node {
        value_model(*self)
    }
}

/// The value under any number of tags.
pub open spec fn untag(n: Node) -> Node
    decreases n,
{
    match n {
        Node::Tagged(_, inner) => untag(*inner),
        _ => n,
    }
}

/// The value of the first entry whose key is the string `key`.
pub open spec fn lookup(entries: Seq<(Node, Node)>, key: Seq<char>) -> Option<Node>
    decreases entries.len(),
{
    if entries.len() == 0 {
        None
    } else if entries[0].0 == Node::String(key) {
        Some(entries[0].1)
    } else {
        lookup(entries.drop_first(), key)
    }
}

/// `value.get(key)`: the value under a string key of a mapping.
pub open spec fn get(n: Node, key: Seq<char>) -> Option<Node> {
    match untag(n) {
        Node::Mapping(entries) => lookup(entries, key),
        _ => None,
    }
}

/// `value.as_str()`.
pub open spec fn as_str(n: Node) -> Option<Seq<char>> {
    match untag(n) {
        Node::String(s) => Some(s),
        _ => None,
    }
}

/// `value.as_bool()`.
pub open spec fn as_bool(n: Node) -> Option<bool> {
    match untag(n) {
        Node::Bool(b) => Some(b),
        _ => None,
    }
}

/// `value.as_u64()`.
pub open spec fn as_u64(n: Node) -> Option<u64> {
    match untag(n) {
        Node::Number(NumberModel::PosInt(u)) => Some(u),
        _ => None,
    }
}

/// `value.as_sequence()`.
pub open spec fn as_sequence(n: Node) -> Option<Seq<Node>> {
    match untag(n) {
        Node::Sequence(items) => Some(items),
        _ => None,
    }
}

/// `value.as_mapping()`.
pub open spec fn as_mapping(n: Node) -> Option<Seq<(Node, Node)>> {
    match untag(n) {
        Node::Mapping(entries) => Some(entries),
        _ => None,
    }
}

/// A string field with white space trimmed; anything that is not a string
/// counts as not written.
pub open spec fn field_text(n: Node, key: Seq<char>) -> Seq<char> {
    match get(n, key) {
        Some(v) => match as_str(v) {
            Some(s) => trim(s),
            None => Seq::empty(),
        },
        None => Seq::empty(),
    }
}

/// The text of a field is trimmed.
pub proof fn lemma_field_text_trimmed(n: Node, key: Seq<char>)
    ensures
        trimmed(field_text(n, key)),
{
    lemma_trimmed_ends(Seq::<char>::empty());
    match get(n, key) {
        Some(v) => match as_str(v) {
            Some(s) => lemma_trim_is_trimmed(s),
            None => {},
        },
        None => {},
    }
}

/// The string keys of a mapping that are not among `allowed`, in order.
pub open spec fn unknown_keys(entries: Seq<(Node, Node)>, allowed: Seq<Seq<char>>) -> Seq<
    Seq<char>,
>
    decreases entries.len(),
{
    if entries.len() == 0 {
        Seq::empty()
    } else {
        let rest = unknown_keys(entries.drop_first(), allowed);
        match as_str(entries[0].0) {
            Some(k) => if allowed.contains(k) {
                rest
            } else {
                seq![k] + rest
            },
            None => rest,
        }
    }
}

/// A mapping entry from a string key to a string value.
pub open spec fn str_entry(k: Seq<char>, v: Seq<char>) -> (Node, Node) {
    (Node::String(k), Node::String(v))
}

pub proof fn lemma_seq_model_index(s: Seq<Yaml>, i: int)
    requires
        0 <= i < s.len(),
    ensures
        seq_model(s).len() == s.len(),
        seq_model(s)[i] == value_model(s[i]),
    decreases s.len(),
{
    lemma_seq_model_len(s);
    if i > 0 {
        let t = s.subrange(1, s.len() as int);
        lemma_seq_model_index(t, i - 1);
        assert(t[i - 1] == s[i]);
    }
}

pub proof fn lemma_seq_model_len(s: Seq<Yaml>)
    ensures
        seq_model(s).len() == s.len(),
    decreases s.len(),
{
    if s.len() > 0 {
        lemma_seq_model_len(s.subrange(1, s.len() as int));
    }
}

pub proof fn lemma_entries_model_index(s: Seq<(Yaml, Yaml)>, i: int)
    requires
        0 <= i < s.len(),
    ensures
        entries_model(s).len() == s.len(),
        entries_model(s)[i] == (value_model(s[i].0), value_model(s[i].1)),
    decreases s.len(),
{
    lemma_entries_model_len(s);
    if i > 0 {
        let t = s.subrange(1, s.len() as int);
        lemma_entries_model_index(t, i - 1);
        assert(t[i - 1] == s[i]);
    }
}

pub proof fn lemma_entries_model_len(s: Seq<(Yaml, Yaml)>)
    ensures
        entries_model(s).len() == s.len(),
    decreases s.len(),
{
    if s.len() > 0 {
        lemma_entries_model_len(s.subrange(1, s.len() as int));
    }
}

/// The model of a list of values is the list of their models.
pub proof fn lemma_seq_model(s: Seq<Yaml>)
    ensures
        seq_model(s).len() == s.len(),
        forall|i: int| 0 <= i < s.len() ==> #[trigger] seq_model(s)[i] == value_model(s[i]),
{
    lemma_seq_model_len(s);
    assert forall|i: int| 0 <= i < s.len() implies #[trigger] seq_model(s)[i] == value_model(
        s[i],
    ) by {
        lemma_seq_model_index(s, i);
    }
}

/// The model of a list of entries is the list of their models.
pub proof fn lemma_entries_model(s: Seq<(Yaml, Yaml)>)
    ensures
        entries_model(s).len() == s.len(),
        forall|i: int|
            0 <= i < s.len() ==> #[trigger] entries_model(s)[i] == (
                value_model(s[i].0),
                value_model(s[i].1),
            ),
{
    lemma_entries_model_len(s);
    assert forall|i: int| 0 <= i < s.len() implies #[trigger] entries_model(s)[i] == (
        value_model(s[i].0),
        value_model(s[i].1),
    ) by {
        lemma_entries_model_index(s, i);
    }
}

/// `lookup` scans from an index onwards.
pub proof fn lemma_lookup_skip(entries: Seq<(Node, Node)>, key: Seq<char>, i: int)
    requires
        0 <= i <= entries.len(),
        forall|j: int| 0 <= j < i ==> entries[j].0 != Node::String(key),
    ensures
        lookup(entries, key) == lookup(entries.skip(i), key),
    decreases i,
{
    if i == 0 {
        assert(entries.skip(0) =~= entries);
    } else {
        let t = entries.drop_first();
        lemma_lookup_skip(t, key, i - 1);
        assert(t.skip(i - 1) =~= entries.skip(i));
    }
}

/// Appending an entry appends its model.
pub proof fn lemma_entries_model_push(s: Seq<(Yaml, Yaml)>, e: (Yaml, Yaml))
    ensures
        entries_model(s.push(e)) == entries_model(s).push((value_model(e.0), value_model(e.1))),
{
    lemma_entries_model(s);
    lemma_entries_model(s.push(e));
    assert(entries_model(s.push(e)) =~= entries_model(s).push(
        (value_model(e.0), value_model(e.1)),
    ));
}

/// Appending a value appends its model.
pub proof fn lemma_seq_model_push(s: Seq<Yaml>, v: Yaml)
    ensures
        seq_model(s.push(v)) == seq_model(s).push(value_model(v)),
{
    lemma_seq_model(s);
    lemma_seq_model(s.push(v));
    assert(seq_model(s.push(v)) =~= seq_model(s).push(value_model(v)));
}

/// A string value holding the characters of `s`.
pub fn str_value(s: &str) -> (v: Yaml)
    ensures
        v@ == Node::String(s@),
{
    Yaml::String(String::from_str(s))
}

/// Appends an entry from the string key `k` to the string `v`.
pub fn push_text_entry(entries: &mut Vec<(Yaml, Yaml)>, k: &str, v: &str)
    ensures
        entries_model(final(entries)@) == entries_model(old(entries)@).push(str_entry(k@, v@)),
{
    let e = (str_value(k), str_value(v));
    proof {
        lemma_entries_model_push(entries@, e);
    }
    entries.push(e);
}

/// Appends an entry from the string key `k` to the value `v`.
pub fn push_entry(entries: &mut Vec<(Yaml, Yaml)>, k: &str, v: Yaml)
    ensures
        entries_model(final(entries)@) == entries_model(old(entries)@).push(
            (Node::String(k@), v@),
        ),
{
    let e = (str_value(k), v);
    proof {
        lemma_entries_model_push(entries@, e);
    }
    entries.push(e);
}

impl Yaml {
    /// A copy of the value, node for node.
    pub fn copy(&self) -> (r: Yaml)
        ensures
            r@ == self@,
        decreases self,
    {
        match self {
            Yaml::Null => Yaml::Null,
            Yaml::Bool(b) => Yaml::Bool(*b),
            Yaml::Number(Number::PosInt(u)) => Yaml::Number(Number::PosInt(*u)),
            Yaml::Number(Number::NegInt(i)) => Yaml::Number(Number::NegInt(*i)),
            Yaml::Number(Number::Float(t)) => Yaml::Number(Number::Float(t.clone())),
            Yaml::String(s) => Yaml::String(s.clone()),
            Yaml::Sequence(items) => {
                let mut out: Vec<Yaml> = Vec::new();
                let mut i: usize = 0;
                proof {
                    lemma_seq_model(items@);
                }
                while i < items.len()
                    invariant
                        i <= items.len(),
                        *self == Yaml::Sequence(*items),
                        seq_model(items@).len() == items.len(),
                        forall|j: int| 0 <= j < items.len() ==> #[trigger] seq_model(items@)[j] == items@[j]@,
                        seq_model(out@) == seq_model(items@).take(i as int),
                    decreases items.len() - i,
                {
                    assert(decreases_to!(*self => (*self)->Sequence_0));
                    assert(decreases_to!(*items => items@));
                    assert(decreases_to!(items@ => items@[i as int]));
                    let c = items[i].copy();
                    proof {
                        lemma_seq_model_push(out@, c);
                    }
                    out.push(c);
                    assert(seq_model(items@).take(i + 1) =~= seq_model(items@).take(i as int).push(
                        items@[i as int]@,
                    ));
                    i += 1;
                }
                assert(seq_model(items@).take(items.len() as int) =~= seq_model(items@));
                Yaml::Sequence(out)
            },
            Yaml::Mapping(entries) => {
                let mut out: Vec<(Yaml, Yaml)> = Vec::new();
                let mut i: usize = 0;
                proof {
                    lemma_entries_model(entries@);
                }
                while i < entries.len()
                    invariant
                        i <= entries.len(),
                        *self == Yaml::Mapping(*entries),
                        entries_model(entries@).len() == entries.len(),
                        forall|j: int|
                            0 <= j < entries.len() ==> #[trigger] entries_model(entries@)[j] == (
                                entries@[j].0@,
                                entries@[j].1@,
                            ),
                        entries_model(out@) == entries_model(entries@).take(i as int),
                    decreases entries.len() - i,
                {
                    assert(decreases_to!(*self => (*self)->Mapping_0));
                    assert(decreases_to!(*entries => entries@));
                    assert(decreases_to!(entries@ => entries@[i as int]));
                    assert(decreases_to!(entries@[i as int] => entries@[i as int].0));
                    assert(decreases_to!(entries@[i as int] => entries@[i as int].1));
                    let k = entries[i].0.copy();
                    let v = entries[i].1.copy();
                    proof {
                        lemma_entries_model_push(out@, (k, v));
                    }
                    out.push((k, v));
                    assert(entries_model(entries@).take(i + 1) =~= entries_model(entries@).take(
                        i as int,
                    ).push((entries@[i as int].0@, entries@[i as int].1@)));
                    i += 1;
                }
                assert(entries_model(entries@).take(entries.len() as int) =~= entries_model(entries@));
                Yaml::Mapping(out)
            },
            Yaml::Tagged(tag, inner) => Yaml::Tagged(tag.clone(), Box::new(inner.copy())),
        }
    }

    /// The value under any number of tags.
    pub fn untagged(&self) -> (r: &Yaml)
        ensures
            r@ == untag(self@),
        decreases self,
    {
        match self {
            Yaml::Tagged(_, inner) => inner.untagged(),
            _ => self,
        }
    }

    /// The value under a string key of a mapping; `None` for anything else.
    pub fn get(&self, key: &str) -> (r: Option<&Yaml>)
        ensures
            match r {
                Some(v) => get(self@, key@) == Some(v@),
                None => get(self@, key@) is None,
            },
    {
        match self.untagged() {
            Yaml::Mapping(entries) => {
                let k = chars_of(key);
                let mut i: usize = 0;
                proof {
                    lemma_entries_model(entries@);
                }
                while i < entries.len()
                    invariant
                        i <= entries.len(),
                        k@ == key@,
                        untag(self@) == Node::Mapping(entries_model(entries@)),
                        entries_model(entries@).len() == entries.len(),
                        forall|j: int|
                            0 <= j < entries.len() ==> #[trigger] entries_model(entries@)[j] == (
                                value_model(entries@[j].0),
                                value_model(entries@[j].1),
                            ),
                        forall|j: int|
                            0 <= j < i ==> entries_model(entries@)[j].0 != Node::String(key@),
                    decreases entries.len() - i,
                {
                    let entry = &entries[i];
                    assert(entries_model(entries@)[i as int].0 == entry.0@);
                    match &entry.0 {
                        Yaml::String(s) => {
                            let sc = chars_of(s.as_str());
                            if crate::text::same_chars(&sc, &k) {
                                proof {
                                    lemma_lookup_skip(entries_model(entries@), key@, i as int);
                                    assert(entries_model(entries@).skip(i as int)[0]
                                        == entries_model(entries@)[i as int]);
                                }
                                return Some(&entry.1);
                            }
                        },
                        _ => {},
                    }
                    i += 1;
                }
                proof {
                    lemma_lookup_skip(entries_model(entries@), key@, i as int);
                }
                None
            },
            _ => None,
        }
    }

    /// The string this value is, under any tags.
    pub fn as_str(&self) -> (r: Option<&String>)
        ensures
            match r {
                Some(s) => as_str(self@) == Some(s@),
                None => as_str(self@) is None,
            },
    {
        match self.untagged() {
            Yaml::String(s) => Some(s),
            _ => None,
        }
    }

    /// The boolean this value is, under any tags.
    pub fn as_bool(&self) -> (r: Option<bool>)
        ensures
            r == as_bool(self@),
    {
        match self.untagged() {
            Yaml::Bool(b) => Some(*b),
            _ => None,
        }
    }

    /// The non-negative integer this value is, under any tags.
    pub fn as_u64(&self) -> (r: Option<u64>)
        ensures
            r == as_u64(self@),
    {
        match self.untagged() {
            Yaml::Number(Number::PosInt(u)) => Some(*u),
            _ => None,
        }
    }

    /// The items of the sequence this value is, under any tags.
    pub fn as_sequence(&self) -> (r: Option<&Vec<Yaml>>)
        ensures
            match r {
                Some(items) => as_sequence(self@) == Some(seq_model(items@)),
                None => as_sequence(self@) is None,
            },
    {
        match self.untagged() {
            Yaml::Sequence(items) => Some(items),
            _ => None,
        }
    }

    /// The entries of the mapping this value is, under any tags.
    pub fn as_mapping(&self) -> (r: Option<&Vec<(Yaml, Yaml)>>)
        ensures
            match r {
                Some(entries) => as_mapping(self@) == Some(entries_model(entries@)),
                None => as_mapping(self@) is None,
            },
    {
        match self.untagged() {
            Yaml::Mapping(entries) => Some(entries),
            _ => None,
        }
    }
}

/// A string field's characters with white space trimmed; empty when the
/// field is missing or is not a string.
pub fn text_chars(value: &Yaml, key: &str) -> (r: Vec<char>)
    ensures
        r@ == field_text(value@, key@),
{
    match value.get(key) {
        Some(v) => match v.as_str() {
            Some(s) => {
                let c = chars_of(s.as_str());
                trim_chars(&c)
            },
            None => Vec::new(),
        },
        None => Vec::new(),
    }
}

} // verus!
