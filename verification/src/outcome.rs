//! The outcome: the answer to one action.
//!
//! One per action; a command line and a window both read it, and an action
//! that moves a task on also goes into the journal. This is its fixed part:
//! whether it went through, the lines for a person, one table (columns and
//! rows) shared by every front end, and the data column for a window or a
//! script — and the envelope all of it travels in, written and read back.
//! How the lines are phrased, how paths are shown and which exit code
//! follows are each platform's own.

use crate::yaml::{
    Node, Number, Yaml, as_bool, as_sequence, entries_model, get, lookup, push_entry, seq_model,
    lemma_seq_model, lemma_seq_model_push,
};
use serde_json::Value as Json;
use vstd::prelude::*;

verus! {

/// A JSON value as serde_json holds it: what the data column is handed to
/// serde_json as, to be written out.
#[verifier::external_type_specification]
#[verifier::external_body]
pub struct ExJson(serde_json::Value);

/// The answer to one action.
#[derive(Debug, PartialEq)]
pub struct Outcome {
    pub ok: bool,
    /// The lines for a person, one sentence each.
    pub lines: Vec<String>,
    /// The one table: its header and its rows.
    pub columns: Vec<String>,
    pub rows: Vec<Vec<String>>,
    /// The column for a window or a script (where the raw result rides);
    /// absent when there is none.
    pub data: Option<Yaml>,
}

/// The view of an [`Outcome`].
pub struct OutcomeModel {
    pub ok: bool,
    pub lines: Seq<Seq<char>>,
    pub columns: Seq<Seq<char>>,
    pub rows: Seq<Seq<Seq<char>>>,
    pub data: Option<Node>,
}

impl View for Outcome {
    type V = OutcomeModel;

    open spec fn view(&self) -> OutcomeModel {
        OutcomeModel {
            ok: self.ok,
            lines: self.lines.deep_view(),
            columns: self.columns.deep_view(),
            rows: self.rows.deep_view(),
            data: match self.data {
                Some(d) => Some(d@),
                None => None,
            },
        }
    }
}

/// A JSON value: no tags anywhere, and every key of a mapping is text.
pub open spec fn json_shaped(n: Node) -> bool
    decreases n, 1int,
{
    match n {
        Node::Tagged(_, _) => false,
        Node::Sequence(items) => items_shaped(items),
        Node::Mapping(entries) => entries_shaped(entries),
        _ => true,
    }
}

/// Every item is a JSON value.
pub open spec fn items_shaped(items: Seq<Node>) -> bool
    decreases items, 0int,
{
    if items.len() == 0 {
        true
    } else {
        json_shaped(items[0]) && items_shaped(items.subrange(1, items.len() as int))
    }
}

/// Every key is text and every value a JSON value.
pub open spec fn entries_shaped(entries: Seq<(Node, Node)>) -> bool
    decreases entries, 0int,
{
    if entries.len() == 0 {
        true
    } else {
        entries[0].0 is String && json_shaped(entries[0].1) && entries_shaped(
            entries.subrange(1, entries.len() as int),
        )
    }
}

/// The text serde_json writes for a JSON value (compact, as its `Display`
/// writes it).
pub uninterp spec fn json_text(v: Node) -> Seq<char>;

/// A list of texts as a JSON array of strings.
pub open spec fn text_list(s: Seq<Seq<char>>) -> Node {
    Node::Sequence(s.map_values(|t: Seq<char>| Node::String(t)))
}

/// The envelope: `columns`, then `data` only when there is some, `lines`,
/// `ok` and `rows` — the keys in the order a JSON object keeps them.
pub open spec fn envelope_node(o: OutcomeModel) -> Node {
    Node::Mapping(
        seq![(Node::String("columns"@), text_list(o.columns))] + match o.data {
            Some(d) => seq![(Node::String("data"@), d)],
            None => Seq::empty(),
        } + seq![
            (Node::String("lines"@), text_list(o.lines)),
            (Node::String("ok"@), Node::Bool(o.ok)),
            (
                Node::String("rows"@),
                Node::Sequence(o.rows.map_values(|r: Seq<Seq<char>>| text_list(r))),
            ),
        ],
    )
}

/// One cell read back: text as it is, anything else as its JSON text.
pub open spec fn cell_text(item: Node) -> Seq<char> {
    match item {
        Node::String(s) => s,
        _ => json_text(item),
    }
}

/// A column read back: the items of an array as texts; anything that is not
/// an array reads as empty.
pub open spec fn column_of(v: Node) -> Seq<Seq<char>> {
    match as_sequence(v) {
        Some(items) => items.map_values(|i: Node| cell_text(i)),
        None => Seq::empty(),
    }
}

/// A column under a key; missing reads as empty.
pub open spec fn column_at(n: Node, key: Seq<char>) -> Seq<Seq<char>> {
    match get(n, key) {
        Some(v) => column_of(v),
        None => Seq::empty(),
    }
}

/// The rows read back: each item of the `rows` array read as a column.
pub open spec fn rows_at(n: Node) -> Seq<Seq<Seq<char>>> {
    match get(n, "rows"@) {
        Some(v) => match as_sequence(v) {
            Some(items) => items.map_values(|r: Node| column_of(r)),
            None => Seq::empty(),
        },
        None => Seq::empty(),
    }
}

/// The outcome an envelope describes: `ok` false unless it is a boolean
/// true, missing or non-array columns empty, and `data` whatever is there.
pub open spec fn outcome_from(n: Node) -> OutcomeModel {
    OutcomeModel {
        ok: match get(n, "ok"@) {
            Some(v) => match as_bool(v) {
                Some(b) => b,
                None => false,
            },
            None => false,
        },
        lines: column_at(n, "lines"@),
        columns: column_at(n, "columns"@),
        rows: rows_at(n),
        data: get(n, "data"@),
    }
}

/// The text of a mapping key as a JSON object's key: the key's text (a key
/// that is not text, which no JSON value holds, gives the empty text).
fn key_text(k: &Yaml) -> (r: String)
    ensures
        r@ == match k@ {
            Node::String(s) => s,
            _ => Seq::empty(),
        },
{
    match k {
        Yaml::String(t) => t.clone(),
        _ => String::new(),
    }
}

/// The value handed to serde_json: the same tree, one node for one node (a
/// tag is looked through). It has no contract: its result is only handed on
/// to serde_json by [`json_text_of`], on JSON values alone.
#[verifier::external_body]
fn json_value(v: &Yaml) -> Json {
    match v {
        Yaml::Null => Json::Null,
        Yaml::Bool(b) => Json::Bool(*b),
        Yaml::Number(Number::PosInt(u)) => (*u).into(),
        Yaml::Number(Number::NegInt(i)) => (*i).into(),
        Yaml::Number(Number::Float(t)) => t.parse().map(Json::Number).unwrap_or_default(),
        Yaml::String(t) => Json::String(t.clone()),
        Yaml::Sequence(items) => items.iter().map(json_value).collect(),
        Yaml::Mapping(m) => m.iter().map(|(k, x)| (key_text(k), json_value(x))).collect(),
        Yaml::Tagged(_, inner) => json_value(inner),
    }
}

/// serde_json's text for a JSON value: `Value`'s `Display`, the compact
/// form (`{"k":1}`, `null`, `true`, numbers as serde_json writes them).
/// The contract only names the result: the same value gives the same text.
#[verifier::external_body]
fn json_text_of(v: &Yaml) -> (r: String)
    requires
        json_shaped(v@),
    ensures
        r@ == json_text(v@),
{
    json_value(v).to_string()
}

/// The texts as a JSON array of strings.
fn text_array(v: &Vec<String>) -> (r: Yaml)
    ensures
        r@ == text_list(v.deep_view()),
{
    let ghost want = v.deep_view().map_values(|t: Seq<char>| Node::String(t));
    let mut items: Vec<Yaml> = Vec::new();
    let mut i: usize = 0;
    while i < v.len()
        invariant
            i <= v.len(),
            want == v.deep_view().map_values(|t: Seq<char>| Node::String(t)),
            seq_model(items@) == want.take(i as int),
        decreases v.len() - i,
    {
        let item = Yaml::String(v[i].clone());
        proof {
            lemma_seq_model_push(items@, item);
        }
        items.push(item);
        assert(v.deep_view()[i as int] == v@[i as int]@);
        assert(want.take(i + 1) =~= want.take(i as int).push(want[i as int]));
        i += 1;
    }
    assert(want.take(v.len() as int) =~= want);
    Yaml::Sequence(items)
}

/// A value's items, when it is a JSON array of JSON values.
proof fn lemma_items_shaped(items: Seq<Node>, k: int)
    requires
        items_shaped(items),
        0 <= k < items.len(),
    ensures
        json_shaped(items[k]),
    decreases items.len(),
{
    if k > 0 {
        let rest = items.subrange(1, items.len() as int);
        lemma_items_shaped(rest, k - 1);
        assert(rest[k - 1] == items[k]);
    }
}

/// What a key of a JSON object holds is a JSON value.
proof fn lemma_lookup_shaped(entries: Seq<(Node, Node)>, key: Seq<char>)
    requires
        entries_shaped(entries),
    ensures
        match lookup(entries, key) {
            Some(v) => json_shaped(v),
            None => true,
        },
    decreases entries.len(),
{
    if entries.len() > 0 {
        let rest = entries.subrange(1, entries.len() as int);
        assert(entries.drop_first() =~= rest);
        lemma_lookup_shaped(rest, key);
    }
}

/// The field of a JSON value is a JSON value.
proof fn lemma_get_shaped(n: Node, key: Seq<char>)
    requires
        json_shaped(n),
    ensures
        match get(n, key) {
            Some(v) => json_shaped(v),
            None => true,
        },
{
    match n {
        Node::Mapping(entries) => lemma_lookup_shaped(entries, key),
        _ => {},
    }
}

/// One column read back from a value, when it is a JSON value.
fn column_from(v: &Yaml) -> (r: Vec<String>)
    requires
        json_shaped(v@),
    ensures
        r.deep_view() == column_of(v@),
{
    let mut out: Vec<String> = Vec::new();
    match v.as_sequence() {
        Some(items) => {
            let ghost want = seq_model(items@).map_values(|i: Node| cell_text(i));
            proof {
                lemma_seq_model(items@);
            }
            let mut i: usize = 0;
            while i < items.len()
                invariant
                    i <= items.len(),
                    items_shaped(seq_model(items@)),
                    seq_model(items@).len() == items.len(),
                    forall|j: int| 0 <= j < items.len() ==> #[trigger] seq_model(items@)[j] == items@[j]@,
                    want == seq_model(items@).map_values(|i: Node| cell_text(i)),
                    out.deep_view() == want.take(i as int),
                decreases items.len() - i,
            {
                proof {
                    lemma_items_shaped(seq_model(items@), i as int);
                }
                let text = match &items[i] {
                    Yaml::String(s) => s.clone(),
                    other => json_text_of(other),
                };
                assert(text@ == want[i as int]);
                let ghost before = out.deep_view();
                out.push(text);
                assert(out.deep_view() =~= before.push(want[i as int]));
                assert(want.take(i + 1) =~= want.take(i as int).push(want[i as int]));
                i += 1;
            }
            assert(want.take(items.len() as int) =~= want);
        },
        None => {
            assert(out.deep_view() =~= column_of(v@));
        },
    }
    out
}

/// A column under a key of a JSON value; missing reads as empty.
fn column_under(value: &Yaml, key: &str) -> (r: Vec<String>)
    requires
        json_shaped(value@),
    ensures
        r.deep_view() == column_at(value@, key@),
{
    proof {
        lemma_get_shaped(value@, key@);
    }
    match value.get(key) {
        Some(v) => column_from(v),
        None => {
            let r: Vec<String> = Vec::new();
            assert(r.deep_view() =~= Seq::<Seq<char>>::empty());
            r
        },
    }
}

impl Outcome {
    /// An outcome with nothing but whether it went through.
    pub fn new(ok: bool) -> (o: Outcome)
        ensures
            o@ == (OutcomeModel {
                ok,
                lines: Seq::empty(),
                columns: Seq::empty(),
                rows: Seq::empty(),
                data: None,
            }),
    {
        let o = Outcome { ok, lines: Vec::new(), columns: Vec::new(), rows: Vec::new(), data: None };
        assert(o@.lines =~= Seq::<Seq<char>>::empty());
        assert(o@.columns =~= Seq::<Seq<char>>::empty());
        assert(o@.rows =~= Seq::<Seq<Seq<char>>>::empty());
        o
    }

    /// An outcome with only lines.
    pub fn lines(ok: bool, lines: Vec<String>) -> (o: Outcome)
        ensures
            o@ == (OutcomeModel {
                ok,
                lines: lines.deep_view(),
                columns: Seq::empty(),
                rows: Seq::empty(),
                data: None,
            }),
    {
        let o = Outcome { ok, lines, columns: Vec::new(), rows: Vec::new(), data: None };
        assert(o@.columns =~= Seq::<Seq<char>>::empty());
        assert(o@.rows =~= Seq::<Seq<Seq<char>>>::empty());
        o
    }

    /// The same outcome with one line put before the others.
    pub fn with_first(self, line: String) -> (o: Outcome)
        ensures
            o@ == (OutcomeModel { lines: seq![line@] + self@.lines, ..self@ }),
    {
        let ghost old_lines = self.lines.deep_view();
        let mut o = self;
        o.lines.insert(0, line);
        assert(o.lines.deep_view() =~= seq![line@] + old_lines);
        o
    }

    /// The same outcome with the data column filled in.
    pub fn with_data(self, data: Yaml) -> (o: Outcome)
        ensures
            o@ == (OutcomeModel { data: Some(data@), ..self@ }),
    {
        let mut o = self;
        o.data = Some(data);
        o
    }

    /// The envelope: `ok`, `lines`, `columns` and `rows`, and `data` only
    /// when there is some.
    pub fn to_json(&self) -> (r: Yaml)
        ensures
            r@ == envelope_node(self@),
    {
        let mut entries: Vec<(Yaml, Yaml)> = Vec::new();
        push_entry(&mut entries, "columns", text_array(&self.columns));
        match &self.data {
            Some(d) => push_entry(&mut entries, "data", d.copy()),
            None => {},
        }
        push_entry(&mut entries, "lines", text_array(&self.lines));
        push_entry(&mut entries, "ok", Yaml::Bool(self.ok));
        let ghost rows = self@.rows;
        let ghost want = rows.map_values(|r: Seq<Seq<char>>| text_list(r));
        let mut table: Vec<Yaml> = Vec::new();
        let mut i: usize = 0;
        while i < self.rows.len()
            invariant
                i <= self.rows.len(),
                rows == self@.rows,
                want == rows.map_values(|r: Seq<Seq<char>>| text_list(r)),
                seq_model(table@) == want.take(i as int),
            decreases self.rows.len() - i,
        {
            let row = text_array(&self.rows[i]);
            proof {
                lemma_seq_model_push(table@, row);
            }
            table.push(row);
            assert(rows[i as int] == self.rows@[i as int].deep_view());
            assert(want.take(i + 1) =~= want.take(i as int).push(want[i as int]));
            i += 1;
        }
        assert(want.take(self.rows.len() as int) =~= want);
        push_entry(&mut entries, "rows", Yaml::Sequence(table));
        assert(entries_model(entries@) =~= match envelope_node(self@) {
            Node::Mapping(e) => e,
            _ => Seq::empty(),
        });
        Yaml::Mapping(entries)
    }

    /// The raw column (what is written out for a script); the envelope when
    /// no data rides.
    pub fn data_json(&self) -> (r: Yaml)
        ensures
            r@ == match self@.data {
                Some(d) => d,
                None => envelope_node(self@),
            },
    {
        match &self.data {
            Some(d) => d.copy(),
            None => self.to_json(),
        }
    }

    /// An outcome read back from its envelope (a JSON value): `ok` is false
    /// unless it is the boolean true; a column that is missing or not an
    /// array reads as empty; a text item is kept as it is and any other
    /// item becomes its JSON text; `data` is whatever is there.
    pub fn from_json(value: &Yaml) -> (o: Outcome)
        requires
            json_shaped(value@),
        ensures
            o@ == outcome_from(value@),
    {
        proof {
            lemma_get_shaped(value@, "rows"@);
        }
        let ok = match value.get("ok") {
            Some(v) => match v.as_bool() {
                Some(b) => b,
                None => false,
            },
            None => false,
        };
        let lines = column_under(value, "lines");
        let columns = column_under(value, "columns");
        let mut rows: Vec<Vec<String>> = Vec::new();
        match value.get("rows") {
            Some(v) => match v.as_sequence() {
                Some(items) => {
                    let ghost want = seq_model(items@).map_values(|r: Node| column_of(r));
                    proof {
                        lemma_seq_model(items@);
                    }
                    let mut i: usize = 0;
                    while i < items.len()
                        invariant
                            i <= items.len(),
                            items_shaped(seq_model(items@)),
                            seq_model(items@).len() == items.len(),
                            forall|j: int|
                                0 <= j < items.len() ==> #[trigger] seq_model(items@)[j]
                                    == items@[j]@,
                            want == seq_model(items@).map_values(|r: Node| column_of(r)),
                            rows.deep_view() == want.take(i as int),
                        decreases items.len() - i,
                    {
                        proof {
                            lemma_items_shaped(seq_model(items@), i as int);
                        }
                        let row = column_from(&items[i]);
                        let ghost before = rows.deep_view();
                        rows.push(row);
                        assert(rows.deep_view() =~= before.push(want[i as int]));
                        assert(want.take(i + 1) =~= want.take(i as int).push(want[i as int]));
                        i += 1;
                    }
                    assert(want.take(items.len() as int) =~= want);
                },
                None => {},
            },
            None => {},
        }
        let data = match value.get("data") {
            Some(d) => Some(d.copy()),
            None => None,
        };
        let o = Outcome { ok, lines, columns, rows, data };
        assert(o@.rows =~= rows_at(value@));
        o
    }
}

impl Default for Outcome {
    /// A failed outcome with nothing in it.
    fn default() -> (o: Outcome)
        ensures
            o@ == (OutcomeModel {
                ok: false,
                lines: Seq::empty(),
                columns: Seq::empty(),
                rows: Seq::empty(),
                data: None,
            }),
    {
        Outcome::new(false)
    }
}

/// The envelope's keys, told apart.
proof fn lemma_envelope_keys()
    ensures
        "columns"@ != "data"@,
        "columns"@ != "lines"@,
        "columns"@ != "ok"@,
        "columns"@ != "rows"@,
        "data"@ != "lines"@,
        "data"@ != "ok"@,
        "data"@ != "rows"@,
        "lines"@ != "ok"@,
        "lines"@ != "rows"@,
        "ok"@ != "rows"@,
{
    reveal_strlit("columns");
    reveal_strlit("data");
    reveal_strlit("lines");
    reveal_strlit("ok");
    reveal_strlit("rows");
    assert("columns"@.len() == 7);
    assert("data"@.len() == 4);
    assert("lines"@.len() == 5);
    assert("ok"@.len() == 2);
    assert("rows"@.len() == 4);
    assert("data"@[0] != "rows"@[0]);
}

/// A list of texts written as an array reads back as the same texts.
proof fn lemma_text_list_reads_back(s: Seq<Seq<char>>)
    ensures
        column_of(text_list(s)) == s,
{
    let back = column_of(text_list(s));
    assert(back =~= s);
}

/// An outcome written into its envelope and read back is the same outcome.
pub proof fn law_envelope_round_trip(o: OutcomeModel)
    ensures
        outcome_from(envelope_node(o)) == o,
{
    lemma_envelope_keys();
    reveal_with_fuel(lookup, 6);
    let n = envelope_node(o);
    lemma_text_list_reads_back(o.lines);
    lemma_text_list_reads_back(o.columns);
    assert(column_at(n, "lines"@) == o.lines);
    assert(column_at(n, "columns"@) == o.columns);
    let rows = o.rows.map_values(|r: Seq<Seq<char>>| text_list(r));
    assert(get(n, "rows"@) == Some(Node::Sequence(rows)));
    let back = rows.map_values(|r: Node| column_of(r));
    assert forall|i: int| 0 <= i < o.rows.len() implies #[trigger] back[i] == o.rows[i] by {
        lemma_text_list_reads_back(o.rows[i]);
    }
    assert(back =~= o.rows);
    assert(rows_at(n) == o.rows);
    assert(get(n, "data"@) == o.data);
}

/// Strings are JSON values.
proof fn lemma_strings_shaped(s: Seq<Seq<char>>)
    ensures
        items_shaped(s.map_values(|t: Seq<char>| Node::String(t))),
    decreases s.len(),
{
    let items = s.map_values(|t: Seq<char>| Node::String(t));
    if s.len() > 0 {
        let rest = s.subrange(1, s.len() as int);
        lemma_strings_shaped(rest);
        assert(items.subrange(1, items.len() as int) =~= rest.map_values(|t: Seq<char>| Node::String(t)));
        assert(items[0] == Node::String(s[0]));
        assert(json_shaped(items[0]));
        assert(items_shaped(items.subrange(1, items.len() as int)));
        assert(items_shaped(items));
    }
}

/// Rows of strings are JSON values.
proof fn lemma_rows_shaped(rows: Seq<Seq<Seq<char>>>)
    ensures
        items_shaped(rows.map_values(|r: Seq<Seq<char>>| text_list(r))),
    decreases rows.len(),
{
    let items = rows.map_values(|r: Seq<Seq<char>>| text_list(r));
    if rows.len() > 0 {
        let rest = rows.subrange(1, rows.len() as int);
        lemma_rows_shaped(rest);
        lemma_strings_shaped(rows[0]);
        assert(items.subrange(1, items.len() as int) =~= rest.map_values(
            |r: Seq<Seq<char>>| text_list(r),
        ));
        assert(items[0] == text_list(rows[0]));
        assert(json_shaped(items[0]));
        assert(items_shaped(items));
    }
}

/// The envelope is a JSON value whenever the data it carries is one, so it
/// can be read back with [`Outcome::from_json`].
pub proof fn law_envelope_is_json(o: OutcomeModel)
    requires
        o.data matches Some(d) ==> json_shaped(d),
    ensures
        json_shaped(envelope_node(o)),
{
    lemma_strings_shaped(o.columns);
    lemma_strings_shaped(o.lines);
    lemma_rows_shaped(o.rows);
    reveal_with_fuel(entries_shaped, 6);
    let e = match envelope_node(o) {
        Node::Mapping(e) => e,
        _ => Seq::empty(),
    };
    assert forall|i: int| 0 <= i < e.len() implies (#[trigger] e[i]).0 is String && json_shaped(e[i].1) by {}
    lemma_entries_shaped_from(e, 0);
    assert(e.subrange(0, e.len() as int) =~= e);
}

/// Entries whose keys are all text and values all JSON values, from `k` on.
proof fn lemma_entries_shaped_from(e: Seq<(Node, Node)>, k: int)
    requires
        0 <= k <= e.len(),
        forall|i: int| 0 <= i < e.len() ==> (#[trigger] e[i]).0 is String && json_shaped(e[i].1),
    ensures
        entries_shaped(e.subrange(k, e.len() as int)),
    decreases e.len() - k,
{
    let t = e.subrange(k, e.len() as int);
    if k < e.len() {
        lemma_entries_shaped_from(e, k + 1);
        assert(t.subrange(1, t.len() as int) =~= e.subrange(k + 1, e.len() as int));
        assert(t[0] == e[k]);
        assert(t[0].0 is String && json_shaped(t[0].1));
        assert(entries_shaped(t));
    } else {
        assert(t.len() == 0);
    }
}

} // verus!
