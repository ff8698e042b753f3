//! One entry of a ledger, and the syntax it must keep.
//!
//! A work record is not a file of its own: it sits in a work order's
//! `records` field. [`WorkRecord::of`] and [`WorkRecord::to_yaml`] only carry
//! the fields; [`validate`] keeps the syntax — fields outside the table,
//! required fields missing and values of the wrong type are refused. Whether
//! an entry fits its ledger (no repeated id, no skipped page, time never
//! running backwards) is the ledger's discipline, not this one's.

use crate::fields::{RECORD_FIELDS, text_of, unknown_fields};
use crate::text::{chars_of, join_chars, join_with, push_chars, push_str, string_of, trim, trimmed};
use crate::yaml::{
    Node, NumberModel, Number, Yaml, as_bool, as_mapping, as_str, as_u64, entries_model, field_text, get,
    lookup, push_entry, push_text_entry, str_entry, unknown_keys,
};
use vstd::prelude::*;

verus! {

/// An entry of the ledger: when, at which step, one sentence, passed or not,
/// and its two anchors.
#[derive(Debug, Clone, PartialEq, Eq)]
pub struct WorkRecord {
    /// The entry's id: fixed when it is appended, never changed after.
    pub id: String,
    /// Its page: given by the ledger, from 1 up without gaps.
    pub seq: u64,
    /// When the step happened (not when it was written down).
    pub created_at: String,
    /// The work order it belongs to.
    pub order_id: String,
    /// The step's anchor, the same as the step it names in the workflow.
    pub step_id: String,
    /// One sentence of testimony, the only free text; empty by default.
    pub description: String,
    /// Whether the step passed; not written down counts as not passed.
    pub is_succeeded: bool,
}

/// The view of a [`WorkRecord`].
pub struct WorkRecordModel {
    pub id: Seq<char>,
    pub seq: u64,
    pub created_at: Seq<char>,
    pub order_id: Seq<char>,
    pub step_id: Seq<char>,
    pub description: Seq<char>,
    pub is_succeeded: bool,
}

impl View for WorkRecord {
    type V = WorkRecordModel;

    open spec fn view(&self) -> WorkRecordModel {
        WorkRecordModel {
            id: self.id@,
            seq: self.seq,
            created_at: self.created_at@,
            order_id: self.order_id@,
            step_id: self.step_id@,
            description: self.description@,
            is_succeeded: self.is_succeeded,
        }
    }
}

/// `seq` as written when it is a non-negative integer; 0 otherwise.
pub open spec fn seq_from(n: Node) -> u64 {
    match get(n, "seq"@) {
        Some(v) => match as_u64(v) {
            Some(u) => u,
            None => 0,
        },
        None => 0,
    }
}

/// `is_succeeded` as written when it is a boolean; `false` otherwise.
pub open spec fn succeeded_from(n: Node) -> bool {
    match get(n, "is_succeeded"@) {
        Some(v) => match as_bool(v) {
            Some(b) => b,
            None => false,
        },
        None => false,
    }
}

/// The record its fields describe, read without checking.
pub open spec fn record_from(n: Node) -> WorkRecordModel {
    WorkRecordModel {
        id: field_text(n, "id"@),
        seq: seq_from(n),
        created_at: field_text(n, "created_at"@),
        order_id: field_text(n, "order_id"@),
        step_id: field_text(n, "step_id"@),
        description: field_text(n, "description"@),
        is_succeeded: succeeded_from(n),
    }
}

/// The record written back: all seven fields, in table order.
pub open spec fn record_node(r: WorkRecordModel) -> Node {
    Node::Mapping(
        seq![
            str_entry("id"@, r.id),
            (Node::String("seq"@), Node::Number(NumberModel::PosInt(r.seq))),
            str_entry("created_at"@, r.created_at),
            str_entry("order_id"@, r.order_id),
            str_entry("step_id"@, r.step_id),
            str_entry("description"@, r.description),
            (Node::String("is_succeeded"@), Node::Bool(r.is_succeeded)),
        ],
    )
}

/// What is wrong with how an entry is written; the `第 n 笔` in front is the
/// caller's.
#[derive(Debug, Clone, PartialEq, Eq)]
pub enum SyntaxFault {
    /// The entry is not a mapping.
    NotMapping,
    /// It has fields the table does not know.
    UnknownFields(Vec<String>),
    /// A required field is missing (or empty).
    MissingField(&'static str),
    /// `seq` is missing, or not an integer from 1 up.
    BadSeq,
    /// A field is written, but with a value of the wrong type.
    BadType(&'static str),
}

/// The view of a [`SyntaxFault`].
pub enum SyntaxFaultModel {
    NotMapping,
    UnknownFields(Seq<Seq<char>>),
    MissingField(Seq<char>),
    BadSeq,
    BadType(Seq<char>),
}

impl View for SyntaxFault {
    type V = SyntaxFaultModel;

    open spec fn view(&self) -> SyntaxFaultModel {
        match self {
            SyntaxFault::NotMapping => SyntaxFaultModel::NotMapping,
            SyntaxFault::UnknownFields(u) => SyntaxFaultModel::UnknownFields(u.deep_view()),
            SyntaxFault::MissingField(name) => SyntaxFaultModel::MissingField(name@),
            SyntaxFault::BadSeq => SyntaxFaultModel::BadSeq,
            SyntaxFault::BadType(name) => SyntaxFaultModel::BadType(name@),
        }
    }
}

/// The names of the fields a record knows.
pub open spec fn record_fields() -> Seq<Seq<char>> {
    seq!["id"@, "seq"@, "created_at"@, "order_id"@, "step_id"@, "description"@, "is_succeeded"@]
}

/// `key` is written, with something other than a string.
pub open spec fn not_text(n: Node, key: Seq<char>) -> bool {
    match get(n, key) {
        Some(v) => as_str(v) is None,
        None => false,
    }
}

/// `key` is written, with something other than a boolean.
pub open spec fn not_flag(n: Node, key: Seq<char>) -> bool {
    match get(n, key) {
        Some(v) => as_bool(v) is None,
        None => false,
    }
}

/// `seq` is an integer from 1 up.
pub open spec fn good_seq(n: Node) -> bool {
    match get(n, "seq"@) {
        Some(v) => match as_u64(v) {
            Some(u) => u >= 1,
            None => false,
        },
        None => false,
    }
}

/// The first fault of an entry, checked in this order: not a mapping; fields
/// the table does not know; `id`, `created_at`, `order_id`, `step_id` missing
/// or empty; a bad `seq`; a `description` that is not text; an
/// `is_succeeded` that is not a boolean. `None` when it is well written.
pub open spec fn record_fault(n: Node) -> Option<SyntaxFaultModel> {
    match as_mapping(n) {
        None => Some(SyntaxFaultModel::NotMapping),
        Some(entries) => {
            let unknown = unknown_keys(entries, record_fields());
            if unknown.len() > 0 {
                Some(SyntaxFaultModel::UnknownFields(unknown))
            } else if field_text(n, "id"@).len() == 0 {
                Some(SyntaxFaultModel::MissingField("id"@))
            } else if field_text(n, "created_at"@).len() == 0 {
                Some(SyntaxFaultModel::MissingField("created_at"@))
            } else if field_text(n, "order_id"@).len() == 0 {
                Some(SyntaxFaultModel::MissingField("order_id"@))
            } else if field_text(n, "step_id"@).len() == 0 {
                Some(SyntaxFaultModel::MissingField("step_id"@))
            } else if !good_seq(n) {
                Some(SyntaxFaultModel::BadSeq)
            } else if not_text(n, "description"@) {
                Some(SyntaxFaultModel::BadType("description"@))
            } else if not_flag(n, "is_succeeded"@) {
                Some(SyntaxFaultModel::BadType("is_succeeded"@))
            } else {
                None
            }
        },
    }
}

/// How a fault reads (the tail after `第 n 笔`).
pub open spec fn fault_words(f: SyntaxFaultModel) -> Seq<char> {
    match f {
        SyntaxFaultModel::NotMapping => "不是映射（工作记录是七个字段的账）"@,
        SyntaxFaultModel::UnknownFields(unknown) => "有不认识的字段："@ + join_with(unknown, "、"@)
            + "（只认 "@ + join_with(record_fields(), "、"@) + "）"@,
        SyntaxFaultModel::MissingField(name) => "少了 "@ + name,
        SyntaxFaultModel::BadSeq => "的 seq 缺了，或不是自 1 起的整数"@,
        SyntaxFaultModel::BadType(name) => "的 "@ + name + " 类型不对"@,
    }
}

impl WorkRecord {
    /// Reads a record from its fields without checking them; `seq` that is
    /// not a non-negative integer reads as 0, and `is_succeeded` that is not
    /// a boolean (or not written) as `false`.
    pub fn of(value: &Yaml) -> (r: WorkRecord)
        ensures
            r@ == record_from(value@),
    {
        let seq = match value.get("seq") {
            Some(v) => match v.as_u64() {
                Some(u) => u,
                None => 0,
            },
            None => 0,
        };
        let is_succeeded = match value.get("is_succeeded") {
            Some(v) => match v.as_bool() {
                Some(b) => b,
                None => false,
            },
            None => false,
        };
        WorkRecord {
            id: text_of(value, "id"),
            seq,
            created_at: text_of(value, "created_at"),
            order_id: text_of(value, "order_id"),
            step_id: text_of(value, "step_id"),
            description: text_of(value, "description"),
            is_succeeded,
        }
    }

    /// Written back in the ledger's shape: all seven fields, nothing else.
    pub fn to_yaml(&self) -> (r: Yaml)
        ensures
            r@ == record_node(self@),
    {
        let mut entries: Vec<(Yaml, Yaml)> = Vec::new();
        push_text_entry(&mut entries, "id", self.id.as_str());
        push_entry(&mut entries, "seq", Yaml::Number(Number::PosInt(self.seq)));
        push_text_entry(&mut entries, "created_at", self.created_at.as_str());
        push_text_entry(&mut entries, "order_id", self.order_id.as_str());
        push_text_entry(&mut entries, "step_id", self.step_id.as_str());
        push_text_entry(&mut entries, "description", self.description.as_str());
        push_entry(&mut entries, "is_succeeded", Yaml::Bool(self.is_succeeded));
        assert(entries_model(entries@) =~= match record_node(self@) {
            Node::Mapping(e) => e,
            _ => Seq::empty(),
        });
        Yaml::Mapping(entries)
    }
}

impl SyntaxFault {
    /// How the fault reads, as the tail after `第 n 笔`.
    pub fn text(&self) -> (r: String)
        ensures
            r@ == fault_words(self@),
    {
        match self {
            SyntaxFault::NotMapping => String::from_str("不是映射（工作记录是七个字段的账）"),
            SyntaxFault::UnknownFields(unknown) => {
                let mut names: Vec<Vec<char>> = Vec::new();
                let mut i: usize = 0;
                while i < unknown.len()
                    invariant
                        i <= unknown.len(),
                        names.deep_view() == unknown.deep_view().take(i as int),
                    decreases unknown.len() - i,
                {
                    let c = chars_of(unknown[i].as_str());
                    assert(c.deep_view() =~= c@);
                    let ghost before = names.deep_view();
                    names.push(c);
                    assert(names.deep_view() =~= before.push(unknown@[i as int]@));
                    assert(unknown.deep_view().take(i + 1) =~= unknown.deep_view().take(
                        i as int,
                    ).push(unknown@[i as int]@));
                    i += 1;
                }
                assert(unknown.deep_view().take(unknown.len() as int) =~= unknown.deep_view());
                let mut table: Vec<Vec<char>> = Vec::new();
                let mut k: usize = 0;
                while k < RECORD_FIELDS.len()
                    invariant
                        k <= RECORD_FIELDS.len(),
                        table.deep_view() == RECORD_FIELDS@.map_values(|s: &str| s@).take(k as int),
                    decreases RECORD_FIELDS.len() - k,
                {
                    let c = chars_of(RECORD_FIELDS[k]);
                    assert(c.deep_view() =~= c@);
                    let ghost before = table.deep_view();
                    table.push(c);
                    assert(table.deep_view() =~= before.push(RECORD_FIELDS@[k as int]@));
                    k += 1;
                }
                proof {
                    lemma_record_fields();
                }
                assert(RECORD_FIELDS@.map_values(|s: &str| s@).take(7) =~= record_fields());
                let mut out = chars_of("有不认识的字段：");
                let listed = join_chars(&names, "、");
                push_chars(&mut out, &listed);
                push_str(&mut out, "（只认 ");
                let all = join_chars(&table, "、");
                push_chars(&mut out, &all);
                push_str(&mut out, "）");
                string_of(&out)
            },
            SyntaxFault::MissingField(name) => {
                let mut out = chars_of("少了 ");
                push_str(&mut out, name);
                string_of(&out)
            },
            SyntaxFault::BadSeq => String::from_str("的 seq 缺了，或不是自 1 起的整数"),
            SyntaxFault::BadType(name) => {
                let mut out = chars_of("的 ");
                push_str(&mut out, name);
                push_str(&mut out, " 类型不对");
                string_of(&out)
            },
        }
    }
}

/// The field table, element by element.
proof fn lemma_record_fields()
    ensures
        RECORD_FIELDS@.map_values(|s: &str| s@) =~= record_fields(),
{
    let m = RECORD_FIELDS@.map_values(|s: &str| s@);
    let r = record_fields();
    assert(m.len() == 7);
    assert(m[0] == r[0]);
    assert(m[1] == r[1]);
    assert(m[2] == r[2]);
    assert(m[3] == r[3]);
    assert(m[4] == r[4]);
    assert(m[5] == r[5]);
    assert(m[6] == r[6]);
}

/// Whether a required text field is missing or empty.
fn missing(value: &Yaml, name: &str) -> (b: bool)
    ensures
        b == (field_text(value@, name@).len() == 0),
{
    let t = text_of(value, name);
    chars_of(t.as_str()).len() == 0
}

/// Checks how an entry is written: not a mapping, fields the table does not
/// know, required fields missing, values of the wrong type are refused, the
/// first found in that order. Well written is not the same as fitting the
/// ledger — that is checked against the ledger.
pub fn validate(value: &Yaml) -> (r: Result<(), SyntaxFault>)
    ensures
        match r {
            Ok(_) => record_fault(value@) is None,
            Err(f) => record_fault(value@) == Some(f@),
        },
{
    let entries = match value.as_mapping() {
        Some(entries) => entries,
        None => return Err(SyntaxFault::NotMapping),
    };
    let table: &[&str] = &RECORD_FIELDS;
    let unknown = unknown_fields(entries, table);
    proof {
        lemma_record_fields();
        assert(table.deep_view().len() == 7);
        assert forall|i: int| 0 <= i < 7 implies table.deep_view()[i] == record_fields()[i] by {
            assert(table.deep_view()[i] == table@[i]@);
            assert(RECORD_FIELDS@.map_values(|s: &str| s@)[i] == RECORD_FIELDS@[i]@);
        }
        assert(table.deep_view() =~= record_fields());
    }
    if unknown.len() > 0 {
        return Err(SyntaxFault::UnknownFields(unknown));
    }
    if missing(value, "id") {
        return Err(SyntaxFault::MissingField("id"));
    }
    if missing(value, "created_at") {
        return Err(SyntaxFault::MissingField("created_at"));
    }
    if missing(value, "order_id") {
        return Err(SyntaxFault::MissingField("order_id"));
    }
    if missing(value, "step_id") {
        return Err(SyntaxFault::MissingField("step_id"));
    }
    let seq_ok = match value.get("seq") {
        Some(v) => match v.as_u64() {
            Some(u) => u >= 1,
            None => false,
        },
        None => false,
    };
    if !seq_ok {
        return Err(SyntaxFault::BadSeq);
    }
    let bad_text = match value.get("description") {
        Some(v) => v.as_str().is_none(),
        None => false,
    };
    if bad_text {
        return Err(SyntaxFault::BadType("description"));
    }
    let bad_flag = match value.get("is_succeeded") {
        Some(v) => v.as_bool().is_none(),
        None => false,
    };
    if bad_flag {
        return Err(SyntaxFault::BadType("is_succeeded"));
    }
    Ok(())
}

/// The seven field names, told apart.
proof fn lemma_record_names()
    ensures
        "id"@.len() == 2,
        "seq"@.len() == 3,
        "created_at"@.len() == 10,
        "order_id"@.len() == 8,
        "step_id"@.len() == 7,
        "description"@.len() == 11,
        "is_succeeded"@.len() == 12,
{
    reveal_strlit("id");
    reveal_strlit("seq");
    reveal_strlit("created_at");
    reveal_strlit("order_id");
    reveal_strlit("step_id");
    reveal_strlit("description");
    reveal_strlit("is_succeeded");
}

/// Text fields that read back as written: trimmed.
pub open spec fn reads_back(r: WorkRecordModel) -> bool {
    trimmed(r.id) && trimmed(r.created_at) && trimmed(r.order_id) && trimmed(r.step_id)
        && trimmed(r.description)
}

/// Writing a record out and reading it back gives the same record, provided
/// its text fields are trimmed (reading trims them).
pub proof fn law_record_round_trip(r: WorkRecordModel)
    requires
        reads_back(r),
    ensures
        record_from(record_node(r)) == r,
{
    lemma_record_names();
    reveal_with_fuel(lookup, 8);
    let n = record_node(r);
    assert(field_text(n, "id"@) == r.id);
    assert(field_text(n, "created_at"@) == r.created_at);
    assert(field_text(n, "order_id"@) == r.order_id);
    assert(field_text(n, "step_id"@) == r.step_id);
    assert(field_text(n, "description"@) == r.description);
    assert(seq_from(n) == r.seq);
    assert(succeeded_from(n) == r.is_succeeded);
}

/// A record written out keeps the syntax, provided its four required text
/// fields are written (non-empty once trimmed) and its page is from 1 up.
pub proof fn law_written_record_is_well_formed(r: WorkRecordModel)
    requires
        trim(r.id).len() > 0,
        trim(r.created_at).len() > 0,
        trim(r.order_id).len() > 0,
        trim(r.step_id).len() > 0,
        r.seq >= 1,
    ensures
        record_fault(record_node(r)) is None,
{
    lemma_record_names();
    reveal_with_fuel(lookup, 8);
    reveal_with_fuel(unknown_keys, 8);
    let n = record_node(r);
    let entries = match n {
        Node::Mapping(e) => e,
        _ => Seq::empty(),
    };
    let names = record_fields();
    assert(names[0] == "id"@);
    assert(names[1] == "seq"@);
    assert(names[2] == "created_at"@);
    assert(names[3] == "order_id"@);
    assert(names[4] == "step_id"@);
    assert(names[5] == "description"@);
    assert(names[6] == "is_succeeded"@);
    assert(entries.skip(7) =~= Seq::<(Node, Node)>::empty());
    assert(unknown_keys(entries, names) =~= Seq::<Seq<char>>::empty()) by {
        assert(entries.drop_first() =~= entries.skip(1));
        assert(entries.skip(1).drop_first() =~= entries.skip(2));
        assert(entries.skip(2).drop_first() =~= entries.skip(3));
        assert(entries.skip(3).drop_first() =~= entries.skip(4));
        assert(entries.skip(4).drop_first() =~= entries.skip(5));
        assert(entries.skip(5).drop_first() =~= entries.skip(6));
        assert(entries.skip(6).drop_first() =~= entries.skip(7));
    }
    assert(field_text(n, "id"@) == trim(r.id));
    assert(field_text(n, "created_at"@) == trim(r.created_at));
    assert(field_text(n, "order_id"@) == trim(r.order_id));
    assert(field_text(n, "step_id"@) == trim(r.step_id));
    assert(good_seq(n));
    assert(!not_text(n, "description"@));
    assert(!not_flag(n, "is_succeeded"@));
}

} // verus!
