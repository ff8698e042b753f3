//! Work records: reading and writing an entry, its syntax, and the error of
//! a ledger line that cannot be read; and the two field readers.

use quanttide_work::fields::{RECORD_FIELDS, text_of, unknown_fields};
use quanttide_work::record::{RecordError, SyntaxFault, WorkRecord, validate};
use quanttide_work::yaml::{Number, Yaml};

fn s(text: &str) -> Yaml {
    Yaml::String(text.to_string())
}

fn num(value: i64) -> Yaml {
    if value >= 0 {
        Yaml::Number(Number::PosInt(value as u64))
    } else {
        Yaml::Number(Number::NegInt(value))
    }
}

fn list(items: Vec<Yaml>) -> Yaml {
    Yaml::Sequence(items)
}

/// A mapping with its keys in sorted order, as a JSON object is held.
fn obj(entries: Vec<(&str, Yaml)>) -> Yaml {
    let mut entries = entries;
    entries.sort_by(|a, b| a.0.cmp(b.0));
    Yaml::Mapping(entries.into_iter().map(|(k, v)| (s(k), v)).collect())
}

const REQUIRED_TEXT: [&str; 4] = ["id", "created_at", "order_id", "step_id"];

fn sample_entries() -> Vec<(&'static str, Yaml)> {
    vec![
        ("id", s("0f0e5b1a-9d0c-4c7e-8d1e-2b6a5f4e3d2c")),
        ("seq", num(1)),
        ("created_at", s("2026-02-11T10:00:00Z")),
        ("order_id", s("3b8a2c1d-4e5f-4a6b-8c9d-0e1f2a3b4c5d")),
        ("step_id", s("8c7d6e5f-4a3b-4c2d-9e1f-0a2b3c4d5e6f")),
        ("description", s("草拟了提纲")),
        ("is_succeeded", Yaml::Bool(true)),
    ]
}

fn sample() -> Yaml {
    obj(sample_entries())
}

/// The sample with one field removed.
fn without(name: &str) -> Yaml {
    obj(sample_entries().into_iter().filter(|(k, _)| *k != name).collect())
}

/// The sample with one field set (or added).
fn with(name: &'static str, value: Yaml) -> Yaml {
    let mut entries: Vec<(&str, Yaml)> = sample_entries().into_iter().filter(|(k, _)| *k != name).collect();
    entries.push((name, value));
    obj(entries)
}

#[test]
fn error_carries_ordinal_and_reason_only() {
    let error = RecordError::new(7, "不是合法的 JSON 行");
    assert_eq!(error.ordinal, 7);
    assert_eq!(error.reason, "不是合法的 JSON 行");
    assert_eq!(error.to_string(), "第 7 笔不是合法的 JSON 行");
    assert_eq!(format!("records.jsonl {}", error.to_string()), "records.jsonl 第 7 笔不是合法的 JSON 行");
}

#[test]
fn valid_record_round_trips() {
    let value = sample();
    validate(&value).expect("a valid entry");
    let record = WorkRecord::of(&value);
    assert_eq!(record.seq, 1);
    assert!(record.is_succeeded);
    let again = WorkRecord::of(&record.to_yaml());
    assert_eq!(record, again, "written and read again, the entry is the same");
}

#[test]
fn optional_fields_fill_in() {
    let bare = obj(sample_entries().into_iter().filter(|(k, _)| *k != "description" && *k != "is_succeeded").collect());
    validate(&bare).expect("the recommended fields may be left out");
    let record = WorkRecord::of(&bare);
    assert_eq!(record.description, "");
    assert!(!record.is_succeeded, "not written down as passed counts as not passed");
}

#[test]
fn unknown_fields_are_rejected() {
    let odd = with("step", s("草拟"));
    assert_eq!(
        validate(&odd),
        Err(SyntaxFault::UnknownFields(vec!["step".into()])),
        "the step's name is not written in the ledger; step_id is"
    );
}

#[test]
fn missing_required_is_rejected() {
    for name in REQUIRED_TEXT {
        assert_eq!(validate(&without(name)), Err(SyntaxFault::MissingField(name)), "missing {name} is refused");
    }
}

#[test]
fn bad_values_are_rejected() {
    for seq in [num(0), num(-1), s("1")] {
        assert_eq!(validate(&with("seq", seq)), Err(SyntaxFault::BadSeq));
    }
    assert_eq!(validate(&with("is_succeeded", s("yes"))), Err(SyntaxFault::BadType("is_succeeded")));
    assert_eq!(validate(&with("description", num(3))), Err(SyntaxFault::BadType("description")));
}

#[test]
fn not_a_mapping_is_rejected() {
    assert_eq!(validate(&list(vec![s("a"), s("b")])), Err(SyntaxFault::NotMapping));
}

#[test]
fn a_missing_seq_is_a_bad_seq() {
    assert_eq!(validate(&without("seq")), Err(SyntaxFault::BadSeq));
    assert_eq!(WorkRecord::of(&without("seq")).seq, 0);
}

#[test]
fn blank_required_text_counts_as_missing() {
    assert_eq!(validate(&with("id", s("   "))), Err(SyntaxFault::MissingField("id")));
}

#[test]
fn fault_texts() {
    assert_eq!(SyntaxFault::NotMapping.text(), "不是映射（工作记录是七个字段的账）");
    assert_eq!(
        SyntaxFault::UnknownFields(vec!["step".into(), "page".into()]).text(),
        "有不认识的字段：step、page（只认 id、seq、created_at、order_id、step_id、description、is_succeeded）"
    );
    assert_eq!(SyntaxFault::MissingField("id").text(), "少了 id");
    assert_eq!(SyntaxFault::BadSeq.text(), "的 seq 缺了，或不是自 1 起的整数");
    assert_eq!(SyntaxFault::BadType("description").text(), "的 description 类型不对");
    assert_eq!(RECORD_FIELDS.len(), 7);
}

#[test]
fn text_of_trims_and_ignores_non_strings() {
    let value = obj(vec![("name", s("  demo  ")), ("count", num(3)), ("flag", Yaml::Bool(true))]);
    assert_eq!(text_of(&value, "name"), "demo");
    assert_eq!(text_of(&value, "count"), "", "a number is not a string");
    assert_eq!(text_of(&value, "flag"), "");
    assert_eq!(text_of(&value, "missing"), "");
}

#[test]
fn unknown_fields_names_the_odd_ones() {
    let mapping = vec![(s("name"), s("x")), (s("extra"), Yaml::Bool(true)), (num(1), Yaml::Null)];
    assert_eq!(unknown_fields(&mapping, &["name"]), vec!["extra"]);
    assert!(unknown_fields(&mapping, &["name", "extra"]).is_empty());
}
