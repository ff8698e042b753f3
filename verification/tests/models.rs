//! Models and criteria: the executor values, how a criterion is read and
//! written, what of it is run, and the outcome's constructors.

use quanttide_work::criterion::{Criterion, RuleItem, RuleKind, criterion_of, items_of, read_criterion};
use quanttide_work::executor::{AGENT, CRITERION_TYPES, EXECUTORS, HUMAN, RULE};
use quanttide_work::outcome::Outcome;
use quanttide_work::yaml::{Number, Yaml};

fn s(text: &str) -> Yaml {
    Yaml::String(text.to_string())
}

fn n(value: i64) -> Yaml {
    if value >= 0 {
        Yaml::Number(Number::PosInt(value as u64))
    } else {
        Yaml::Number(Number::NegInt(value))
    }
}

/// A mapping with its keys in sorted order, as a JSON object is held.
fn obj(entries: Vec<(&str, Yaml)>) -> Yaml {
    let mut entries = entries;
    entries.sort_by(|a, b| a.0.cmp(b.0));
    Yaml::Mapping(entries.into_iter().map(|(k, v)| (s(k), v)).collect())
}

/// Reads a well-formed criterion, as the first criterion of the first step.
fn read(value: Yaml) -> Criterion {
    read_criterion(&value, 1, 1).expect("a well-formed criterion")
}

/// Reads a criterion and returns the error it gives.
fn read_err(value: Yaml) -> String {
    read_criterion(&value, 1, 1).expect_err("should be refused").message("demo.yaml")
}

fn text_at<'a>(value: &'a Yaml, key: &str) -> Option<&'a str> {
    value.get(key).and_then(|v| v.as_str()).map(|t| t.as_str())
}

#[test]
fn executor_constants_are_the_three_fixed_values() {
    assert_eq!(AGENT, "agent");
    assert_eq!(RULE, "rule");
    assert_eq!(HUMAN, "human");
}

#[test]
fn step_executors_leave_rule_out_criteria_allow_it() {
    assert_eq!(EXECUTORS, [AGENT, HUMAN]);
    assert!(!EXECUTORS.contains(&RULE), "a step is done by an agent or a human");
    assert_eq!(CRITERION_TYPES, [RULE, AGENT, HUMAN]);
}

fn every_kind() -> Vec<Criterion> {
    vec![
        read(obj(vec![("executor", s("rule")), ("path", s("docs/index.md"))])),
        read(obj(vec![("executor", s("rule")), ("absent", s("docs/gone.md"))])),
        read(obj(vec![
            ("executor", s("rule")),
            ("file", s("docs/index.md")),
            ("contains", s("第二大脑")),
        ])),
        read(obj(vec![("executor", s("rule")), ("run", s("test -f docs/index.md"))])),
        Criterion::AgentJudgement { description: "写干净了".into() },
        Criterion::HumanGate { description: "人拍板".into() },
    ]
}

#[test]
fn criterion_executor_follows_the_judge() {
    let got: Vec<&str> = every_kind().iter().map(Criterion::executor).collect();
    assert_eq!(got, vec![RULE, RULE, RULE, RULE, AGENT, HUMAN]);
}

#[test]
fn criterion_description_is_what_was_written() {
    let criterion = read(obj(vec![
        ("executor", s("rule")),
        ("path", s("x")),
        ("description", s(" 我写的 ")),
    ]));
    assert_eq!(criterion.description(), "我写的", "white space at both ends goes on reading");
}

#[test]
fn criterion_text_falls_back_to_the_judgement() {
    assert_eq!(
        read(obj(vec![("executor", s("rule")), ("path", s("docs/index.md"))])).text(),
        "存在：docs/index.md"
    );
    assert_eq!(
        read(obj(vec![("executor", s("rule")), ("absent", s("docs/gone.md"))])).text(),
        "不存在：docs/gone.md"
    );
    assert_eq!(
        read(obj(vec![
            ("executor", s("rule")),
            ("file", s("docs/index.md")),
            ("contains", s("第二大脑")),
        ]))
        .text(),
        "含「第二大脑」：docs/index.md"
    );
    assert_eq!(
        read(obj(vec![("executor", s("rule")), ("run", s("test -f a"))])).text(),
        "跑通：test -f a"
    );
    assert_eq!(
        Criterion::AgentJudgement { description: String::new() }.text(),
        "",
        "an agent criterion without a description reads empty"
    );
    assert_eq!(Criterion::HumanGate { description: String::new() }.text(), "");
}

#[test]
fn criterion_text_prefers_the_written_description() {
    let criterion = read(obj(vec![
        ("executor", s("rule")),
        ("path", s("x")),
        ("description", s("我写的")),
    ]));
    assert_eq!(criterion.text(), "我写的");
}

#[test]
fn to_yaml_writes_the_definition_shape() {
    let yaml = read(obj(vec![("executor", s("rule")), ("path", s("docs/index.md"))])).to_yaml();
    assert_eq!(text_at(&yaml, "executor"), Some(RULE));
    assert_eq!(text_at(&yaml, "path"), Some("docs/index.md"));
    assert!(yaml.get("description").is_none(), "no description written, no description key");
}

#[test]
fn to_yaml_roundtrips_every_kind() {
    for criterion in every_kind() {
        assert_eq!(criterion_of(&criterion.to_yaml()), criterion, "{criterion:?} reads back differently");
    }
}

#[test]
fn to_yaml_keeps_written_descriptions_for_rule_kinds() {
    let cases = [
        obj(vec![("executor", s("rule")), ("path", s("x")), ("description", s("存在就行"))]),
        obj(vec![("executor", s("rule")), ("absent", s("x")), ("description", s("别出现"))]),
        obj(vec![("executor", s("rule")), ("run", s("true")), ("description", s("命令过"))]),
    ];
    for value in cases {
        let criterion = read(value);
        let written = criterion.to_yaml();
        assert_eq!(
            text_at(&written, "description"),
            Some(criterion.description()),
            "{criterion:?} keeps its description"
        );
        assert_eq!(criterion_of(&written), criterion);
    }
}

#[test]
fn expanded_only_calls_out_for_placeholders() {
    let plain = Criterion::PathExists { path: "docs/index.md".into(), description: String::new() };
    let calls = std::cell::Cell::new(0);
    let same = plain.expanded(|_| {
        calls.set(calls.get() + 1);
        String::new()
    });
    assert_eq!(same, plain);
    assert_eq!(calls.get(), 0, "no field holds a placeholder, so nothing is expanded");
}

#[test]
fn expanded_replaces_every_field_with_placeholders() {
    let expand = |value: &str| value.replace("{{report}}", "/d/artifacts/report").replace("{{name}}", "甲");
    let cases = [
        (
            Criterion::PathExists { path: "{{report}}/x.md".into(), description: "看{{name}}".into() },
            Criterion::PathExists { path: "/d/artifacts/report/x.md".into(), description: "看甲".into() },
        ),
        (
            Criterion::PathAbsent { absent: "{{report}}/gone.md".into(), description: String::new() },
            Criterion::PathAbsent {
                absent: "/d/artifacts/report/gone.md".into(),
                description: String::new(),
            },
        ),
        (
            Criterion::FileContains {
                file: "{{report}}/x.md".into(),
                contains: "{{name}}".into(),
                description: String::new(),
            },
            Criterion::FileContains {
                file: "/d/artifacts/report/x.md".into(),
                contains: "甲".into(),
                description: String::new(),
            },
        ),
        (
            Criterion::CommandRun { run: "cat {{report}}".into(), description: String::new() },
            Criterion::CommandRun { run: "cat /d/artifacts/report".into(), description: String::new() },
        ),
        (
            Criterion::AgentJudgement { description: "{{name}}写干净了".into() },
            Criterion::AgentJudgement { description: "甲写干净了".into() },
        ),
        (
            Criterion::HumanGate { description: "{{name}}拍板".into() },
            Criterion::HumanGate { description: "甲拍板".into() },
        ),
    ];
    for (input, want) in cases {
        assert_eq!(input.expanded(expand), want);
    }
}

#[test]
fn read_criterion_kinds_are_recognized() {
    assert_eq!(
        every_kind(),
        vec![
            Criterion::PathExists { path: "docs/index.md".into(), description: String::new() },
            Criterion::PathAbsent { absent: "docs/gone.md".into(), description: String::new() },
            Criterion::FileContains {
                file: "docs/index.md".into(),
                contains: "第二大脑".into(),
                description: String::new(),
            },
            Criterion::CommandRun { run: "test -f docs/index.md".into(), description: String::new() },
            Criterion::AgentJudgement { description: "写干净了".into() },
            Criterion::HumanGate { description: "人拍板".into() },
        ]
    );
}

#[test]
fn criterion_of_falls_back_to_a_command_run() {
    let bare = criterion_of(&obj(vec![("run", s("true"))]));
    assert_eq!(bare, Criterion::CommandRun { run: "true".into(), description: String::new() });
    let nothing = criterion_of(&obj(vec![]));
    assert_eq!(nothing, Criterion::CommandRun { run: String::new(), description: String::new() });
}

#[test]
fn read_rejects_an_unknown_executor() {
    assert_eq!(
        read_err(obj(vec![("executor", s("auto")), ("path", s("x"))])),
        "demo.yaml 第 1 个步骤第 1 条判据的 executor 只能是 rule / agent / human（谁判：规则引擎 / 智能体 / 人）"
    );
}

#[test]
fn read_rejects_a_value_that_is_not_a_mapping() {
    assert_eq!(read_err(s("裸字符串")), "demo.yaml 第 1 个步骤第 1 条判据不是映射");
}

#[test]
fn read_rejects_unknown_fields() {
    assert_eq!(
        read_err(obj(vec![("executor", s("rule")), ("path", s("x")), ("extra", n(1))])),
        "demo.yaml 第 1 个步骤第 1 条判据有不认识的字段：extra（只认 executor、description、path、absent、file、contains、run）"
    );
}

#[test]
fn read_rule_needs_a_way_to_judge() {
    assert_eq!(
        read_err(obj(vec![("executor", s("rule"))])),
        "demo.yaml 第 1 个步骤第 1 条判据是 rule，得写一条判法（path / absent / file+contains / run）"
    );
}

#[test]
fn read_contains_needs_file_and_file_needs_contains() {
    assert_eq!(
        read_err(obj(vec![("executor", s("rule")), ("contains", s("第二大脑"))])),
        "demo.yaml 第 1 个步骤第 1 条判据写了 contains，还得写 file"
    );
    assert_eq!(
        read_err(obj(vec![("executor", s("rule")), ("file", s("docs/index.md"))])),
        "demo.yaml 第 1 个步骤第 1 条判据写了 file，还得写 contains"
    );
}

#[test]
fn read_rule_takes_only_one_way_to_judge() {
    assert_eq!(
        read_err(obj(vec![("executor", s("rule")), ("path", s("a")), ("run", s("b"))])),
        "demo.yaml 第 1 个步骤第 1 条判据的判法只能一种：path / absent / file+contains / run"
    );
    assert_eq!(
        read_err(obj(vec![
            ("executor", s("rule")),
            ("path", s("a")),
            ("file", s("b")),
            ("contains", s("c")),
        ])),
        "demo.yaml 第 1 个步骤第 1 条判据的判法只能一种：path / absent / file+contains / run"
    );
}

#[test]
fn read_agent_needs_description_and_rejects_rule_fields() {
    assert_eq!(
        read_err(obj(vec![("executor", s("agent"))])),
        "demo.yaml 第 1 个步骤第 1 条判据是 agent，必须写 description（判准 / 要人拍板的事）"
    );
    assert_eq!(
        read_err(obj(vec![
            ("executor", s("agent")),
            ("description", s("写干净了")),
            ("run", s("true")),
        ])),
        "demo.yaml 第 1 个步骤第 1 条判据是 agent，不该带 run（那是 rule 的字段）"
    );
}

#[test]
fn read_human_needs_description_and_rejects_rule_fields() {
    assert_eq!(
        read_err(obj(vec![("executor", s("human"))])),
        "demo.yaml 第 1 个步骤第 1 条判据是 human，必须写 description（判准 / 要人拍板的事）"
    );
    assert_eq!(
        read_err(obj(vec![
            ("executor", s("human")),
            ("description", s("人拍板")),
            ("path", s("a")),
        ])),
        "demo.yaml 第 1 个步骤第 1 条判据是 human，不该带 path（那是 rule 的字段）"
    );
}

#[test]
fn items_of_rule_carries_kind_and_args() {
    let items = items_of(&[read(obj(vec![
        ("executor", s("rule")),
        ("file", s("a.md")),
        ("contains", s("第二大脑")),
    ]))]);
    assert_eq!(items.len(), 1);
    assert_eq!(items[0].description, "含「第二大脑」：a.md");
    assert_eq!(items[0].kind, Some(RuleKind::Contains));
    assert_eq!(items[0].args, vec!["a.md", "第二大脑"]);
    assert!(items[0].machine());
}

#[test]
fn items_of_agent_and_human_are_not_run_here() {
    for criterion in [
        Criterion::AgentJudgement { description: "写干净了".into() },
        Criterion::HumanGate { description: "人拍板".into() },
    ] {
        let items = items_of(&[criterion]);
        assert!(items[0].kind.is_none(), "no kind: nothing to run");
        assert!(items[0].args.is_empty());
        assert!(!items[0].machine());
    }
}

#[test]
fn items_of_keeps_the_order_and_names_every_kind() {
    let items = items_of(&[
        read(obj(vec![("executor", s("rule")), ("path", s("a"))])),
        read(obj(vec![("executor", s("rule")), ("absent", s("b"))])),
        read(obj(vec![("executor", s("rule")), ("run", s("c"))])),
    ]);
    let kinds: Vec<Option<RuleKind>> = items.into_iter().map(|item: RuleItem| item.kind).collect();
    assert_eq!(kinds, vec![Some(RuleKind::Path), Some(RuleKind::Absent), Some(RuleKind::Run)]);
}

#[test]
fn outcome_new_and_lines_start_empty_apart_from_the_lines() {
    let blank = Outcome::new(true);
    assert!(blank.ok);
    assert!(blank.lines.is_empty());
    assert!(blank.columns.is_empty());
    assert!(blank.rows.is_empty());
    assert!(blank.data.is_none());

    let failure = Outcome::lines(false, vec!["未找到：案例".into()]);
    assert!(!failure.ok);
    assert_eq!(failure.lines, vec!["未找到：案例"]);
    assert!(failure.data.is_none());
}

#[test]
fn outcome_with_first_prepends_to_the_lines() {
    let outcome = Outcome::lines(true, vec!["第二句".into()]).with_first("第一句".into());
    assert_eq!(outcome.lines, vec!["第一句", "第二句"]);
}

fn list(items: Vec<Yaml>) -> Yaml {
    Yaml::Sequence(items)
}

fn texts(items: &[&str]) -> Yaml {
    list(items.iter().map(|t| s(t)).collect())
}

#[test]
fn outcome_with_data_keeps_the_payload_and_hands_it_back_raw() {
    let payload = obj(vec![("payload", obj(vec![("name", s("x"))]))]);
    let outcome = Outcome::new(true).with_data(payload.copy());
    assert_eq!(outcome.data, Some(payload.copy()));
    assert_eq!(outcome.data_json(), payload, "the raw data comes back as handed in");
}

#[test]
fn outcome_without_data_hands_back_the_envelope() {
    let outcome = Outcome::lines(true, vec!["走过 2 步".into()]);
    assert_eq!(outcome.data_json(), outcome.to_json());
    assert_eq!(
        outcome.to_json(),
        obj(vec![("ok", Yaml::Bool(true)), ("lines", texts(&["走过 2 步"])), ("columns", list(vec![])), ("rows", list(vec![]))])
    );
    assert!(outcome.to_json().get("data").is_none(), "no data, no data key");
}

#[test]
fn outcome_results_carry_a_shared_table() {
    let outcome = Outcome {
        ok: true,
        lines: vec!["走过 2 步".into()],
        columns: vec!["步骤".into(), "状态".into()],
        rows: vec![vec!["甲".into(), "走过".into()]],
        data: None,
    };
    assert_eq!(
        outcome.to_json(),
        obj(vec![
            ("ok", Yaml::Bool(true)),
            ("lines", texts(&["走过 2 步"])),
            ("columns", texts(&["步骤", "状态"])),
            ("rows", list(vec![texts(&["甲", "走过"])])),
        ])
    );
}

#[test]
fn outcome_from_json_fills_missing_parts_empty() {
    let outcome = Outcome::from_json(&obj(vec![("ok", Yaml::Bool(true))]));
    assert!(outcome.ok);
    assert!(outcome.lines.is_empty());
    assert!(outcome.columns.is_empty());
    assert!(outcome.rows.is_empty());
    assert!(outcome.data.is_none());
    assert!(!Outcome::from_json(&obj(vec![])).ok, "no ok counts as false");
}

#[test]
fn outcome_from_json_treats_non_arrays_as_empty() {
    let outcome = Outcome::from_json(&obj(vec![("ok", Yaml::Bool(false)), ("lines", s("不是数组")), ("columns", n(7))]));
    assert!(outcome.lines.is_empty());
    assert!(outcome.columns.is_empty());
}

#[test]
fn outcome_from_json_stringifies_row_cells() {
    let outcome = Outcome::from_json(&obj(vec![(
        "rows",
        list(vec![list(vec![n(1), s("b"), Yaml::Null, Yaml::Bool(true), obj(vec![("k", n(1))])])]),
    )]));
    assert_eq!(outcome.rows, vec![vec!["1", "b", "null", "true", "{\"k\":1}"]]);
}

#[test]
fn outcome_roundtrips_through_json() {
    let envelope = obj(vec![
        ("ok", Yaml::Bool(true)),
        ("lines", texts(&["走过 2 步"])),
        ("columns", texts(&["步骤"])),
        ("rows", list(vec![texts(&["甲"])])),
        ("data", obj(vec![("payload", obj(vec![("name", s("x"))]))])),
    ]);
    assert_eq!(Outcome::from_json(&envelope).to_json(), envelope);
}

#[test]
fn outcome_from_json_writes_numbers_and_nesting_as_json_text() {
    let outcome = Outcome::from_json(&obj(vec![(
        "lines",
        list(vec![n(-3), list(vec![s("a"), Yaml::Bool(false)]), obj(vec![("b", Yaml::Null), ("a", n(2))])]),
    )]));
    assert_eq!(outcome.lines, vec!["-3", "[\"a\",false]", "{\"a\":2,\"b\":null}"]);
}

#[test]
fn rule_kind_names() {
    assert_eq!(RuleKind::Path.as_str(), "path");
    assert_eq!(RuleKind::Absent.as_str(), "absent");
    assert_eq!(RuleKind::Contains.as_str(), "contains");
    assert_eq!(RuleKind::Run.as_str(), "run");
}

#[test]
fn from_yaml_reads_as_criterion_of() {
    let value = obj(vec![("executor", s("rule")), ("absent", s(" gone.md "))]);
    assert_eq!(
        Criterion::from_yaml(&value),
        Criterion::PathAbsent { absent: "gone.md".into(), description: String::new() }
    );
}
