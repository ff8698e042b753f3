//! Workflows: reading and writing the model, checking a whole definition,
//! and checking a definition against the workspace.

use quanttide_work::error::{DefinitionError, Fault, Position};
use quanttide_work::executor::AGENT;
use quanttide_work::workflow::{Finding, Step, Workflow, all_ok, check, describe, looks_like_section, validate};
use quanttide_work::yaml::{Number, Yaml};

fn s(text: &str) -> Yaml {
    Yaml::String(text.to_string())
}

fn n(value: u64) -> Yaml {
    Yaml::Number(Number::PosInt(value))
}

fn list(items: Vec<Yaml>) -> Yaml {
    Yaml::Sequence(items)
}

/// A mapping with its keys in sorted order, as a JSON object is held.
fn obj(entries: Vec<(&str, Yaml)>) -> Yaml {
    let mut entries = entries;
    entries.sort_by(|a, b| a.0.cmp(b.0));
    Yaml::Mapping(entries.into_iter().map(|(k, v)| (s(k), v)).collect())
}

fn validate_err(value: Yaml, file: &str) -> String {
    validate(&value).expect_err("should be refused").message(file)
}

fn section_ok(findings: &[Finding], name: &str) -> Option<bool> {
    findings.iter().find(|finding| finding.what.ends_with(name)).map(|finding| finding.ok)
}

fn text_at<'a>(value: &'a Yaml, key: &str) -> Option<&'a str> {
    value.get(key).and_then(|v| v.as_str()).map(|t| t.as_str())
}

fn rule(key: &str, value: &str) -> Yaml {
    obj(vec![("executor", s("rule")), (key, s(value))])
}

#[test]
fn definition_error_shows_its_message() {
    let error = DefinitionError::new(Position::Top, Fault::MissingName);
    assert_eq!(error.message("demo.yaml"), "demo.yaml 少了 name");
    assert_eq!(error.to_string(), "少了 name");
}

#[test]
fn validate_reads_a_well_formed_definition() {
    let workflow = Workflow::from_value(&obj(vec![
        ("name", s("demo")),
        ("description", s("走一遍给我看")),
        (
            "steps",
            list(vec![
                obj(vec![("name", s("甲")), ("executor", s("agent"))]),
                obj(vec![("name", s("乙")), ("executor", s("human"))]),
            ]),
        ),
    ]))
    .expect("a well-formed definition");
    assert_eq!(workflow.name, "demo");
    assert_eq!(workflow.step_names(), vec!["甲", "乙"]);
}

#[test]
fn validate_rejects_a_non_mapping_top() {
    assert_eq!(validate_err(list(vec![s("不是映射")]), "demo.yaml"), "demo.yaml 的顶层不是映射（name / steps）");
}

#[test]
fn validate_rejects_a_missing_name() {
    assert_eq!(
        validate_err(obj(vec![("steps", list(vec![obj(vec![("name", s("甲"))])]))]), "demo.yaml"),
        "demo.yaml 少了 name"
    );
}

#[test]
fn validate_rejects_missing_or_empty_steps() {
    assert_eq!(validate_err(obj(vec![("name", s("x"))]), "demo.yaml"), "demo.yaml 少了 steps（至少一个步骤）");
    assert_eq!(
        validate_err(obj(vec![("name", s("x")), ("steps", list(vec![]))]), "demo.yaml"),
        "demo.yaml 少了 steps（至少一个步骤）"
    );
    assert_eq!(
        validate_err(obj(vec![("name", s("x")), ("steps", s("不是列表"))]), "demo.yaml"),
        "demo.yaml 少了 steps（至少一个步骤）"
    );
}

#[test]
fn validate_rejects_unknown_top_fields() {
    assert_eq!(
        validate_err(
            obj(vec![
                ("name", s("x")),
                ("version", n(2)),
                ("steps", list(vec![obj(vec![("name", s("甲"))])])),
            ]),
            "demo.yaml"
        ),
        "demo.yaml 顶层有不认识的字段：version（只认 name、description、steps）"
    );
}

#[test]
fn validate_rejects_a_step_that_is_not_a_mapping() {
    assert_eq!(
        validate_err(obj(vec![("name", s("x")), ("steps", list(vec![s("甲")]))]), "demo.yaml"),
        "demo.yaml 第 1 个步骤少了 name"
    );
}

#[test]
fn validate_rejects_a_step_without_a_name() {
    assert_eq!(
        validate_err(
            obj(vec![("name", s("x")), ("steps", list(vec![obj(vec![("executor", s("agent"))])]))]),
            "demo.yaml"
        ),
        "demo.yaml 第 1 个步骤少了 name"
    );
}

#[test]
fn validate_rejects_unknown_step_fields() {
    assert_eq!(
        validate_err(
            obj(vec![("name", s("x")), ("steps", list(vec![obj(vec![("name", s("甲")), ("foo", n(1))])]))]),
            "demo.yaml"
        ),
        "demo.yaml 第 1 个步骤有不认识的字段：foo（只认 name、description、executor、criteria）"
    );
}

#[test]
fn validate_rejects_an_out_of_range_step_executor() {
    assert_eq!(
        validate_err(
            obj(vec![
                ("name", s("x")),
                ("steps", list(vec![obj(vec![("name", s("甲")), ("executor", s("auto"))])])),
            ]),
            "demo.yaml"
        ),
        "demo.yaml 第 1 个步骤的 executor 只能是 agent 或 human，实得 auto"
    );
}

#[test]
fn validate_rejects_criteria_that_are_not_a_list() {
    assert_eq!(
        validate_err(
            obj(vec![
                ("name", s("x")),
                ("steps", list(vec![obj(vec![("name", s("甲")), ("criteria", s("不是列表"))])])),
            ]),
            "demo.yaml"
        ),
        "demo.yaml 第 1 个步骤的 criteria 应当是列表"
    );
}

#[test]
fn validate_points_at_the_offending_step_and_criterion() {
    assert_eq!(
        validate_err(
            obj(vec![
                ("name", s("x")),
                (
                    "steps",
                    list(vec![
                        obj(vec![("name", s("甲"))]),
                        obj(vec![
                            ("name", s("乙")),
                            ("criteria", list(vec![rule("path", "a"), obj(vec![("executor", s("rule"))])])),
                        ]),
                    ]),
                ),
            ]),
            "demo.yaml"
        ),
        "demo.yaml 第 2 个步骤第 2 条判据是 rule，得写一条判法（path / absent / file+contains / run）"
    );
}

#[test]
fn step_from_value_defaults_executor_and_empty_criteria() {
    let step = Step::from_value(&obj(vec![("name", s("甲"))]), 1).expect("a well-formed step");
    assert_eq!(step.executor(), AGENT);
    assert!(step.criteria().is_empty());

    let explicit_null = Step::from_value(
        &obj(vec![("name", s("甲")), ("executor", s("human")), ("criteria", Yaml::Null)]),
        1,
    )
    .expect("null criteria are no criteria");
    assert!(explicit_null.human());
    assert!(explicit_null.criteria().is_empty());
}

#[test]
fn workflow_of_reads_fields_without_checking() {
    let payload = obj(vec![
        ("name", s("code-implement")),
        ("description", s("实现一段代码")),
        (
            "steps",
            list(vec![
                obj(vec![
                    ("name", s("大纲")),
                    ("description", s("列大纲")),
                    ("criteria", list(vec![rule("path", "outline.md")])),
                ]),
                obj(vec![("name", s("收尾")), ("executor", s("human"))]),
            ]),
        ),
    ]);
    let workflow = Workflow::of("code-implement.yaml", &payload);
    assert_eq!(workflow.name, "code-implement.yaml", "the caller gives the name");
    assert_eq!(workflow.description(), "实现一段代码");
    assert_eq!(workflow.step_names(), vec!["大纲", "收尾"]);
}

#[test]
fn workflow_step_and_steps_accessors() {
    let workflow = Workflow::from_value(&obj(vec![
        ("name", s("w")),
        (
            "steps",
            list(vec![
                obj(vec![("name", s("甲")), ("description", s("做甲"))]),
                obj(vec![("name", s("乙")), ("executor", s("human"))]),
            ]),
        ),
    ]))
    .expect("a well-formed definition");
    assert_eq!(workflow.steps().len(), 2);
    assert_eq!(workflow.step("甲").map(|step| step.description()), Some("做甲".into()));
    assert!(workflow.step("没有").is_none());
}

#[test]
fn step_groups_criteria_by_judge() {
    let step = Step::of(&obj(vec![
        ("name", s("甲")),
        (
            "criteria",
            list(vec![
                rule("path", "a"),
                obj(vec![("executor", s("agent")), ("description", s("写干净了"))]),
                obj(vec![("executor", s("human")), ("description", s("人拍板"))]),
            ]),
        ),
    ]));
    assert_eq!(step.executor(), AGENT, "no executor written: the agent");
    assert!(!step.human());
    assert_eq!(step.rules().len(), 1);
    assert_eq!(step.agents().len(), 1);
    assert_eq!(step.gates().len(), 1);
    assert_eq!(step.name(), "甲");
}

#[test]
fn step_of_without_executor_or_criteria_defaults() {
    let step = Step::of(&obj(vec![("name", s("甲"))]));
    assert_eq!(step.description(), "");
    assert_eq!(step.executor(), AGENT);
    assert!(step.criteria().is_empty());
}

#[test]
fn step_to_yaml_omits_empty_description_and_criteria() {
    let step = Step { name: "甲".into(), description: String::new(), executor: AGENT.into(), criteria: Vec::new() };
    let written = step.to_yaml();
    assert!(written.get("description").is_none());
    assert!(written.get("criteria").is_none());
    assert_eq!(text_at(&written, "executor"), Some(AGENT));
    assert_eq!(text_at(&written, "name"), Some("甲"));
}

#[test]
fn workflow_to_yaml_roundtrips() {
    let payload = obj(vec![
        ("name", s("code-implement")),
        ("description", s("实现一段代码")),
        (
            "steps",
            list(vec![
                obj(vec![
                    ("name", s("大纲")),
                    ("description", s("列大纲")),
                    (
                        "criteria",
                        list(vec![
                            rule("path", "outline.md"),
                            obj(vec![
                                ("executor", s("rule")),
                                ("file", s("report.md")),
                                ("contains", s("大纲")),
                                ("description", s("报告里有大纲")),
                            ]),
                        ]),
                    ),
                ]),
                obj(vec![
                    ("name", s("收尾")),
                    ("executor", s("human")),
                    ("criteria", list(vec![obj(vec![("executor", s("human")), ("description", s("人拍板"))])])),
                ]),
            ]),
        ),
    ]);
    let workflow = Workflow::from_value(&payload).expect("a well-formed definition");
    let back = Workflow::from_value(&workflow.to_yaml()).expect("still well formed when written back");
    assert_eq!(back, workflow);
}

#[test]
fn workflow_to_yaml_without_description_still_lists_steps() {
    let workflow = Workflow { name: "w".into(), description: String::new(), steps: Vec::new() };
    let written = workflow.to_yaml();
    assert!(written.get("description").is_none());
    assert_eq!(written.get("steps").and_then(|v| v.as_sequence()).map(Vec::len), Some(0));
}

#[test]
fn workflow_tests_looks_like_section_rejects_non_names() {
    assert!(looks_like_section("收尾"));
    assert!(!looks_like_section(""), "an empty name is not one");
    assert!(!looks_like_section("这是一个超过十二个字的报告小节名字"), "too long");
    for odd in ["<标题>", "a_b", "`代号`", "A>B"] {
        assert!(!looks_like_section(odd), "{odd} is not a section name");
    }
}

#[test]
fn workflow_tests_check_reports_paths_and_sections() {
    let workflow = Workflow::from_value(&obj(vec![
        ("name", s("code-implement")),
        (
            "steps",
            list(vec![obj(vec![
                ("name", s("甲")),
                ("description", s("交一份带 ## 收尾 的报告，并按「结论」一节写清楚")),
                (
                    "criteria",
                    list(vec![
                        rule("path", "/w/seen.md"),
                        obj(vec![("executor", s("rule")), ("file", s("report.md")), ("contains", s("收尾"))]),
                    ]),
                ),
            ])]),
        ),
    ]))
    .expect("a well-formed definition");

    let findings = workflow.check("/w", |path| path == "/w/seen.md");

    let path_finding = findings
        .iter()
        .find(|finding| finding.what.starts_with("判据里的路径在不在"))
        .expect("a path criterion gives a finding");
    assert_eq!(path_finding.where_, "甲·/w/seen.md");
    assert_eq!(path_finding.what, "判据里的路径在不在：/w/seen.md");
    assert!(path_finding.ok);

    assert_eq!(section_ok(&findings, "收尾"), Some(true), "contains covers 收尾");
    assert_eq!(section_ok(&findings, "结论"), Some(false), "nothing covers 结论");
}

#[test]
fn check_skips_placeholders_and_unchecked_kinds() {
    let workflow = Workflow::from_value(&obj(vec![
        ("name", s("w")),
        (
            "steps",
            list(vec![obj(vec![
                ("name", s("甲")),
                (
                    "criteria",
                    list(vec![
                        rule("path", "{{report}}/x.md"),
                        rule("path", "{{journal}}/y.md"),
                        rule("path", "{{log}}/z.yaml"),
                        rule("absent", "gone.md"),
                        rule("run", "true"),
                        obj(vec![("executor", s("agent")), ("description", s("写干净了"))]),
                        obj(vec![("executor", s("human")), ("description", s("人拍板"))]),
                    ]),
                ),
            ])]),
        ),
    ]))
    .expect("a well-formed definition");

    let findings = workflow.check("/d", |_| true);
    assert!(findings.is_empty(), "placeholder paths and unchecked kinds give no finding: {findings:?}");
}

#[test]
fn workflow_tests_check_dedupes_section_mentions_and_ignores_unclosed_ones() {
    let workflow = Workflow::from_value(&obj(vec![
        ("name", s("w")),
        (
            "steps",
            list(vec![obj(vec![
                ("name", s("甲")),
                ("description", s("先写「结论」节，再写「结论」两节，最后「收尾」一节；未闭合的「半句和 ## 版本")),
                (
                    "criteria",
                    list(vec![
                        rule("path", "a.md"),
                        obj(vec![("executor", s("rule")), ("file", s("b.md")), ("contains", s("结论"))]),
                    ]),
                ),
            ])]),
        ),
    ]))
    .expect("a well-formed definition");

    let findings = workflow.check("/d", |_| true);
    assert_eq!(section_ok(&findings, "结论"), Some(true));
    assert_eq!(section_ok(&findings, "收尾"), Some(false));
    assert_eq!(section_ok(&findings, "半句和"), None, "an unclosed bracket names nothing");
    assert_eq!(findings.iter().filter(|finding| finding.what.ends_with("结论")).count(), 1, "one finding per section");
}

#[test]
fn check_expands_artifacts_against_the_data_store() {
    let workflow = Workflow::from_value(&obj(vec![
        ("name", s("w")),
        ("steps", list(vec![obj(vec![("name", s("甲")), ("criteria", list(vec![rule("path", "{{artifacts}}/x.md")]))])])),
    ]))
    .expect("a well-formed definition");
    let findings = workflow.check("/d/", |path| path == "/d/artifacts/x.md");
    assert_eq!(findings.len(), 1);
    assert_eq!(findings[0].where_, "甲·{{artifacts}}/x.md");
    assert_eq!(findings[0].what, "判据里的路径在不在：/d/artifacts/x.md");
    assert!(findings[0].ok);
}

#[test]
fn describe_writes_a_line_per_finding() {
    let found = vec![
        Finding { where_: "甲·a.md".into(), what: "判据里的路径在不在：a.md".into(), ok: true },
        Finding { where_: "description".into(), what: "description 提到的报告小节有没有判据覆盖：结论".into(), ok: false },
    ];
    assert_eq!(
        describe(&found),
        vec![
            "核对 2 件事".to_string(),
            "  ✓ 甲·a.md——判据里的路径在不在：a.md".to_string(),
            "  ✗ description——description 提到的报告小节有没有判据覆盖：结论".to_string(),
        ]
    );
    assert!(!all_ok(&found));
    assert!(all_ok(&found[..1]));
    assert_eq!(describe(&[]), vec!["核对 0 件事".to_string(), "  （这条定义里没有可核对的路径与小节）".to_string()]);
    assert!(all_ok(&[]));
}

#[test]
fn the_free_check_is_the_method() {
    let workflow = Workflow::from_value(&obj(vec![
        ("name", s("w")),
        ("steps", list(vec![obj(vec![("name", s("甲")), ("criteria", list(vec![rule("path", "a.md")]))])])),
    ]))
    .expect("a well-formed definition");
    let found = check(&workflow, "/d", |_| false);
    assert_eq!(found.len(), 1);
    assert!(!found[0].ok);
    assert_eq!(found[0].what, "判据里的路径在不在：a.md");
}

#[test]
fn a_written_definition_reads_back_with_its_criteria_grouped() {
    let step = Step::of(&obj(vec![
        ("name", s("甲")),
        (
            "criteria",
            list(vec![
                rule("run", "true"),
                obj(vec![("executor", s("human")), ("description", s("人拍板"))]),
                rule("absent", "x"),
            ]),
        ),
    ]));
    assert_eq!(step.rules().len() + step.agents().len() + step.gates().len(), step.criteria().len());
    assert_eq!(Step::of(&step.to_yaml()), step);
}
