//! The examples of the user guide, run one by one, with the fixtures they
//! need (a workflow definition, task files, a run context).

use quanttide_work::criterion::{Criterion, RuleItem, RuleKind, criterion_of, items_of, read_criterion};
use quanttide_work::error::{DefinitionError, Fault, Position};
use quanttide_work::executor::{AGENT, CRITERION_TYPES, EXECUTORS, HUMAN, RULE};
use quanttide_work::outcome::Outcome;
use quanttide_work::paths::expand_placeholders;
use quanttide_work::task::{JournalEvent, RunContext, Task};
use quanttide_work::workflow::{Finding, Step, Workflow, looks_like_section, validate};
use quanttide_work::yaml::Yaml;

fn s(text: &str) -> Yaml {
    Yaml::String(text.to_string())
}

fn b(value: bool) -> Yaml {
    Yaml::Bool(value)
}

fn list(items: Vec<Yaml>) -> Yaml {
    Yaml::Sequence(items)
}

/// A mapping with its keys in sorted order, as a JSON object is held.
fn obj(entries: Vec<(&str, Yaml)>) -> Yaml {
    let mut entries = entries;
    entries.sort_by(|a, b| a.0.cmp(b.0));
    Yaml::Mapping(entries.into_iter().map(|(k, v)| (s(k), v)).collect())
}

fn code_implement() -> Workflow {
    Workflow::from_value(&obj(vec![
        ("name", s("code-implement")),
        ("description", s("实现一段代码")),
        (
            "steps",
            list(vec![
                obj(vec![("name", s("大纲")), ("executor", s("agent"))]),
                obj(vec![("name", s("收尾")), ("executor", s("human"))]),
            ]),
        ),
    ]))
    .expect("the fixture is well formed")
}

#[test]
fn doc_criterion_1() {
    let parsed: Criterion = criterion_of(&obj(vec![("executor", s("rule")), ("path", s("docs/index.md"))]));
    assert_eq!(parsed.text(), "存在：docs/index.md");
    let items: Vec<RuleItem> = items_of(&[parsed]);
    assert_eq!(items[0].kind, Some(RuleKind::Path));
    let checked = read_criterion(&obj(vec![("executor", s("rule")), ("path", s("docs/index.md"))]), 1, 1);
    assert!(checked.is_ok());
}

#[test]
fn doc_criterion_2() {
    let step = Step {
        name: "大纲".into(),
        description: String::new(),
        executor: AGENT.into(),
        criteria: vec![
            criterion_of(&obj(vec![("executor", s("rule")), ("path", s("outline.md"))])),
            criterion_of(&obj(vec![("executor", s("agent")), ("description", s("写干净了"))])),
        ],
    };
    let items = items_of(&step.rules());
    assert_eq!(items.len(), 1, "only the rule criterion is run");
    assert_eq!(items[0].description, "存在：outline.md");
    assert_eq!(items[0].kind, Some(RuleKind::Path));
}

#[test]
fn doc_executor_1() {
    assert_eq!([AGENT, RULE, HUMAN], ["agent", "rule", "human"]);
    assert_eq!(EXECUTORS, [AGENT, HUMAN]);
    assert_eq!(CRITERION_TYPES, [RULE, AGENT, HUMAN]);
}

#[test]
fn doc_executor_2() {
    let step = Step { name: "甲".into(), description: String::new(), executor: AGENT.into(), criteria: Vec::new() };
    let mut ran = false;
    if step.executor() == AGENT {
        ran = true;
    }
    assert!(ran, "an agent step goes to the agent");
}

#[test]
fn doc_outcome_1() {
    let outcome = Outcome::new(true);
    assert!(outcome.ok);
}

#[test]
fn doc_outcome_2() {
    let root = "/w";
    let result = Outcome::new(true).with_first(format!("工作区：{}", root));
    let failed = Outcome::lines(false, vec!["未找到：案例".into()]);
    assert_eq!(result.lines, vec!["工作区：/w"]);
    assert!(result.ok);
    assert!(!failed.ok);
    assert_eq!(failed.lines, vec!["未找到：案例"]);
}

#[test]
fn doc_outcome_3() {
    let value = obj(vec![("ok", b(true)), ("lines", list(vec![s("走过 2 步")]))]);
    let result = Outcome::from_json(&value);
    assert!(result.ok);
    assert_eq!(result.lines, vec!["走过 2 步"]);
    assert_eq!(
        result.to_json(),
        obj(vec![("ok", b(true)), ("lines", list(vec![s("走过 2 步")])), ("columns", list(vec![])), ("rows", list(vec![]))])
    );
}

#[test]
fn doc_task_1() {
    let task = Task::of("甲", &obj(vec![]));
    let _: Vec<JournalEvent> = task.journal.clone();
    let context = RunContext::default();
    assert_eq!(expand_placeholders("{{log}}", &context.data), "/tasks");
    assert_eq!(task.name, "甲");
}

#[test]
fn doc_task_2() {
    let workflow = code_implement();
    let task = Task::of(
        "甲",
        &obj(vec![
            ("workflow", s("code-implement")),
            (
                "log",
                list(vec![
                    obj(vec![("at", s("t1")), ("step", s("大纲")), ("detail", s("走了")), ("ok", b(true))]),
                    obj(vec![("at", s("t2")), ("step", s("大纲·审")), ("detail", s("审过")), ("ok", b(false))]),
                ]),
            ),
        ]),
    );
    let done = task.done_steps(&workflow);
    let next = task.next_step(&workflow);
    let line = task.state_line(&workflow);
    assert!(done.is_empty(), "the vote took 大纲 back");
    assert_eq!(next, Some("大纲".to_string()));
    assert_eq!(line, "下一步：大纲");
}

#[test]
fn doc_task_3() {
    let task = Task::of("甲", &obj(vec![("artifacts", obj(vec![("report", s("data/report/甲.md"))]))]));
    let payload = obj(vec![("root", s("/w")), ("data", s("/w/data")), ("workflows", s("/w/workflows"))]);
    let context = RunContext::of(&payload);
    let place = task.artifact("report", &context);
    let text = expand_placeholders("{{report}}/清单.md", &context.data);
    assert_eq!(context.workflows, "/w/workflows");
    assert_eq!(place, "/w/data/report/甲.md");
    assert_eq!(text, "/w/data/artifacts/report/清单.md");
}

#[test]
fn doc_task_4() {
    let task = Task::of("甲", &obj(vec![]));
    let after = task.recorded("2026-09-12", "outline", "走了一步", true);
    assert!(task.journal.is_empty(), "recorded hands back a new task; the original stays");
    let event = &after.journal[0];
    assert_eq!(
        (event.at.as_str(), event.step.as_str(), event.detail.as_str(), event.ok),
        ("2026-09-12", "outline", "走了一步", true)
    );
}

#[test]
fn doc_workflow_1() {
    assert!(looks_like_section("收尾"));
    assert!(validate(&obj(vec![("name", s("w")), ("steps", list(vec![obj(vec![("name", s("甲"))])]))])).is_ok());
    let error = DefinitionError::new(Position::Top, Fault::MissingName);
    assert_eq!(error.to_string(), "少了 name");
    let _: Option<Finding> = None;
    let step = Step { name: "甲".into(), description: String::new(), executor: AGENT.into(), criteria: Vec::new() };
    let workflow = Workflow::of("w.yaml", &obj(vec![("steps", list(vec![]))]));
    assert_eq!(workflow.steps().len(), 0);
    assert_eq!(step.name(), "甲");
}

#[test]
fn doc_workflow_2() -> Result<(), DefinitionError> {
    let payload = obj(vec![
        ("name", s("code-implement")),
        ("description", s("实现一段代码")),
        (
            "steps",
            list(vec![
                obj(vec![("name", s("大纲")), ("executor", s("agent"))]),
                obj(vec![("name", s("收尾")), ("executor", s("human"))]),
            ]),
        ),
    ]);
    let workflow = Workflow::from_value(&payload)?;
    assert_eq!(workflow.step_names(), vec!["大纲", "收尾"]);
    let illegal = Workflow::from_value(&obj(vec![("name", s("w")), ("steps", list(vec![]))]));
    assert!(illegal.is_err(), "no steps: refused on the spot");
    Ok(())
}

#[test]
fn doc_workflow_3() {
    let workflow = Workflow::from_value(&obj(vec![
        ("name", s("w")),
        (
            "steps",
            list(vec![obj(vec![
                ("name", s("甲")),
                (
                    "criteria",
                    list(vec![obj(vec![("executor", s("rule")), ("path", s("/nonexistent-quanttide-work-tests/x.md"))])]),
                ),
            ])]),
        ),
    ]))
    .expect("a well-formed definition");
    let context = RunContext::of(&obj(vec![("data", s("/w/data"))]));
    let findings = workflow.check(&context.data, |path| std::path::Path::new(path).exists());
    assert_eq!(findings.len(), 1);
    assert_eq!(findings[0].where_, "甲·/nonexistent-quanttide-work-tests/x.md");
    assert!(!findings[0].ok, "this path does not exist here");
}
