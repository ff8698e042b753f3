//! Tasks: the model and its journal, landings and placeholders, the run
//! context, and which steps were walked.

use quanttide_work::executor::AGENT;
use quanttide_work::task::{JournalEvent, RunContext, Task, expand_placeholders};
use quanttide_work::workflow::{Step, Workflow};
use quanttide_work::yaml::{Number, Yaml};

fn s(text: &str) -> Yaml {
    Yaml::String(text.to_string())
}

fn n(value: u64) -> Yaml {
    Yaml::Number(Number::PosInt(value))
}

fn b(value: bool) -> Yaml {
    Yaml::Bool(value)
}

fn list(items: Vec<Yaml>) -> Yaml {
    Yaml::Sequence(items)
}

/// A mapping with its keys in sorted order, as a JSON object is held.
fn obj(entries: Vec<(&str, Yaml)>) -> Yaml {
    let mut entries = entries;
    entries.sort_by(|a, b| a.0.cmp(b.0));
    Yaml::Mapping(entries.into_iter().map(|(k, v)| (s(k), v)).collect())
}

fn event(at: &str, step: &str, ok: bool) -> Yaml {
    obj(vec![("at", s(at)), ("step", s(step)), ("ok", b(ok))])
}

fn workflow(steps: &[&str]) -> Workflow {
    Workflow {
        name: "w".into(),
        description: String::new(),
        steps: steps
            .iter()
            .map(|name| Step {
                name: (*name).into(),
                description: String::new(),
                executor: AGENT.into(),
                criteria: Vec::new(),
            })
            .collect(),
    }
}

fn task_with_log(events: Vec<Yaml>) -> Task {
    Task::of("甲", &obj(vec![("log", list(events))]))
}

fn text_at<'a>(value: &'a Yaml, key: &str) -> Option<&'a str> {
    value.get(key).and_then(|v| v.as_str()).map(|t| t.as_str())
}

#[test]
fn run_context_reads_and_writes_three_places() {
    let payload = obj(vec![("root", s("/w")), ("data", s("/w/data")), ("workflows", s("/w/workflows"))]);
    let context = RunContext::of(&payload);
    assert_eq!(context.root, "/w");
    assert_eq!(context.data, "/w/data");
    assert_eq!(context.workflows, "/w/workflows");
    assert_eq!(RunContext::of(&context.to_yaml()), context);
}

#[test]
fn run_context_defaults_empty() {
    let empty = RunContext::default();
    assert!(empty.root.is_empty() && empty.data.is_empty() && empty.workflows.is_empty());
    assert_eq!(RunContext::of(&obj(vec![])), empty);
}

#[test]
fn journal_event_of_defaults_ok_false() {
    let event = JournalEvent::of(&obj(vec![("at", s("t1")), ("step", s("甲")), ("detail", s("走了一步"))]));
    assert_eq!(event.at, "t1");
    assert_eq!(event.step, "甲");
    assert_eq!(event.detail, "走了一步");
    assert!(!event.ok, "no ok written counts as not passed");
    assert_eq!(JournalEvent::of(&event.to_yaml()), event);
}

#[test]
fn task_tests_done_steps_votes_on_suffixed_events_and_reruns_from_scratch() {
    let task = task_with_log(vec![
        event("t1", "甲", true),
        event("t2", "甲·审", false),
        event("t3", "乙", false),
        event("t4", "乙", true),
        event("t5", "丙", true),
        event("t6", "丙·判", true),
        event("t7", "丁", true),
    ]);
    let workflow = workflow(&["甲", "乙", "丙"]);
    assert_eq!(
        task.done_steps(&workflow),
        vec!["乙", "丙"],
        "甲 voted down, 乙 rerun and passed, 丙 still passes, 丁 not in the workflow"
    );
}

#[test]
fn task_tests_done_steps_keeps_the_journal_order() {
    let task = task_with_log(vec![event("t1", "丙", true), event("t2", "甲", true)]);
    assert_eq!(task.done_steps(&workflow(&["甲", "丙"])), vec!["丙", "甲"]);
}

#[test]
fn task_tests_next_step_is_the_first_not_done() {
    let task = task_with_log(vec![event("t", "甲", true)]);
    assert_eq!(task.next_step(&workflow(&["甲", "乙"])), Some("乙".into()));
    assert_eq!(task.next_step(&workflow(&["甲"])), None);
    assert_eq!(task.next_step(&workflow(&[])), None);
}

#[test]
fn task_tests_state_line_names_the_next_or_the_finish() {
    let task = Task::of("甲", &obj(vec![("workflow", s("w"))]));
    let empty = Workflow { name: "w".into(), description: String::new(), steps: Vec::new() };
    assert_eq!(task.state_line(&empty), "这条工作流没有步骤——在 workflows/w.yaml 的 steps 里写步骤");

    let workflow = workflow(&["甲", "乙"]);
    assert_eq!(task.state_line(&workflow), "下一步：甲");
    let finished = task_with_log(vec![event("t1", "甲", true), event("t2", "乙", true)]);
    assert_eq!(finished.state_line(&workflow), "2 个步骤都走过了");
}

#[test]
fn task_of_reads_journal_gates_artifacts_and_context() {
    let payload = obj(vec![
        ("workflow", s("code-implement")),
        ("start", s("outline")),
        ("root", s("/w")),
        ("data", s("/w/data")),
        ("workflows", s("/w/workflows")),
        (
            "log",
            list(vec![obj(vec![("at", s("t1")), ("step", s("大纲")), ("detail", s("走了")), ("ok", b(true))])]),
        ),
        ("gates", list(vec![s("等老板拍板"), n(3)])),
        ("artifacts", obj(vec![("report", s("data/report/甲.md")), ("bad", n(7))])),
    ]);
    let task = Task::of("甲", &payload);
    assert_eq!(task.name, "甲");
    assert_eq!(task.workflow_name, "code-implement");
    assert_eq!(task.start, "outline");
    assert_eq!(task.context.data, "/w/data");
    assert_eq!(
        task.journal,
        vec![JournalEvent { at: "t1".into(), step: "大纲".into(), detail: "走了".into(), ok: true }]
    );
    assert_eq!(task.gates, vec!["等老板拍板"], "gates that are not text are dropped");
    assert_eq!(task.artifacts.len(), 1, "landings that are not text are dropped");
}

#[test]
fn task_of_treats_missing_or_wrong_blocks_as_empty() {
    let task = Task::of(
        "甲",
        &obj(vec![("log", s("不是列表")), ("gates", s("不是列表")), ("artifacts", s("不是映射"))]),
    );
    assert!(task.journal.is_empty());
    assert!(task.gates.is_empty());
    assert!(task.artifacts.is_empty());
    assert_eq!(task.workflow_name, "");
    assert_eq!(task.start, "");
}

#[test]
fn task_to_yaml_roundtrips() {
    let payload = obj(vec![
        ("workflow", s("code-implement")),
        ("start", s("outline")),
        ("root", s("/w")),
        ("data", s("/w/data")),
        ("workflows", s("/w/workflows")),
        (
            "log",
            list(vec![obj(vec![("at", s("t1")), ("step", s("大纲")), ("detail", s("走了")), ("ok", b(true))])]),
        ),
        ("gates", list(vec![s("等老板拍板")])),
        ("artifacts", obj(vec![("report", s("data/report/甲.md"))])),
    ]);
    let task = Task::of("甲", &payload);
    assert_eq!(Task::of("甲", &task.to_yaml()), task);
}

#[test]
fn declared_trims_and_ignores_blank() {
    let task = Task::of("甲", &obj(vec![("artifacts", obj(vec![("report", s("  data/甲.md  ")), ("blank", s("   "))]))]));
    assert_eq!(task.declared("report"), Some("data/甲.md".into()));
    assert_eq!(task.declared("blank"), None, "a blank declaration is none");
    assert_eq!(task.declared("missing"), None);
    assert_eq!(task.product("report"), Some("data/甲.md".into()));
}

#[test]
fn artifact_trims_trailing_slashes_and_follows_the_rules() {
    let context = RunContext { root: "/w/".into(), data: "/d/".into(), workflows: "/w/workflows".into() };
    let task = Task::of("甲", &obj(vec![]));
    assert_eq!(task.artifact("report", &context), "/d/artifacts/report/甲.md");
    assert_eq!(task.artifact("log", &context), "/d/tasks/甲.yaml");

    let declared = Task::of(
        "甲",
        &obj(vec![("artifacts", obj(vec![("report", s("drafts/甲.md")), ("logs", s("/elsewhere/甲.md"))]))]),
    );
    assert_eq!(declared.artifact("report", &context), "/w/drafts/甲.md", "under the workspace root");
    assert_eq!(declared.artifact("logs", &context), "/elsewhere/甲.md", "an absolute path as is");
}

#[test]
fn recorded_hands_back_a_new_task_and_leaves_the_origin_alone() {
    let task = Task::of("甲", &obj(vec![]));
    let after = task.recorded("2026-09-12", "outline", "走了一步", true);
    assert!(task.journal.is_empty(), "the original is unchanged");
    assert_eq!(
        after.journal,
        vec![JournalEvent { at: "2026-09-12".into(), step: "outline".into(), detail: "走了一步".into(), ok: true }]
    );
}

#[test]
fn with_gates_skips_duplicates() {
    let task = Task::of("甲", &obj(vec![("gates", list(vec![s("甲项")]))]));
    let after = task.with_gates(&["甲项".into(), "乙项".into()]);
    assert_eq!(after.gates, vec!["甲项", "乙项"]);
    assert_eq!(task.gates, vec!["甲项"], "the original is unchanged");
}

#[test]
fn expand_placeholders_knows_four_and_leaves_the_rest() {
    assert_eq!(expand_placeholders("{{report}}/清单.md", "/d"), "/d/artifacts/report/清单.md");
    assert_eq!(expand_placeholders("{{journal}}", "/d"), "/d/artifacts/journal");
    assert_eq!(expand_placeholders("{{log}}", "/d"), "/d/tasks");
    assert_eq!(expand_placeholders("{{artifacts}}/y", "/d"), "/d/artifacts/y");
    assert_eq!(expand_placeholders("没有占位", "/d"), "没有占位");
    assert_eq!(expand_placeholders("{{unknown}}", "/d"), "{{unknown}}");
}

#[test]
fn to_yaml_writes_the_run_context_back_at_top_level() {
    let payload = obj(vec![("workflow", s("w")), ("root", s("/r")), ("data", s("/d")), ("workflows", s("/wf"))]);
    let written = Task::of("甲", &payload).to_yaml();
    assert!(written.as_mapping().is_some(), "a task is written as a mapping");
    for (key, want) in [("root", "/r"), ("data", "/d"), ("workflows", "/wf")] {
        assert_eq!(text_at(&written, key), Some(want), "written back as it was: {key}");
    }
}

#[test]
fn artifacts_are_kept_in_name_order_with_the_last_declaration_winning() {
    let payload = Yaml::Mapping(vec![(
        s("artifacts"),
        Yaml::Mapping(vec![
            (s("report"), s("a.md")),
            (s("journal"), s("j.md")),
            (s("report"), s("b.md")),
        ]),
    )]);
    let task = Task::of("甲", &payload);
    assert_eq!(
        task.artifacts,
        vec![("journal".to_string(), "j.md".to_string()), ("report".to_string(), "b.md".to_string())]
    );
}

#[test]
fn a_vote_on_a_step_met_first_counts_its_ok() {
    let task = task_with_log(vec![event("t1", "甲·审", true)]);
    assert_eq!(task.done_steps(&workflow(&["甲"])), vec!["甲"]);
    let task = task_with_log(vec![event("t1", "甲", true), event("t2", "甲·审", true), event("t3", "甲·判", false)]);
    assert!(task.done_steps(&workflow(&["甲"])).is_empty(), "a failed vote undoes the step");
}

#[test]
fn the_step_name_is_cut_at_the_first_dot() {
    let task = task_with_log(vec![event("t1", "甲·审·二", true)]);
    assert_eq!(task.done_steps(&workflow(&["甲"])), vec!["甲"]);
    assert_eq!(task.done_steps(&workflow(&["甲·审"])), Vec::<String>::new());
}

#[test]
fn recording_the_same_gates_twice_changes_nothing() {
    let task = Task::of("甲", &obj(vec![("gates", list(vec![s("甲项")]))]));
    let notes: Vec<String> = vec!["乙项".into(), "甲项".into(), "乙项".into()];
    let once = task.with_gates(&notes);
    assert_eq!(once.gates, vec!["甲项", "乙项"]);
    assert_eq!(once.with_gates(&notes), once);
}

#[test]
fn a_journal_entry_for_a_foreign_step_counts_for_nothing() {
    let before = task_with_log(vec![event("t1", "甲", true)]);
    let after = before.recorded("t2", "外", "不在工作流里", false);
    let flow = workflow(&["甲", "乙"]);
    assert_eq!(after.done_steps(&flow), before.done_steps(&flow));
    let rerun = after.recorded("t3", "甲", "重走一遍", false);
    assert!(rerun.done_steps(&flow).is_empty(), "a plain entry starts the verdict afresh");
}
