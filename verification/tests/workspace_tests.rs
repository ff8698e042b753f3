//! The workspace: what it holds, checking a definition, landings and
//! placeholders, and how far a task has come.

use quanttide_work::artifact::Artifact;
use quanttide_work::criterion::Criterion;
use quanttide_work::executor::AGENT;
use quanttide_work::task::Task;
use quanttide_work::workflow::{Step, Workflow};
use quanttide_work::workspace::{Finding, Workspace, looks_like_section};
use quanttide_work::yaml::Yaml;

fn s(text: &str) -> Yaml {
    Yaml::String(text.to_string())
}

fn b(value: bool) -> Yaml {
    Yaml::Bool(value)
}

fn list(items: Vec<Yaml>) -> Yaml {
    Yaml::Sequence(items)
}

/// A mapping with its keys in sorted order, as a JSON object is held.
fn obj(entries: Vec<(&str, Yaml)>) -> Yaml {
    let mut entries = entries;
    entries.sort_by(|a, b| a.0.cmp(b.0));
    Yaml::Mapping(entries.into_iter().map(|(k, v)| (s(k), v)).collect())
}

fn rule(key: &str, value: &str) -> Yaml {
    obj(vec![("executor", s("rule")), (key, s(value))])
}

fn event(at: &str, step: &str, ok: bool) -> Yaml {
    obj(vec![("at", s(at)), ("step", s(step)), ("ok", b(ok))])
}

fn task_of(name: &str, payload: Yaml) -> Task {
    Task::of(name, &payload)
}

fn workflow(steps: &[&str]) -> Workflow {
    Workflow {
        name: "w".into(),
        description: String::new(),
        steps: steps
            .iter()
            .map(|name| Step {
                name: (*name).into(),
                description: String::new(),
                executor: AGENT.into(),
                criteria: Vec::new(),
            })
            .collect(),
    }
}

fn task_with_log(events: Vec<Yaml>) -> Task {
    task_of("甲", obj(vec![("workflow", s("w")), ("log", list(events))]))
}

fn workspace(steps: &[&str]) -> Workspace {
    Workspace::of(vec![workflow(steps)], Vec::new())
}

fn section_ok(findings: &[Finding], name: &str) -> Option<bool> {
    findings.iter().find(|finding| finding.what.ends_with(name)).and_then(|finding| finding.ok)
}

#[test]
fn workspace_holds_workflows_and_tasks() {
    let task = task_of("甲", obj(vec![]));
    let workspace = Workspace::of(vec![workflow(&["甲", "乙"])], vec![task.clone()]);
    assert_eq!(
        workspace.workflow("w").map(|flow| flow.step_names()),
        Some(vec!["甲".to_string(), "乙".to_string()])
    );
    assert_eq!(workspace.task("甲"), Some(&task));
    assert!(workspace.workflow("没有").is_none());
    assert!(workspace.task("没有").is_none());
    assert_eq!(Workspace::default().workflows.len(), 0);
}

#[test]
fn workspace_tests_looks_like_section_rejects_non_names() {
    assert!(looks_like_section("收尾"));
    assert!(!looks_like_section(""), "an empty name is not one");
    assert!(!looks_like_section("这是一个超过十二个字的报告小节名字"), "too long");
    for odd in ["<标题>", "a_b", "`代号`", "A>B"] {
        assert!(!looks_like_section(odd), "{odd} is not a section name");
    }
}

#[test]
fn workspace_tests_check_reports_paths_and_sections() {
    let workflow = Workflow::from_value(&obj(vec![
        ("name", s("code-implement")),
        (
            "steps",
            list(vec![obj(vec![
                ("name", s("甲")),
                ("description", s("交一份带 ## 收尾 的报告，并按「结论」一节写清楚")),
                (
                    "criteria",
                    list(vec![
                        rule("path", "/w/seen.md"),
                        obj(vec![("executor", s("rule")), ("file", s("report.md")), ("contains", s("收尾"))]),
                    ]),
                ),
            ])]),
        ),
    ]))
    .expect("a well-formed definition");

    let findings = Workspace::default().check(&workflow, |path| path == "/w/seen.md");

    let path_finding = findings
        .iter()
        .find(|finding| finding.what.starts_with("判据里的路径在不在"))
        .expect("a path criterion gives a finding");
    assert_eq!(path_finding.where_, "甲·/w/seen.md");
    assert_eq!(path_finding.what, "判据里的路径在不在：/w/seen.md");
    assert_eq!(path_finding.ok, Some(true));

    assert_eq!(section_ok(&findings, "收尾"), Some(true), "contains covers 收尾");
    assert_eq!(section_ok(&findings, "结论"), Some(false), "nothing covers 结论");
}

#[test]
fn check_marks_runtime_placeholders_unchecked() {
    let workflow = Workflow::from_value(&obj(vec![
        ("name", s("w")),
        (
            "steps",
            list(vec![obj(vec![
                ("name", s("甲")),
                (
                    "criteria",
                    list(vec![
                        rule("path", "{{report}}/x.md"),
                        rule("path", "{{journal}}/y.md"),
                        rule("path", "{{log}}/z.yaml"),
                        rule("path", "{{artifacts}}/w.md"),
                        rule("absent", "gone.md"),
                        rule("run", "true"),
                        obj(vec![("executor", s("agent")), ("description", s("写干净了"))]),
                        obj(vec![("executor", s("human")), ("description", s("人拍板"))]),
                    ]),
                ),
            ])]),
        ),
    ]))
    .expect("a well-formed definition");

    let findings = Workspace::default().check(&workflow, |_| true);
    assert_eq!(findings.len(), 4, "one unchecked finding per runtime placeholder: {findings:?}");
    assert!(findings.iter().all(|finding| finding.ok.is_none()), "all left unchecked");
    assert!(findings.iter().all(|finding| finding.what.contains("未核")), "said so: {findings:?}");
}

#[test]
fn workspace_tests_check_dedupes_section_mentions_and_ignores_unclosed_ones() {
    let workflow = Workflow::from_value(&obj(vec![
        ("name", s("w")),
        (
            "steps",
            list(vec![obj(vec![
                ("name", s("甲")),
                ("description", s("先写「结论」节，再写「结论」两节，最后「收尾」一节；未闭合的「半句和 ## 版本")),
                (
                    "criteria",
                    list(vec![
                        rule("path", "a.md"),
                        obj(vec![("executor", s("rule")), ("file", s("b.md")), ("contains", s("结论"))]),
                    ]),
                ),
            ])]),
        ),
    ]))
    .expect("a well-formed definition");

    let findings = Workspace::default().check(&workflow, |_| true);
    assert_eq!(section_ok(&findings, "结论"), Some(true));
    assert_eq!(section_ok(&findings, "收尾"), Some(false));
    assert_eq!(section_ok(&findings, "半句和"), None, "an unclosed bracket names nothing");
    assert_eq!(findings.iter().filter(|finding| finding.what.ends_with("结论")).count(), 1, "one finding per section");
}

#[test]
fn unchecked_findings_name_the_first_placeholder() {
    let workflow = Workflow::from_value(&obj(vec![
        ("name", s("w")),
        ("steps", list(vec![obj(vec![("name", s("甲")), ("criteria", list(vec![rule("path", "{{log}}/{{report}}.md")]))])])),
    ]))
    .expect("a well-formed definition");
    let findings = Workspace::default().check(&workflow, |_| false);
    assert_eq!(findings.len(), 1);
    assert_eq!(findings[0].where_, "甲·{{log}}/{{report}}.md");
    assert_eq!(findings[0].what, "判据里的路径含 {{report}}，未核（等任务执行时再核）");
    assert_eq!(findings[0].ok, None);
}

#[test]
fn artifact_follows_the_declaration_and_the_default() {
    let workspace = Workspace::default();
    let task = task_of("甲", obj(vec![]));
    assert_eq!(workspace.artifact(&task, "report", "/d/"), "/d/artifacts/report/甲.md", "the default, trailing slash dropped");
    assert_eq!(workspace.artifact(&task, "log", "/d/"), "/d/tasks/甲.yaml", "the log is the task file itself");

    let declared = task_of(
        "甲",
        obj(vec![("artifacts", obj(vec![("report", s("report/甲.md")), ("logs", s("/elsewhere/甲.md"))]))]),
    );
    assert_eq!(workspace.artifact(&declared, "report", "/d"), "/d/report/甲.md", "a declared path under the base");
    assert_eq!(workspace.artifact(&declared, "logs", "/d"), "/elsewhere/甲.md", "an absolute path as is");
}

#[test]
fn placeholders_point_at_the_same_landings_as_artifact() {
    let workspace = Workspace::default();
    let task = task_of("甲", obj(vec![]));
    let tab = workspace.placeholders(&task, "/d");

    assert_eq!(tab.path_of("report"), Some("/d/artifacts/report/甲.md"));
    assert_eq!(tab.path_of("journal"), Some("/d/artifacts/journal/甲.md"));
    assert_eq!(tab.path_of("log"), Some("/d/tasks/甲.yaml"));
    assert_eq!(tab.path_of("artifacts"), Some("/d/artifacts"));
    assert_eq!(tab.path_of("foo"), None, "an unknown placeholder has no path");

    assert_eq!(tab.expand("{{report}} 里写 {{artifacts}} 的清单"), "/d/artifacts/report/甲.md 里写 /d/artifacts 的清单");
    assert_eq!(tab.expand("没有占位"), "没有占位");
    assert_eq!(tab.expand("{{name}}"), "{{name}}", "an unknown placeholder is kept");
    assert_eq!(tab.expand("没闭合的 {{report"), "没闭合的 {{report", "an unclosed placeholder swallows nothing");
}

#[test]
fn placeholders_follow_the_declaration() {
    let workspace = Workspace::default();
    let task = task_of("甲", obj(vec![("artifacts", obj(vec![("report", s("report/甲.md"))]))]));
    let tab = workspace.placeholders(&task, "/d");
    assert_eq!(tab.expand("{{report}}"), "/d/report/甲.md", "the declared report is where it points");
    assert_eq!(tab.expand("{{journal}}"), "/d/artifacts/journal/甲.md", "the undeclared one lands by default");
}

#[test]
fn expanded_uses_the_places_relative_to_the_root() {
    let workspace = Workspace::default();
    let task = task_of("甲", obj(vec![]));
    let criterion = Criterion::FileContains {
        file: "{{report}}/x.md".into(),
        contains: "结论".into(),
        description: "{{log}} 里记过，{{journal}} 也在".into(),
    };
    assert_eq!(
        workspace.expanded(&criterion, &task),
        Criterion::FileContains {
            file: "artifacts/report/甲.md/x.md".into(),
            contains: "结论".into(),
            description: "tasks/甲.yaml 里记过，artifacts/journal/甲.md 也在".into(),
        }
    );
    let listing = Criterion::PathExists { path: "{{artifacts}}".into(), description: String::new() };
    assert_eq!(
        workspace.expanded(&listing, &task),
        Criterion::PathExists { path: "artifacts".into(), description: String::new() }
    );
}

#[test]
fn expanded_follows_the_declaration_and_keeps_the_rest() {
    let workspace = Workspace::default();
    let task = task_of("甲", obj(vec![("artifacts", obj(vec![("report", s("drafts/甲.md"))]))]));
    let criterion = Criterion::PathExists { path: "{{report}}".into(), description: "{{foo}} 与 {{report".into() };
    assert_eq!(
        workspace.expanded(&criterion, &task),
        Criterion::PathExists { path: workspace.place(&task, &Artifact::named("report")), description: "{{foo}} 与 {{report".into() }
    );
    assert_eq!(workspace.place(&task, &Artifact::named("report")), "drafts/甲.md");
}

#[test]
fn place_is_relative_to_the_workspace_root() {
    let workspace = Workspace::default();
    let task = task_of("甲", obj(vec![("artifacts", obj(vec![("report", s(" drafts/甲.md "))]))]));
    assert_eq!(workspace.place(&task, &Artifact::named("report")), "drafts/甲.md");
    assert_eq!(workspace.place(&task, &Artifact::named("notes")), "artifacts/notes/甲.md");
}

#[test]
fn workspace_tests_done_steps_votes_on_suffixed_events_and_reruns_from_scratch() {
    let task = task_with_log(vec![
        event("t1", "甲", true),
        event("t2", "甲·审", false),
        event("t3", "乙", false),
        event("t4", "乙", true),
        event("t5", "丙", true),
        event("t6", "丙·判", true),
        event("t7", "丁", true),
    ]);
    assert_eq!(
        workspace(&["甲", "乙", "丙"]).done_steps(&task),
        vec!["乙", "丙"],
        "甲 voted down, 乙 rerun and passed, 丙 still passes, 丁 not in the workflow"
    );
}

#[test]
fn workspace_tests_done_steps_keeps_the_journal_order() {
    let task = task_with_log(vec![event("t1", "丙", true), event("t2", "甲", true)]);
    assert_eq!(workspace(&["甲", "丙"]).done_steps(&task), vec!["丙", "甲"]);
}

#[test]
fn workspace_tests_next_step_is_the_first_not_done() {
    let task = task_with_log(vec![event("t", "甲", true)]);
    assert_eq!(workspace(&["甲", "乙"]).next_step(&task), Some("乙".into()));
    assert_eq!(workspace(&["甲"]).next_step(&task), None);
    assert_eq!(workspace(&[]).next_step(&task), None);
    assert_eq!(Workspace::default().next_step(&task), None, "the workspace lacks the workflow");
}

#[test]
fn workspace_tests_state_line_names_the_next_or_the_finish() {
    let task = task_of("甲", obj(vec![("workflow", s("w"))]));
    let empty = Workspace::of(vec![Workflow { name: "w".into(), description: String::new(), steps: Vec::new() }], Vec::new());
    assert_eq!(empty.state_line(&task), "这条工作流没有步骤：w");

    assert_eq!(workspace(&["甲", "乙"]).state_line(&task), "下一步：甲");
    let finished = task_with_log(vec![event("t1", "甲", true), event("t2", "乙", true)]);
    assert_eq!(workspace(&["甲", "乙"]).state_line(&finished), "2 个步骤都走过了");
    assert_eq!(Workspace::default().state_line(&task), "工作区里没有这条工作流：w");
}
