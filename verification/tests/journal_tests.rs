//! The journal read straight from its entries, the agents' words, and the path
//! helpers.

use quanttide_work::paths::{join, short};
use quanttide_work::prompts::{Facts, criteria_text, judge_prompt, prompt_for};
use quanttide_work::tasklog::{done, next_step, state_line};
use quanttide_work::yaml::Yaml;

fn s(text: &str) -> Yaml {
    Yaml::String(text.to_string())
}

/// A mapping with its keys in sorted order, as a JSON object is held.
fn obj(entries: Vec<(&str, Yaml)>) -> Yaml {
    let mut entries = entries;
    entries.sort_by(|a, b| a.0.cmp(b.0));
    Yaml::Mapping(entries.into_iter().map(|(k, v)| (s(k), v)).collect())
}

fn event(step: &str, ok: bool) -> Yaml {
    obj(vec![("at", s("t")), ("step", s(step)), ("ok", Yaml::Bool(ok))])
}

fn names(list: &[&str]) -> Vec<String> {
    list.iter().map(|name| name.to_string()).collect()
}

#[test]
fn done_reads_the_entries_as_a_journal() {
    let events = vec![
        event("甲", true),
        event("甲·审", false),
        event("乙", false),
        event("乙", true),
        event("丙", true),
        event("丙·判", true),
        event("丁", true),
    ];
    assert_eq!(done(&names(&["甲", "乙", "丙"]), &events), vec!["乙", "丙"]);
}

#[test]
fn done_trims_the_step_and_reads_a_missing_ok_as_failed() {
    let events = vec![
        obj(vec![("step", s("  甲  ")), ("ok", Yaml::Bool(true))]),
        obj(vec![("step", s("乙"))]),
        obj(vec![("step", s("丙")), ("ok", s("true"))]),
    ];
    assert_eq!(done(&names(&["甲", "乙", "丙"]), &events), vec!["甲"]);
}

#[test]
fn next_step_and_state_line_from_the_entries() {
    let steps = names(&["甲", "乙"]);
    let events = vec![event("甲", true)];
    assert_eq!(next_step(&steps, &events), Some("乙".to_string()));
    assert_eq!(state_line(&steps, &events, "w"), "下一步：乙");
    let all = vec![event("甲", true), event("乙", true)];
    assert_eq!(next_step(&steps, &all), None);
    assert_eq!(state_line(&steps, &all, "w"), "2 个步骤都走过了");
    assert_eq!(state_line(&[], &all, "w"), "这条工作流没有步骤——在 workflows/w.yaml 的 steps 里写步骤");
}

fn facts() -> Facts {
    Facts {
        root: "/w".into(),
        data: "/w/data".into(),
        name: "甲".into(),
        start: "大纲".into(),
        workflow_name: "code-implement".into(),
        workflow_description: "实现一段代码".into(),
        steps: "大纲 → 收尾".into(),
        step: "大纲".into(),
        what: "列大纲".into(),
        report: "/w/data/artifacts/report/甲.md".into(),
        journal: "/w/data/artifacts/journal/甲.md".into(),
        log: "/w/data/tasks/甲.yaml".into(),
        artifacts: "/w/data/artifacts".into(),
    }
}

#[test]
fn judge_prompt_numbers_the_criteria() {
    let criteria = vec![
        obj(vec![("executor", s("agent")), ("description", s("写干净了"))]),
        obj(vec![("executor", s("rule")), ("path", s("x"))]),
    ];
    assert_eq!(
        judge_prompt(&facts(), &criteria),
        "你是审查者，不是执行者。别改产物、别改判据文件。\n\n\
         工作区：/w\n\
         要审的东西：这一步的产物在 /w/data/artifacts（也可以看工作区里相关文件）\n\
         这一步做什么：列大纲\n\n\
         判准（逐条判）：\n1. 写干净了\n2. \n\n\
         对每条输出一行，格式只能是「序号. 通过 — 一句话理由」或「序号. 不通过 — 一句话理由」，最后不要写别的。\n"
    );
}

#[test]
fn criteria_text_lists_who_judges_and_what() {
    let criteria = vec![
        obj(vec![("executor", s("agent")), ("description", s("写干净了"))]),
        obj(vec![("executor", s("rule")), ("path", s("x"))]),
        obj(vec![("description", s("人看过"))]),
    ];
    assert_eq!(criteria_text(&criteria), "- agent：写干净了\n- rule：\n- ：人看过");
}

#[test]
fn criteria_text_says_when_a_step_has_none() {
    assert_eq!(criteria_text(&[]), "（这一步没有判据）");
}

#[test]
fn prompt_for_gives_the_walking_agent_its_step() {
    let criteria = vec![obj(vec![("executor", s("rule")), ("description", s("大纲在"))])];
    assert_eq!(
        prompt_for(&facts(), &criteria),
        "你在按一条工作流走一步。只做这一步，做完就停。\n\n\
         工作区：/w\n\
         数据仓：/w/data\n\
         任务：甲（开工：大纲）\n\
         工作流：code-implement——实现一段代码\n\
         步骤：大纲 → 收尾\n\
         这一步：大纲\n\
         做什么：\n列大纲\n\n\
         判据（程序随后自己核对，你不能改判据、也不许改判据文件）：\n- rule：大纲在\n\n\
         本任务的三样东西（报告与日志是产物，流水是执行痕迹）：\n\
         产物：/w/data/artifacts/report/甲.md（程序不碰产物内容，谁写谁定；闸门项记在任务文件里）\n\
         日志：/w/data/artifacts/journal/甲.md\n\
         流水：/w/data/tasks/甲.yaml（就在任务文件里）\n\
         工作流里用 {{report}} / {{journal}} / {{log}} 指这三样；工作内容写进报告，别动程序那两节。\n\
         规矩：数据只写数据仓；工作区里只动「做什么」点名的东西。最后用一句话说明你做了什么。\n"
    );
}

#[test]
fn short_writes_paths_under_the_root_relative() {
    assert_eq!(short("/w", "/w/data/x.md"), "data/x.md");
    assert_eq!(short("/w/", "/w/data/x.md"), "data/x.md");
    assert_eq!(short("/w", "/elsewhere/x.md"), "/elsewhere/x.md");
    assert_eq!(short("/w", "/wx/y"), "/wx/y");
}

#[test]
fn join_folds_slashes_in_the_directory() {
    assert_eq!(join("/d//e/", "x"), "/d/e/x");
    assert_eq!(join("/", "x"), "/x");
    assert_eq!(join("", "x"), "/x");
}
