//! What the agent is told when it walks a step and when it reviews one: the
//! product's own words, fixed, so every front end says the same.

use crate::text::{chars_of, decimal, decimal_chars, join_chars, join_with, push_chars, push_str, string_of};
use crate::yaml::{Node, Yaml, as_str, get};
use vstd::prelude::*;

verus! {

/// What is known where a step is walked: the task and the step, with the
/// paths worked out by the caller.
pub struct Facts {
    pub root: String,
    pub data: String,
    pub name: String,
    pub start: String,
    pub workflow_name: String,
    pub workflow_description: String,
    pub steps: String,
    pub step: String,
    pub what: String,
    pub report: String,
    pub journal: String,
    pub log: String,
    pub artifacts: String,
}

/// A criterion's `description` as written (not trimmed); empty when it is
/// missing or not text.
pub open spec fn described(n: Node) -> Seq<char> {
    match get(n, "description"@) {
        Some(v) => match as_str(v) {
            Some(s) => s,
            None => Seq::empty(),
        },
        None => Seq::empty(),
    }
}

/// A criterion's `executor` as written; empty when it is missing or not
/// text.
pub open spec fn executor_named(n: Node) -> Seq<char> {
    match get(n, "executor"@) {
        Some(v) => match as_str(v) {
            Some(s) => s,
            None => Seq::empty(),
        },
        None => Seq::empty(),
    }
}

/// One line per criterion: `- <executor>：<description>`.
pub open spec fn criterion_lines(criteria: Seq<Node>) -> Seq<Seq<char>> {
    Seq::new(
        criteria.len(),
        |i: int| "- "@ + executor_named(criteria[i]) + "："@ + described(criteria[i]),
    )
}

/// A step's criteria as a list, one line each; a step without criteria says
/// so.
pub open spec fn criteria_listing(criteria: Seq<Node>) -> Seq<char> {
    if criteria.len() == 0 {
        "（这一步没有判据）"@
    } else {
        join_with(criterion_lines(criteria), "\n"@)
    }
}

/// The words the walking agent gets: where it stands, what the step does,
/// the criteria it will be held to, the task's three files, and the rules.
pub open spec fn walk_text(facts: Facts, criteria: Seq<Node>) -> Seq<char> {
    "你在按一条工作流走一步。只做这一步，做完就停。\n\n工作区："@ + facts.root@ + "\n数据仓："@
        + facts.data@ + "\n任务："@ + facts.name@ + "（开工："@ + facts.start@ + "）\n工作流："@
        + facts.workflow_name@ + "——"@ + facts.workflow_description@ + "\n步骤："@ + facts.steps@
        + "\n这一步："@ + facts.step@ + "\n做什么：\n"@ + facts.what@
        + "\n\n判据（程序随后自己核对，你不能改判据、也不许改判据文件）：\n"@ + criteria_listing(criteria)
        + "\n\n本任务的三样东西（报告与日志是产物，流水是执行痕迹）：\n产物："@ + facts.report@
        + "（程序不碰产物内容，谁写谁定；闸门项记在任务文件里）\n日志："@ + facts.journal@ + "\n流水："@
        + facts.log@
        + "（就在任务文件里）\n工作流里用 {{report}} / {{journal}} / {{log}} 指这三样；工作内容写进报告，别动程序那两节。\n规矩：数据只写数据仓；工作区里只动「做什么」点名的东西。最后用一句话说明你做了什么。\n"@
}

/// The criteria numbered from 1, one per line: `<n>. <description>`.
pub open spec fn numbered(criteria: Seq<Node>) -> Seq<Seq<char>> {
    Seq::new(criteria.len(), |i: int| decimal((i + 1) as nat) + ". "@ + described(criteria[i]))
}

/// The words the judging agent gets: the workspace, where the step's artifacts
/// are, what the step does, and the criteria to answer one by one.
pub open spec fn judge_text(facts: Facts, criteria: Seq<Node>) -> Seq<char> {
    "你是审查者，不是执行者。别改产物、别改判据文件。\n\n工作区："@ + facts.root@
        + "\n要审的东西：这一步的产物在 "@ + facts.artifacts@
        + "（也可以看工作区里相关文件）\n这一步做什么："@ + facts.what@
        + "\n\n判准（逐条判）：\n"@ + join_with(numbered(criteria), "\n"@)
        + "\n\n对每条输出一行，格式只能是「序号. 通过 — 一句话理由」或「序号. 不通过 — 一句话理由」，最后不要写别的。\n"@
}

/// The views of the criteria.
pub open spec fn nodes_of(criteria: Seq<Yaml>) -> Seq<Node> {
    criteria.map_values(|c: Yaml| c@)
}

/// A step's criteria, one line each: who judges, then what the criterion
/// says; a step without criteria says so.
pub fn criteria_text(criteria: &[Yaml]) -> (r: String)
    ensures
        r@ == criteria_listing(nodes_of(criteria@)),
{
    if criteria.len() == 0 {
        return String::from_str("（这一步没有判据）");
    }
    let ghost want = criterion_lines(nodes_of(criteria@));
    let mut lines: Vec<Vec<char>> = Vec::new();
    let mut i: usize = 0;
    while i < criteria.len()
        invariant
            i <= criteria.len(),
            want == criterion_lines(nodes_of(criteria@)),
            want.len() == criteria.len(),
            lines.deep_view() == want.take(i as int),
        decreases criteria.len() - i,
    {
        let mut line = chars_of("- ");
        match criteria[i].get("executor") {
            Some(v) => match v.as_str() {
                Some(s) => push_str(&mut line, s.as_str()),
                None => {},
            },
            None => {},
        }
        push_str(&mut line, "：");
        match criteria[i].get("description") {
            Some(v) => match v.as_str() {
                Some(s) => push_str(&mut line, s.as_str()),
                None => {},
            },
            None => {},
        }
        assert(nodes_of(criteria@)[i as int] == criteria@[i as int]@);
        assert(line@ =~= want[i as int]);
        assert(line.deep_view() =~= line@);
        let ghost before = lines.deep_view();
        lines.push(line);
        assert(lines.deep_view() =~= before.push(want[i as int]));
        assert(want.take(i + 1) =~= want.take(i as int).push(want[i as int]));
        i += 1;
    }
    assert(want.take(criteria.len() as int) =~= want);
    let listed = join_chars(&lines, "\n");
    string_of(&listed)
}

/// The words for the agent that walks a step: the facts of the task and the
/// step, and the step's criteria.
pub fn prompt_for(facts: &Facts, criteria: &[Yaml]) -> (r: String)
    ensures
        r@ == walk_text(*facts, nodes_of(criteria@)),
{
    let listed = criteria_text(criteria);
    let mut out = chars_of("你在按一条工作流走一步。只做这一步，做完就停。\n\n工作区：");
    push_str(&mut out, facts.root.as_str());
    push_str(&mut out, "\n数据仓：");
    push_str(&mut out, facts.data.as_str());
    push_str(&mut out, "\n任务：");
    push_str(&mut out, facts.name.as_str());
    push_str(&mut out, "（开工：");
    push_str(&mut out, facts.start.as_str());
    push_str(&mut out, "）\n工作流：");
    push_str(&mut out, facts.workflow_name.as_str());
    push_str(&mut out, "——");
    push_str(&mut out, facts.workflow_description.as_str());
    push_str(&mut out, "\n步骤：");
    push_str(&mut out, facts.steps.as_str());
    push_str(&mut out, "\n这一步：");
    push_str(&mut out, facts.step.as_str());
    push_str(&mut out, "\n做什么：\n");
    push_str(&mut out, facts.what.as_str());
    push_str(&mut out, "\n\n判据（程序随后自己核对，你不能改判据、也不许改判据文件）：\n");
    push_str(&mut out, listed.as_str());
    push_str(&mut out, "\n\n本任务的三样东西（报告与日志是产物，流水是执行痕迹）：\n产物：");
    push_str(&mut out, facts.report.as_str());
    push_str(&mut out, "（程序不碰产物内容，谁写谁定；闸门项记在任务文件里）\n日志：");
    push_str(&mut out, facts.journal.as_str());
    push_str(&mut out, "\n流水：");
    push_str(&mut out, facts.log.as_str());
    push_str(
        &mut out,
        "（就在任务文件里）\n工作流里用 {{report}} / {{journal}} / {{log}} 指这三样；工作内容写进报告，别动程序那两节。\n规矩：数据只写数据仓；工作区里只动「做什么」点名的东西。最后用一句话说明你做了什么。\n",
    );
    string_of(&out)
}

/// The words for the agent that reviews a step: the artifacts and the
/// criteria, to be answered one line each.
pub fn judge_prompt(facts: &Facts, criteria: &[Yaml]) -> (r: String)
    ensures
        r@ == judge_text(*facts, nodes_of(criteria@)),
{
    let ghost want = numbered(nodes_of(criteria@));
    let mut lines: Vec<Vec<char>> = Vec::new();
    let mut i: usize = 0;
    while i < criteria.len()
        invariant
            i <= criteria.len(),
            want == numbered(nodes_of(criteria@)),
            want.len() == criteria.len(),
            lines.deep_view() == want.take(i as int),
        decreases criteria.len() - i,
    {
        let mut line = decimal_chars(i + 1);
        push_str(&mut line, ". ");
        match criteria[i].get("description") {
            Some(v) => match v.as_str() {
                Some(s) => push_str(&mut line, s.as_str()),
                None => {},
            },
            None => {},
        }
        assert(nodes_of(criteria@)[i as int] == criteria@[i as int]@);
        assert(line@ =~= want[i as int]);
        assert(line.deep_view() =~= line@);
        let ghost before = lines.deep_view();
        lines.push(line);
        assert(lines.deep_view() =~= before.push(want[i as int]));
        assert(want.take(i + 1) =~= want.take(i as int).push(want[i as int]));
        i += 1;
    }
    assert(want.take(criteria.len() as int) =~= want);
    let listed = join_chars(&lines, "\n");
    let mut out = chars_of("你是审查者，不是执行者。别改产物、别改判据文件。\n\n工作区：");
    push_str(&mut out, facts.root.as_str());
    push_str(&mut out, "\n要审的东西：这一步的产物在 ");
    push_str(&mut out, facts.artifacts.as_str());
    push_str(&mut out, "（也可以看工作区里相关文件）\n这一步做什么：");
    push_str(&mut out, facts.what.as_str());
    push_str(&mut out, "\n\n判准（逐条判）：\n");
    push_chars(&mut out, &listed);
    push_str(
        &mut out,
        "\n\n对每条输出一行，格式只能是「序号. 通过 — 一句话理由」或「序号. 不通过 — 一句话理由」，最后不要写别的。\n",
    );
    string_of(&out)
}

} // verus!
