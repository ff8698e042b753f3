//! How far a task has come, read against the workflow the workspace holds
//! under the task's `workflow` name: which steps it has walked, which comes
//! next, and the line that says so.

use super::model::{Workspace, WorkspaceModel, workflow_named};
use crate::task::model::{Task, TaskModel};
use crate::task::progress::{
    law_walked_in_closed_form, mentioned_before, next_of, no_repeats, progress_line, progress_text,
    verdict_on, walked,
};
use crate::text::{chars_of, push_str, string_of};
use crate::workflow::model::names_of;
use vstd::prelude::*;

verus! {

/// The line for a task: no such workflow in the workspace, a workflow without
/// steps, or where the task stands on it.
pub open spec fn workspace_state(ws: WorkspaceModel, t: TaskModel) -> Seq<char> {
    match workflow_named(ws.workflows, t.workflow_name) {
        None => "工作区里没有这条工作流："@ + t.workflow_name,
        Some(w) => if w.steps.len() == 0 {
            "这条工作流没有步骤："@ + w.name
        } else {
            progress_line(t, w)
        },
    }
}

/// The steps a task has walked on the workflow the workspace holds under its
/// `workflow` name; none when the workspace holds no such workflow.
pub open spec fn walked_in(ws: WorkspaceModel, t: TaskModel) -> Seq<Seq<char>> {
    match workflow_named(ws.workflows, t.workflow_name) {
        Some(w) => walked(names_of(w.steps), t.journal),
        None => Seq::empty(),
    }
}

/// The walked steps of a task in a workspace, in closed form: none when the
/// workspace lacks the task's workflow; else exactly the step names of that
/// workflow whose verdict in the journal is a pass (the first entry sets it,
/// a suffixed entry ANDs its `ok` in, a plain entry resets it), each once, in
/// the order the journal first named them.
pub proof fn law_walked_in_workspace(ws: WorkspaceModel, t: TaskModel)
    ensures
        match workflow_named(ws.workflows, t.workflow_name) {
            None => walked_in(ws, t).len() == 0,
            Some(w) => {
                &&& forall|n: Seq<char>|
                    #[trigger] walked_in(ws, t).contains(n) <==> names_of(w.steps).contains(n)
                        && verdict_on(t.journal, n) == Some(true)
                &&& no_repeats(walked_in(ws, t))
                &&& forall|a: int, b: int|
                    0 <= a < b < walked_in(ws, t).len() ==> mentioned_before(
                        t.journal,
                        #[trigger] walked_in(ws, t)[a],
                        #[trigger] walked_in(ws, t)[b],
                    )
            },
        },
{
    match workflow_named(ws.workflows, t.workflow_name) {
        None => {},
        Some(w) => {
            law_walked_in_closed_form(names_of(w.steps), t.journal);
        },
    }
}

impl Workspace {
    /// The steps the task has walked on its workflow, in the order the
    /// journal first met them; none when the workspace lacks the workflow.
    pub fn done_steps(&self, task: &Task) -> (r: Vec<String>)
        ensures
            r.deep_view() == walked_in(self@, task@),
    {
        match self.workflow(task.workflow_name.as_str()) {
            Some(workflow) => task.done_steps(workflow),
            None => {
                let r: Vec<String> = Vec::new();
                assert(r.deep_view() =~= Seq::<Seq<char>>::empty());
                r
            },
        }
    }

    /// The first step of the task's workflow it has not walked; `None` when
    /// all were walked, or the workspace lacks the workflow.
    pub fn next_step(&self, task: &Task) -> (r: Option<String>)
        ensures
            r.deep_view() == match workflow_named(self@.workflows, task@.workflow_name) {
                Some(w) => next_of(task@, w),
                None => None,
            },
    {
        match self.workflow(task.workflow_name.as_str()) {
            Some(workflow) => task.next_step(workflow),
            None => None,
        }
    }

    /// The state line: the next step, or that all were walked; a workflow
    /// without steps, or one the workspace lacks, is said so by name.
    pub fn state_line(&self, task: &Task) -> (r: String)
        ensures
            r@ == workspace_state(self@, task@),
    {
        match self.workflow(task.workflow_name.as_str()) {
            None => {
                let mut out = chars_of("工作区里没有这条工作流：");
                push_str(&mut out, task.workflow_name.as_str());
                string_of(&out)
            },
            Some(workflow) => {
                if workflow.steps.len() == 0 {
                    let mut out = chars_of("这条工作流没有步骤：");
                    push_str(&mut out, workflow.name.as_str());
                    string_of(&out)
                } else {
                    progress_text(task, workflow)
                }
            },
        }
    }
}

} // verus!
