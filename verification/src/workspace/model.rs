//! The workspace model: the loaded workflow definitions and tasks.

use crate::task::model::{Task, TaskModel};
use crate::text::{chars_of, same_chars};
use crate::workflow::model::{Workflow, WorkflowModel};
use vstd::prelude::*;

verus! {

/// A workspace: the definitions and tasks loaded into it.
#[derive(Debug, Clone, PartialEq, Eq)]
pub struct Workspace {
    pub workflows: Vec<Workflow>,
    pub tasks: Vec<Task>,
}

/// The view of a [`Workspace`].
pub struct WorkspaceModel {
    pub workflows: Seq<WorkflowModel>,
    pub tasks: Seq<TaskModel>,
}

impl View for Workspace {
    type V = WorkspaceModel;

    open spec fn view(&self) -> WorkspaceModel {
        WorkspaceModel {
            workflows: self.workflows@.map_values(|w: Workflow| w@),
            tasks: self.tasks@.map_values(|t: Task| t@),
        }
    }
}

/// The first workflow with this name.
pub open spec fn workflow_named(flows: Seq<WorkflowModel>, name: Seq<char>) -> Option<
    WorkflowModel,
>
    decreases flows.len(),
{
    if flows.len() == 0 {
        None
    } else if flows[0].name == name {
        Some(flows[0])
    } else {
        workflow_named(flows.drop_first(), name)
    }
}

/// Looking a workflow up by name finds the first loaded workflow with that
/// name, wherever it stands; it finds none only when no loaded workflow has
/// that name.
pub proof fn law_workflow_found_by_name(flows: Seq<WorkflowModel>, name: Seq<char>)
    ensures
        match workflow_named(flows, name) {
            Some(w) => exists|i: int|
                0 <= i < flows.len() && #[trigger] flows[i] == w && w.name == name && forall|j: int|
                    0 <= j < i ==> flows[j].name != name,
            None => forall|i: int| 0 <= i < flows.len() ==> (#[trigger] flows[i]).name != name,
        },
    decreases flows.len(),
{
    if flows.len() > 0 && flows[0].name != name {
        let rest = flows.drop_first();
        law_workflow_found_by_name(rest, name);
        match workflow_named(rest, name) {
            Some(w) => {
                let i = choose|i: int|
                    0 <= i < rest.len() && #[trigger] rest[i] == w && w.name == name && forall|j: int|
                        0 <= j < i ==> rest[j].name != name;
                assert(flows[i + 1] == w);
                assert forall|j: int| 0 <= j < i + 1 implies flows[j].name != name by {
                    if j > 0 {
                        assert(flows[j] == rest[j - 1]);
                    }
                }
            },
            None => {
                assert forall|i: int| 0 <= i < flows.len() implies (#[trigger] flows[i]).name != name by {
                    if i > 0 {
                        assert(flows[i] == rest[i - 1]);
                    }
                }
            },
        }
    } else if flows.len() > 0 {
        assert(flows[0] == flows[0]);
    }
}

/// Looking a task up by name finds the first task with that name, wherever
/// it stands; it finds none only when no task has that name.
pub proof fn law_task_found_by_name(tasks: Seq<TaskModel>, name: Seq<char>)
    ensures
        match task_named(tasks, name) {
            Some(t) => exists|i: int|
                0 <= i < tasks.len() && #[trigger] tasks[i] == t && t.name == name && forall|j: int|
                    0 <= j < i ==> tasks[j].name != name,
            None => forall|i: int| 0 <= i < tasks.len() ==> (#[trigger] tasks[i]).name != name,
        },
    decreases tasks.len(),
{
    if tasks.len() > 0 && tasks[0].name != name {
        let rest = tasks.drop_first();
        law_task_found_by_name(rest, name);
        match task_named(rest, name) {
            Some(t) => {
                let i = choose|i: int|
                    0 <= i < rest.len() && #[trigger] rest[i] == t && t.name == name && forall|j: int|
                        0 <= j < i ==> rest[j].name != name;
                assert(tasks[i + 1] == t);
                assert forall|j: int| 0 <= j < i + 1 implies tasks[j].name != name by {
                    if j > 0 {
                        assert(tasks[j] == rest[j - 1]);
                    }
                }
            },
            None => {
                assert forall|i: int| 0 <= i < tasks.len() implies (#[trigger] tasks[i]).name != name by {
                    if i > 0 {
                        assert(tasks[i] == rest[i - 1]);
                    }
                }
            },
        }
    } else if tasks.len() > 0 {
        assert(tasks[0] == tasks[0]);
    }
}

/// The first task with this name.
pub open spec fn task_named(tasks: Seq<TaskModel>, name: Seq<char>) -> Option<TaskModel>
    decreases tasks.len(),
{
    if tasks.len() == 0 {
        None
    } else if tasks[0].name == name {
        Some(tasks[0])
    } else {
        task_named(tasks.drop_first(), name)
    }
}

impl Default for Workspace {
    /// An empty workspace.
    fn default() -> (w: Workspace)
        ensures
            w@.workflows.len() == 0,
            w@.tasks.len() == 0,
    {
        Workspace { workflows: Vec::new(), tasks: Vec::new() }
    }
}

impl Workspace {
    /// A workspace holding the loaded definitions and tasks.
    pub fn of(workflows: Vec<Workflow>, tasks: Vec<Task>) -> (w: Workspace)
        ensures
            w@.workflows == workflows@.map_values(|f: Workflow| f@),
            w@.tasks == tasks@.map_values(|t: Task| t@),
    {
        Workspace { workflows, tasks }
    }

    /// The loaded workflow with this name (the first, should two share it).
    pub fn workflow(&self, name: &str) -> (r: Option<&Workflow>)
        ensures
            match r {
                Some(w) => workflow_named(self@.workflows, name@) == Some(w@),
                None => workflow_named(self@.workflows, name@) is None,
            },
    {
        let ghost all = self@.workflows;
        let k = chars_of(name);
        let mut i: usize = 0;
        assert(all.skip(0) =~= all);
        while i < self.workflows.len()
            invariant
                i <= self.workflows.len(),
                all == self@.workflows,
                all.len() == self.workflows.len(),
                k@ == name@,
                workflow_named(all, name@) == workflow_named(all.skip(i as int), name@),
            decreases self.workflows.len() - i,
        {
            assert(all.skip(i as int).drop_first() =~= all.skip(i + 1));
            assert(all.skip(i as int)[0] == self.workflows@[i as int]@);
            let n = chars_of(self.workflows[i].name.as_str());
            if same_chars(&n, &k) {
                return Some(&self.workflows[i]);
            }
            i += 1;
        }
        assert(all.skip(self.workflows.len() as int) =~= Seq::<WorkflowModel>::empty());
        None
    }

    /// The loaded task with this name (the first, should two share it).
    pub fn task(&self, name: &str) -> (r: Option<&Task>)
        ensures
            match r {
                Some(t) => task_named(self@.tasks, name@) == Some(t@),
                None => task_named(self@.tasks, name@) is None,
            },
    {
        let ghost all = self@.tasks;
        let k = chars_of(name);
        let mut i: usize = 0;
        assert(all.skip(0) =~= all);
        while i < self.tasks.len()
            invariant
                i <= self.tasks.len(),
                all == self@.tasks,
                all.len() == self.tasks.len(),
                k@ == name@,
                task_named(all, name@) == task_named(all.skip(i as int), name@),
            decreases self.tasks.len() - i,
        {
            assert(all.skip(i as int).drop_first() =~= all.skip(i + 1));
            assert(all.skip(i as int)[0] == self.tasks@[i as int]@);
            let n = chars_of(self.tasks[i].name.as_str());
            if same_chars(&n, &k) {
                return Some(&self.tasks[i]);
            }
            i += 1;
        }
        assert(all.skip(self.tasks.len() as int) =~= Seq::<TaskModel>::empty());
        None
    }
}

} // verus!
