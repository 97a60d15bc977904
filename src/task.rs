use vstd::prelude::*;

use crate::datetime::DateTime;
use crate::priority::Priority;

verus! {

/// One unit of work.
#[derive(Clone, Debug)]
pub struct Task {
    pub description: String,
    pub completed: bool,
    pub priority: Priority,
    pub due_time: Option<DateTime>,
}

/// The mathematical value of a task.
pub struct TaskView {
    pub description: Seq<char>,
    pub completed: bool,
    pub priority: Priority,
    pub due_time: Option<DateTime>,
}

impl View for Task {
    type V = TaskView;

    open spec fn view(&self) -> TaskView {
        TaskView {
            description: self.description@,
            completed: self.completed,
            priority: self.priority,
            due_time: self.due_time,
        }
    }
}

/// A task whose due time, if any, is a real moment.
pub open spec fn task_wf(t: TaskView) -> bool {
    t.due_time matches Some(d) ==> d.wf()
}

impl Task {
    /// A new, not yet completed task.
    pub fn new(description: String, priority: Priority, due_time: Option<DateTime>) -> (r: Task)
        ensures
            r@ == (TaskView {
                description: description@,
                completed: false,
                priority,
                due_time,
            }),
    {
        Task { description, completed: false, priority, due_time }
    }

    /// A duplicate of `self`, equal in every field.
    pub fn duplicate(&self) -> (r: Task)
        ensures
            r@ == self@,
    {
        Task {
            description: self.description.clone(),
            completed: self.completed,
            priority: self.priority,
            due_time: self.due_time,
        }
    }
}

} // verus!
