//! The traits that a business layer implements for its task types.

use vstd::prelude::*;

verus! {

/// A task status; the registry only asks whether it is terminal (no further
/// transitions) and whether reaching it should wake the agent.
pub trait TaskStatus: Clone + Sized {
    /// The status is final.
    closed spec fn terminal(&self) -> bool {
        arbitrary()
    }

    /// Reaching the status should wake the agent.
    closed spec fn wake_worthy(&self) -> bool {
        arbitrary()
    }

    fn is_terminal(&self) -> (b: bool)
        ensures
            b == self.terminal(),
    ;

    fn is_wake_worthy(&self) -> (b: bool)
        ensures
            b == self.wake_worthy(),
    ;
}

/// A task entry: task-specific data with an identifier and a status.
pub trait TaskEntry: Sized {
    type Status: TaskStatus;

    /// The identifier of the task.
    closed spec fn task_id(&self) -> Seq<char> {
        arbitrary()
    }

    /// The current status of the task.
    closed spec fn task_status(&self) -> Self::Status {
        arbitrary()
    }

    /// The entry with its status replaced by `status` and all else kept.
    closed spec fn with_status(&self, status: Self::Status) -> Self {
        arbitrary()
    }

    fn id(&self) -> (r: &str)
        ensures
            r@ == self.task_id(),
    ;

    fn status(&self) -> (r: &Self::Status)
        ensures
            *r == self.task_status(),
    ;

    fn set_status(&mut self, status: Self::Status)
        ensures
            *final(self) == old(self).with_status(status),
            final(self).task_status() == status,
            final(self).task_id() == old(self).task_id(),
    ;
}

/// Asynchronous work that the agent tracks.
pub trait InflightWork {
    /// The number of running tasks.
    fn running_count(&self) -> usize;

    /// A human-readable description of what runs.
    fn description(&self) -> String;
}

} // verus!
