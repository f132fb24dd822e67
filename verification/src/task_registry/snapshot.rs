//! Read-only views of a task.

use vstd::prelude::*;
use std::time::{Duration, Instant};
use crate::clock::{elapsed_since, instant_diff, instant_sub};
use crate::task_registry::traits::{TaskEntry, TaskStatus};

verus! {

/// A copy of a task's state, taken without holding on to the registry.
pub struct Snapshot<E: TaskEntry> {
    /// Task identifier.
    pub id: String,
    /// Copy of the task entry.
    pub entry: E,
    /// When the task was registered.
    pub created_at: Instant,
    /// When the task reached a terminal state through the registry.
    pub finished_at: Option<Instant>,
}

impl<E: TaskEntry> Snapshot<E> {
    /// Whether the task's status is terminal.
    pub fn is_terminal(&self) -> (b: bool)
        ensures
            b == self.entry.task_status().terminal(),
    {
        self.entry.status().is_terminal()
    }

    /// Time since the task was registered.
    pub fn elapsed(&self) -> Duration {
        elapsed_since(&self.created_at)
    }

    /// How long the task ran, once it has finished: from its registration
    /// to its finishing instant.
    pub fn duration(&self) -> (d: Option<Duration>)
        ensures
            d == match self.finished_at {
                Some(finished) => Some(instant_sub(finished, self.created_at)),
                None => None::<Duration>,
            },
    {
        match &self.finished_at {
            Some(finished) => Some(instant_diff(finished, &self.created_at)),
            None => None,
        }
    }
}

} // verus!
