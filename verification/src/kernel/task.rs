//! What a task is to the rest of the system.

use vstd::prelude::*;

verus! {

#[derive(Clone, Copy, Debug, PartialEq, Eq, Hash, Structural)]
pub struct TaskId(pub usize);

/// Where a task is in its lifecycle.
#[derive(Clone, Copy, Debug, PartialEq, Eq, Structural)]
pub enum TaskStatus {
    NotStarted,
    /// Spawned but not ready yet.
    Starting,
    Running,
    Unhealthy,
    /// A one-shot that exited with zero.
    Completed,
    Exited(u32),
}

impl TaskStatus {
    /// Whether an instance of the task is alive.
    pub open spec fn up(self) -> bool {
        self is Starting || self is Running || self is Unhealthy
    }

    pub fn is_up(self) -> (r: bool)
        ensures
            r == self.up(),
    {
        match self {
            TaskStatus::Starting | TaskStatus::Running | TaskStatus::Unhealthy => true,
            TaskStatus::NotStarted | TaskStatus::Completed | TaskStatus::Exited(_) => false,
        }
    }

    /// Whether what depends on the task may start.
    pub open spec fn releases_dependents(self) -> bool {
        self is Running || self is Completed
    }

    pub open spec fn code(self) -> Option<u32> {
        match self {
            TaskStatus::Exited(code) => Some(code),
            _ => None,
        }
    }

    pub fn exit_code(self) -> (r: Option<u32>)
        ensures
            r == self.code(),
    {
        match self {
            TaskStatus::Exited(code) => Some(code),
            _ => None,
        }
    }
}

} // verus!
