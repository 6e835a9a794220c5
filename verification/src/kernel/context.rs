//! Task ids.

use crate::kernel::task::TaskId;
use vstd::prelude::*;

verus! {

/// A task's view of the system: its own id and the ids that are still free.
pub struct TaskContext {
    pub task_id: TaskId,
    pub next_id: usize,
}

impl TaskContext {
    /// Whether `n` more ids can be handed out.
    pub open spec fn has_ids(self, n: nat) -> bool {
        self.next_id + n <= usize::MAX
    }

    /// Hands out an id that was not used before.
    pub fn alloc_id(&mut self) -> (r: TaskId)
        requires
            old(self).has_ids(1),
        ensures
            r == TaskId(old(self).next_id),
            final(self).next_id == old(self).next_id + 1,
            final(self).task_id == old(self).task_id,
    {
        let id = TaskId(self.next_id);
        self.next_id = self.next_id + 1;
        id
    }
}

} // verus!
