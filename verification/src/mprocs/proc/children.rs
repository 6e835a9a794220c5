//! The rows under a process: its hooks and health checks.

use crate::console::proc::child::RUN_PILL_DEBOUNCE_MS;
use crate::kernel::task::TaskId;
use crate::term::screen::SharedVt;
use std::sync::Arc;
use vstd::prelude::*;

pub use crate::console::proc::child::{ChildKind, ChildStatus};
pub use crate::task::child_vt::{
    new_child_vt, CHILD_VT_HEIGHT, CHILD_VT_SCROLLBACK, CHILD_VT_WIDTH,
};

verus! {

pub struct ProcChild {
    pub task_id: TaskId,
    pub kind: ChildKind,
    /// What is shown, such as `started` or `check[2]`.
    pub name: String,
    pub vt: SharedVt,
    pub status: ChildStatus,
    pub last_stable_status: ChildStatus,
    /// The time of the last status change, in milliseconds.
    pub status_changed_at: Option<u64>,
}

#[verifier::ext_equal]
pub struct ProcChildModel {
    pub task_id: TaskId,
    pub kind: ChildKind,
    pub name: Seq<char>,
    pub vt: SharedVt,
    pub status: ChildStatus,
    pub last_stable_status: ChildStatus,
    pub status_changed_at: Option<u64>,
}

impl View for ProcChild {
    type V = ProcChildModel;

    open spec fn view(&self) -> ProcChildModel {
        ProcChildModel {
            task_id: self.task_id,
            kind: self.kind,
            name: self.name@,
            vt: self.vt,
            status: self.status,
            last_stable_status: self.last_stable_status,
            status_changed_at: self.status_changed_at,
        }
    }
}

impl ProcChildModel {
    pub open spec fn idle(
        task_id: TaskId,
        kind: ChildKind,
        name: Seq<char>,
        vt: SharedVt,
    ) -> ProcChildModel {
        ProcChildModel {
            task_id,
            kind,
            name,
            vt,
            status: ChildStatus::Idle,
            last_stable_status: ChildStatus::Idle,
            status_changed_at: None,
        }
    }

    /// The status to show: a run that has only just begun shows the status
    /// before it.
    pub open spec fn shown(self, now: u64) -> ChildStatus {
        if self.status is Running && self.status_changed_at is Some && now
            - self.status_changed_at->0 < RUN_PILL_DEBOUNCE_MS {
            self.last_stable_status
        } else {
            self.status
        }
    }
}

impl ProcChild {
    pub fn new(task_id: TaskId, kind: ChildKind, name: String, vt: SharedVt) -> (r: Self)
        ensures
            r@ == ProcChildModel::idle(task_id, kind, name@, vt),
    {
        ProcChild {
            task_id,
            kind,
            name,
            vt,
            status: ChildStatus::Idle,
            last_stable_status: ChildStatus::Idle,
            status_changed_at: None,
        }
    }

    pub fn displayed_status(&self, now: u64) -> (r: ChildStatus)
        ensures
            r == self@.shown(now),
    {
        match self.status {
            ChildStatus::Running => {
                if let Some(changed_at) = self.status_changed_at {
                    if now < changed_at || now - changed_at < RUN_PILL_DEBOUNCE_MS {
                        return self.last_stable_status;
                    }
                }
            },
            _ => {},
        }
        self.status
    }
}

/// The terminal of a row, as the process and its checks share it.
pub struct ChildVtInner {
    pub vt: SharedVt,
}

pub type ChildVtHandle = Arc<ChildVtInner>;

pub fn make_child_vt_handle(vt: SharedVt) -> (r: ChildVtHandle)
    ensures
        r.vt == vt,
{
    Arc::new(ChildVtInner { vt })
}

} // verus!
