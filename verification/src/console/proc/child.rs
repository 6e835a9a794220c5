//! The rows under a process: its hooks, health checks and dependencies.

use crate::config::health::HookEvent;
use crate::kernel::path::{path_depth, path_name, path_parent, TaskPath};
use crate::kernel::task::{TaskId, TaskStatus};
use crate::term::screen::SharedVt;
use crate::text::{from_chars, has_prefix, parse_usize, parsed_usize, to_chars};
use vstd::prelude::*;

verus! {

#[derive(Clone, Copy, Debug, Eq, PartialEq, Hash, Structural)]
pub enum ChildKind {
    Hook(HookEvent),
    /// A health check, by its place in the list of the process.
    Check(usize),
    Deps,
}

#[derive(Clone, Copy, Debug, Eq, PartialEq, Structural)]
pub enum ChildStatus {
    /// Not run yet.
    Idle,
    Running,
    /// The exit code of the last run; a check that passed has zero.
    LastExit(i32),
}

/// A run that is over sooner than this is not shown as running.
pub const RUN_PILL_DEBOUNCE_MS: u64 = 300;

pub struct ChildRow {
    pub task_id: Option<TaskId>,
    pub kind: ChildKind,
    pub name: String,
    pub vt: SharedVt,
    pub status: ChildStatus,
    pub last_stable_status: ChildStatus,
    /// The time of the last status change, in milliseconds.
    pub status_changed_at: Option<u64>,
}

/// A row, by its characters.
#[verifier::ext_equal]
pub struct ChildModel {
    pub task_id: Option<TaskId>,
    pub kind: ChildKind,
    pub name: Seq<char>,
    pub vt: SharedVt,
    pub status: ChildStatus,
    pub last_stable_status: ChildStatus,
    pub status_changed_at: Option<u64>,
}

impl View for ChildRow {
    type V = ChildModel;

    open spec fn view(&self) -> ChildModel {
        ChildModel {
            task_id: self.task_id,
            kind: self.kind,
            name: self.name@,
            vt: self.vt,
            status: self.status,
            last_stable_status: self.last_stable_status,
            status_changed_at: self.status_changed_at,
        }
    }
}

/// The signed number with the same bits.
pub open spec fn as_signed(code: u32) -> i32 {
    if code < 0x8000_0000 {
        code as i32
    } else {
        (code - 0x1_0000_0000) as i32
    }
}

/// What a row shows for the status of its task.
pub open spec fn status_shown(status: TaskStatus) -> ChildStatus {
    match status {
        TaskStatus::NotStarted => ChildStatus::Idle,
        TaskStatus::Starting => ChildStatus::Running,
        TaskStatus::Running => ChildStatus::Running,
        TaskStatus::Unhealthy => ChildStatus::LastExit(1),
        TaskStatus::Completed => ChildStatus::LastExit(0),
        TaskStatus::Exited(code) => ChildStatus::LastExit(as_signed(code)),
    }
}

impl ChildModel {
    pub open spec fn idle(
        task_id: Option<TaskId>,
        kind: ChildKind,
        name: Seq<char>,
        vt: SharedVt,
    ) -> ChildModel {
        ChildModel {
            task_id,
            kind,
            name,
            vt,
            status: ChildStatus::Idle,
            last_stable_status: ChildStatus::Idle,
            status_changed_at: None,
        }
    }

    pub open spec fn with_status(self, status: ChildStatus, now: u64) -> ChildModel {
        ChildModel {
            last_stable_status: if self.status is Running {
                self.last_stable_status
            } else {
                self.status
            },
            status,
            status_changed_at: Some(now),
            ..self
        }
    }

    /// The status to show: a run that has only just begun shows the status
    /// before it.
    pub open spec fn shown(self, now: u64) -> ChildStatus {
        if self.status is Running && self.status_changed_at is Some && now
            - self.status_changed_at->0 < RUN_PILL_DEBOUNCE_MS {
            self.last_stable_status
        } else {
            self.status
        }
    }
}

impl ChildRow {
    pub fn new(task_id: Option<TaskId>, kind: ChildKind, name: String, vt: SharedVt) -> (r: Self)
        ensures
            r@ == ChildModel::idle(task_id, kind, name@, vt),
    {
        ChildRow {
            task_id,
            kind,
            name,
            vt,
            status: ChildStatus::Idle,
            last_stable_status: ChildStatus::Idle,
            status_changed_at: None,
        }
    }

    pub fn set_status(&mut self, status: ChildStatus, now: u64)
        ensures
            final(self)@ == old(self)@.with_status(status, now),
    {
        match self.status {
            ChildStatus::Running => {},
            _ => {
                self.last_stable_status = self.status;
            },
        }
        self.status = status;
        self.status_changed_at = Some(now);
    }

    pub fn apply_task_status(&mut self, status: TaskStatus, now: u64)
        ensures
            final(self)@ == old(self)@.with_status(status_shown(status), now),
    {
        let mapped = match status {
            TaskStatus::NotStarted => ChildStatus::Idle,
            TaskStatus::Starting | TaskStatus::Running => ChildStatus::Running,
            TaskStatus::Unhealthy => ChildStatus::LastExit(1),
            TaskStatus::Completed => ChildStatus::LastExit(0),
            TaskStatus::Exited(code) => ChildStatus::LastExit(to_signed(code)),
        };
        self.set_status(mapped, now);
    }

    pub fn displayed_status(&self, now: u64) -> (r: ChildStatus)
        ensures
            r == self@.shown(now),
    {
        match self.status {
            ChildStatus::Running => {
                if let Some(changed_at) = self.status_changed_at {
                    if now < changed_at || now - changed_at < RUN_PILL_DEBOUNCE_MS {
                        return self.last_stable_status;
                    }
                }
            },
            _ => {},
        }
        self.status
    }
}

pub fn to_signed(code: u32) -> (r: i32)
    ensures
        r == as_signed(code),
{
    if code < 0x8000_0000 {
        code as i32
    } else {
        (code as i64 - 0x1_0000_0000) as i32
    }
}

/// A short run never shows: while a run is within the debounce time, the row
/// shows what it showed when it was last at rest.
pub proof fn short_run_is_not_shown(row: ChildModel, started: u64, now: u64)
    requires
        !(row.status is Running),
        now - started < RUN_PILL_DEBOUNCE_MS,
    ensures
        row.with_status(ChildStatus::Running, started).shown(now) == row.status,
{
}

/// Once the debounce time is over a run shows.
pub proof fn long_run_is_shown(row: ChildModel, started: u64, now: u64)
    requires
        now - started >= RUN_PILL_DEBOUNCE_MS,
    ensures
        row.with_status(ChildStatus::Running, started).shown(now) is Running,
{
}

/// The row that a path segment stands for.
pub open spec fn kind_of_segment(seg: Seq<char>) -> Option<ChildKind> {
    if "check_"@.is_prefix_of(seg) {
        match parsed_usize(seg.skip("check_"@.len() as int)) {
            Some(i) => Some(ChildKind::Check(i)),
            None => None,
        }
    } else if "hook_"@.is_prefix_of(seg) {
        match HookEvent::named(seg.skip("hook_"@.len() as int)) {
            Some(event) => Some(ChildKind::Hook(event)),
            None => None,
        }
    } else {
        None
    }
}

pub fn child_kind_from_segment(seg: &str) -> (r: Option<ChildKind>)
    ensures
        r == kind_of_segment(seg@),
{
    let cs = to_chars(seg);
    proof {
        reveal_strlit("check_");
        reveal_strlit("hook_");
    }
    if has_prefix(&cs, "check_") {
        return match parse_usize(&cs, 6) {
            Some(i) => Some(ChildKind::Check(i)),
            None => None,
        };
    }
    if has_prefix(&cs, "hook_") {
        let event = from_chars(&cs, 5, cs.len());
        proof {
            assert(event@ =~= seg@.skip(5));
        }
        return match HookEvent::parse(event.as_str()) {
            Some(event) => Some(ChildKind::Hook(event)),
            None => None,
        };
    }
    None
}

pub fn is_child_path(path: &TaskPath) -> (r: bool)
    ensures
        r == (path_depth(path@) >= 2),
{
    path.depth() >= 2
}

/// The row that the last segment of a path stands for.
pub fn child_kind_from_path(path: &TaskPath) -> (r: Option<ChildKind>)
    ensures
        r == kind_of_segment(path_name(path@)),
{
    child_kind_from_segment(path.name().as_str())
}

/// The path of the process that a row belongs to.
pub fn proc_path_of(path: &TaskPath) -> (r: Option<TaskPath>)
    ensures
        match r {
            Some(p) => path_parent(path@) == Some(p@),
            None => path_parent(path@) is None,
        },
{
    path.parent()
}

} // verus!
