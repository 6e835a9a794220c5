//! The state of a process that the classic interface keeps.

use crate::kernel::task::{TaskId, TaskStatus};
use crate::mprocs::config::ProcConfig;
use crate::mprocs::proc::children::ProcChild;
use crate::mprocs::proc::copy_mode::CopyMode;
use crate::term::screen::{Screen, SharedVt, VtTable};
use vstd::prelude::*;

verus! {

/// A process that was up for less than this is not restarted.
pub const RESTART_THRESHOLD_MS: u64 = 1000;

#[derive(Clone, Copy, Debug, PartialEq, Eq, Structural)]
pub enum TargetState {
    Unset,
    Started,
    Stopped,
}

pub struct ProcView {
    pub id: TaskId,
    pub cfg: ProcConfig,
    pub status: TaskStatus,
    pub vt: SharedVt,
    pub copy_mode: CopyMode,
    pub target_state: TargetState,
    /// The time of the last start, in milliseconds.
    pub last_start: Option<u64>,
    pub changed: bool,
    /// Hooks, then checks.
    pub children: Vec<ProcChild>,
    pub expanded: bool,
    pub focused_child: Option<usize>,
}

/// The screen that is shown for a process.
pub enum ProcViewFrame<'a> {
    Empty,
    Vt(&'a Screen),
}

impl ProcView {
    /// A process that was not started yet.
    pub open spec fn fresh(self, id: TaskId, cfg: ProcConfig, vt: SharedVt) -> bool {
        &&& self.id == id
        &&& self.cfg == cfg
        &&& self.status is NotStarted
        &&& self.vt == vt
        &&& self.copy_mode is Inactive
        &&& self.target_state is Unset
        &&& self.last_start is None
        &&& !self.changed
        &&& !self.expanded
        &&& self.focused_child is None
    }

    pub fn new(id: TaskId, cfg: ProcConfig, vt: SharedVt) -> (r: Self)
        ensures
            r.fresh(id, cfg, vt),
            r.children@ == Seq::<ProcChild>::empty(),
    {
        ProcView::new_with_children(id, cfg, vt, Vec::new())
    }

    pub fn new_with_children(
        id: TaskId,
        cfg: ProcConfig,
        vt: SharedVt,
        children: Vec<ProcChild>,
    ) -> (r: Self)
        ensures
            r.fresh(id, cfg, vt),
            r.children == children,
    {
        ProcView {
            id,
            cfg,
            status: TaskStatus::NotStarted,
            vt,
            copy_mode: CopyMode::Inactive,
            target_state: TargetState::Unset,
            last_start: None,
            changed: false,
            children,
            expanded: false,
            focused_child: None,
        }
    }

    /// The terminal to show: that of the focused row, or that of the process.
    pub open spec fn shown_vt(self) -> SharedVt {
        match self.focused_child {
            Some(i) => if i < self.children@.len() {
                self.children@[i as int].vt
            } else {
                self.vt
            },
            None => self.vt,
        }
    }

    pub fn focused_vt(&self) -> (r: &SharedVt)
        ensures
            *r == self.shown_vt(),
    {
        match self.focused_child {
            Some(i) => {
                if i < self.children.len() {
                    &self.children[i].vt
                } else {
                    &self.vt
                }
            },
            None => &self.vt,
        }
    }

    pub fn rename(&mut self, name: &str)
        ensures
            final(self).cfg.name@ == name@,
            *final(self) == (ProcView {
                cfg: ProcConfig { name: final(self).cfg.name, ..old(self).cfg },
                ..*old(self)
            }),
    {
        self.cfg.name = name.to_owned();
    }

    pub fn id(&self) -> (r: TaskId)
        ensures
            r == self.id,
    {
        self.id
    }

    pub fn exit_code(&self) -> (r: Option<u32>)
        ensures
            r == self.status.code(),
    {
        self.status.exit_code()
    }

    pub fn lock_view<'a>(&self, vts: &'a VtTable) -> (r: ProcViewFrame<'a>)
        ensures
            match r {
                ProcViewFrame::Empty => vts.screen(self.shown_vt()) is None,
                ProcViewFrame::Vt(screen) => vts.screen(self.shown_vt()) == Some(*screen),
            },
    {
        match vts.read(*self.focused_vt()) {
            Some(screen) => ProcViewFrame::Vt(screen),
            None => ProcViewFrame::Empty,
        }
    }

    pub fn name(&self) -> (r: &str)
        ensures
            r@ == self.cfg.name@,
    {
        self.cfg.name.as_str()
    }

    pub fn is_up(&self) -> (r: bool)
        ensures
            r == self.status.up(),
    {
        self.status.is_up()
    }

    pub fn is_starting(&self) -> (r: bool)
        ensures
            r == (self.status is Starting),
    {
        match self.status {
            TaskStatus::Starting => true,
            _ => false,
        }
    }

    pub fn is_unhealthy(&self) -> (r: bool)
        ensures
            r == (self.status is Unhealthy),
    {
        match self.status {
            TaskStatus::Unhealthy => true,
            _ => false,
        }
    }

    pub fn copy_mode(&self) -> (r: &CopyMode)
        ensures
            *r == self.copy_mode,
    {
        &self.copy_mode
    }

    pub fn focus(&mut self)
        ensures
            *final(self) == (ProcView { changed: false, ..*old(self) }),
    {
        self.changed = false;
    }
}

} // verus!
