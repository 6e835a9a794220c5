//! Commands to the screen of a task.

use crate::kernel::task::TaskId;
use crate::term::mouse::MouseEvent;
use vstd::prelude::*;

verus! {

/// The size of a terminal in cells and in pixels.
#[derive(Clone, Copy, Debug, PartialEq, Eq, Structural)]
pub struct Winsize {
    pub x: u16,
    pub y: u16,
    pub x_px: u16,
    pub y_px: u16,
}

impl Winsize {
    pub open spec fn of_cells(x: u16, y: u16) -> Winsize {
        Winsize { x, y, x_px: 0, y_px: 0 }
    }

    pub fn cells(x: u16, y: u16) -> (r: Winsize)
        ensures
            r == Winsize::of_cells(x, y),
    {
        Winsize { x, y, x_px: 0, y_px: 0 }
    }
}

/// A movement of the copy-mode cursor.
#[derive(Clone, Copy, Debug, PartialEq, Eq, Structural)]
pub enum CopyMove {
    Up,
    Down,
    Left,
    Right,
}

#[derive(Clone, Copy, Debug, PartialEq, Eq, Structural)]
pub enum TaskScreenCmd {
    Observe { size: Winsize, observer_id: TaskId },
    Resize { size: Winsize, observer_id: TaskId },
    Mouse { event: MouseEvent },
    Scroll { delta: i32 },
    CopyEnter,
    CopyLeave,
    CopyMove { dir: CopyMove },
    CopyBeginSelection,
    CopyYank,
}

} // verus!
