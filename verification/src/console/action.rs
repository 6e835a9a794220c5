//! What the console can be told to do.

use crate::kernel::screen_cmd::CopyMove as KernelCopyMove;
use crate::kernel::task::TaskId;
use crate::term::key::Key;
use vstd::prelude::*;

verus! {

/// A connection to the console.
#[derive(Clone, Copy, Debug, PartialEq, Eq, Structural)]
pub struct ClientId(pub u32);

#[derive(Clone, Copy, Debug, PartialEq, Eq, Structural)]
pub enum CopyMove {
    Up,
    Down,
    Left,
    Right,
}

#[derive(Debug)]
pub enum Action {
    Batch { cmds: Vec<Action> },
    QuitOrAsk,
    Quit,
    ForceQuit,
    Detach { client_id: ClientId },
    ToggleFocus,
    FocusProcs,
    FocusTerm,
    Zoom,
    ShowCommandsMenu,
    NextProc,
    PrevProc,
    SelectProc { index: usize },
    ToggleProcChildren,
    StartProc,
    TermProc,
    KillProc,
    RestartProc,
    RestartAll,
    ForceRestartProc,
    ForceRestartAll,
    ScrollUpLines { n: usize },
    ScrollDownLines { n: usize },
    ScrollUp,
    ScrollDown,
    ShowAddProc,
    AddProc { cmd: String, name: Option<String> },
    DuplicateProc,
    ShowRemoveProc,
    RemoveProc { id: TaskId },
    CloseCurrentModal,
    ShowRenameProc,
    RenameProc { name: String },
    CopyModeEnter,
    CopyModeLeave,
    CopyModeMove { dir: CopyMove },
    CopyModeEnd,
    CopyModeCopy,
    ToggleKeymapWindow,
    SendKey { key: Key },
}

/// A movement as the screen of a task knows it.
pub open spec fn copy_move(dir: CopyMove) -> KernelCopyMove {
    match dir {
        CopyMove::Up => KernelCopyMove::Up,
        CopyMove::Down => KernelCopyMove::Down,
        CopyMove::Left => KernelCopyMove::Left,
        CopyMove::Right => KernelCopyMove::Right,
    }
}

pub fn kernel_copy_move(dir: CopyMove) -> (r: KernelCopyMove)
    ensures
        r == copy_move(dir),
{
    match dir {
        CopyMove::Up => KernelCopyMove::Up,
        CopyMove::Down => KernelCopyMove::Down,
        CopyMove::Left => KernelCopyMove::Left,
        CopyMove::Right => KernelCopyMove::Right,
    }
}

} // verus!
