//! Messages to and from a process.

use crate::config::health::HookEvent;
use crate::term::key::Key;
use crate::term::mouse::MouseEvent;
use vstd::prelude::*;

verus! {

#[derive(Clone, Copy, Debug, PartialEq, Eq, Structural)]
pub enum ProcMsg {
    SendKey(Key),
    SendMouse(MouseEvent),
    ScrollUp,
    ScrollDown,
    ScrollUpLines { n: usize },
    ScrollDownLines { n: usize },
    /// Run a lifecycle hook by hand, whatever the status of the process.
    RerunHook(HookEvent),
    /// Run a health check by hand.
    RerunCheck(usize),
}

#[derive(Clone, Copy, Debug, PartialEq, Eq, Structural)]
pub enum ProcEvent {
    Exited(u32),
    Started,
}

} // verus!
