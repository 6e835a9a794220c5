//! Who is told when a child process exits.

use std::collections::HashMap;
use vstd::prelude::*;
use vstd::std_specs::hash::{group_hash_axioms, spec_keys_iter};
use vstd::std_specs::iter::IteratorSpec;

verus! {

/// What the system says of a child process.
#[derive(Clone, Copy, Debug, PartialEq, Eq, Structural)]
pub enum WaitReply {
    /// It exited with this wait status.
    Exited(i32),
    StillRunning,
    /// It cannot be waited for; there may be no such child at all.
    Failed { no_child: bool },
}

/// What is done after the system was asked about a child process.
#[derive(Clone, Copy, Debug, PartialEq, Eq)]
pub struct Settled {
    /// The listener to call and the wait status to call it with.
    pub fire: Option<(usize, i32)>,
    /// The failure is worth a line in the log.
    pub log: bool,
}

/// The listeners, by process id. A listener is known by its number.
pub struct UnixProcessesWaiter {
    listeners: HashMap<i32, usize>,
}

impl View for UnixProcessesWaiter {
    type V = Map<i32, usize>;

    closed spec fn view(&self) -> Map<i32, usize> {
        self.listeners@
    }
}

impl UnixProcessesWaiter {
    pub fn new() -> (r: Self)
        ensures
            r@ == Map::<i32, usize>::empty(),
    {
        UnixProcessesWaiter { listeners: HashMap::new() }
    }

    /// A listener waits for a process: one that exited already is reported at
    /// once, any other when it exits.
    pub fn wait_for(&mut self, pid: i32, listener: usize, reply: WaitReply) -> (r: Option<
        (usize, i32),
    >)
        ensures
            match reply {
                WaitReply::Exited(status) => r == Some((listener, status)) && final(self)@
                    == old(self)@,
                _ => r is None && final(self)@ == old(self)@.insert(pid, listener),
            },
    {
        broadcast use group_hash_axioms;

        match reply {
            WaitReply::Exited(status) => Some((listener, status)),
            _ => {
                self.listeners.insert(pid, listener);
                None
            },
        }
    }

    /// The processes to ask the system about, each of them once.
    pub fn pids(&self) -> (r: Vec<i32>)
        ensures
            forall|pid: i32| r@.contains(pid) <==> #[trigger] self@.dom().contains(pid),
            r@.no_duplicates(),
    {
        broadcast use group_hash_axioms;

        let mut out: Vec<i32> = Vec::new();
        for pid in it: self.listeners.keys()
            invariant
                it.seq() == spec_keys_iter(&self.listeners).remaining(),
                out@.len() == it.index(),
                forall|k: int| 0 <= k < out@.len() ==> #[trigger] out@[k] == *it.seq()[k],
        {
            out.push(*pid);
        }
        proof {
            let keys = spec_keys_iter(&self.listeners).remaining();
            assert(out@ =~= keys.unref());
            assert forall|pid: i32| out@.contains(pid) <==> #[trigger] self@.dom().contains(
                pid,
            ) by {
                assert(keys.unref().to_set().contains(pid) <==> keys.unref().contains(pid));
            }
            assert forall|i: int, j: int|
                0 <= i < out@.len() && 0 <= j < out@.len() && i != j implies out@[i]
                != out@[j] by {
                assert(keys[i] != keys[j]);
            }
        }
        out
    }

    /// Takes what the system says of a process: a listener is called once the
    /// process exited, and is forgotten then or when there is nothing to wait
    /// for.
    pub fn settle(&mut self, pid: i32, reply: WaitReply) -> (r: Settled)
        ensures
            final(self)@ == (if reply is StillRunning {
                old(self)@
            } else {
                old(self)@.remove(pid)
            }),
            r.fire == (match reply {
                WaitReply::Exited(status) => if old(self)@.dom().contains(pid) {
                    Some((old(self)@[pid], status))
                } else {
                    None
                },
                _ => None,
            }),
            r.log == (reply matches WaitReply::Failed { no_child } && !no_child),
    {
        broadcast use group_hash_axioms;

        match reply {
            WaitReply::Exited(status) => match self.listeners.remove(&pid) {
                Some(listener) => Settled { fire: Some((listener, status)), log: false },
                None => Settled { fire: None, log: false },
            },
            WaitReply::StillRunning => Settled { fire: None, log: false },
            WaitReply::Failed { no_child } => {
                self.listeners.remove(&pid);
                Settled { fire: None, log: !no_child }
            },
        }
    }
}

} // verus!
