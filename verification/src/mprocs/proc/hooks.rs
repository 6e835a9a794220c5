//! Lifecycle hooks.

use crate::task::hooks::{hook_verdict, judge_hook};
use vstd::prelude::*;

pub use crate::task::hooks::{
    hook_result, plan_hook, to_crlf, EnvOverrides, HookError, HookResult, HookRun,
};

verus! {

/// The code that is reported when a hook could not be run.
pub const HOOK_IO_ERROR: u32 = 254;

/// Whether a transition goes on after a hook, and the exit code that is
/// reported for it. A hook that nobody waits for never holds one up.
pub open spec fn hook_outcome(res: HookResult, async_: bool) -> (bool, u32) {
    (hook_verdict(res, HOOK_IO_ERROR).0 || async_, hook_verdict(res, HOOK_IO_ERROR).1)
}

pub fn conclude_hook(res: &HookResult, async_: bool) -> (r: (bool, u32))
    ensures
        r == hook_outcome(*res, async_),
{
    let (ok, code) = judge_hook(res, HOOK_IO_ERROR);
    (ok || async_, code)
}

} // verus!
