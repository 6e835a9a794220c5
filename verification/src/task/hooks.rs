//! Lifecycle hooks: what is run and what its outcome means.

use crate::config::health::HookDef;
use crate::config::vars::{substitute_vars, substituted, Vars};
use vstd::prelude::*;

verus! {

/// Why a hook did not succeed.
#[derive(Debug)]
pub enum HookError {
    /// It ran and exited with another code than zero.
    ExitCode(i32),
    /// It could not be run.
    IoError(String),
}

pub type HookResult = Result<(), HookError>;

/// Environment variables to set, or to remove.
pub type EnvOverrides = Vec<(String, Option<String>)>;

/// A hook as it is handed to the shell.
pub struct HookRun {
    pub cmd: String,
    /// Nobody waits for the outcome, which counts as a success.
    pub detached: bool,
}

/// The command of a hook, with its variables replaced.
pub fn plan_hook(hook: &HookDef, vars: &Vars) -> (r: HookRun)
    requires
        vars.wf(),
    ensures
        r.cmd@ == substituted(hook@.cmd, vars@),
        r.detached == hook@.async_,
{
    HookRun { cmd: substitute_vars(hook.cmd.as_str(), vars), detached: hook.async_ }
}

/// What the exit code of a hook, or the error of running it, means.
pub fn hook_result(exec: Result<i32, String>) -> (r: HookResult)
    ensures
        match exec {
            Ok(code) => if code == 0 {
                r is Ok
            } else {
                r == HookResult::Err(HookError::ExitCode(code))
            },
            Err(e) => r == HookResult::Err(HookError::IoError(e)),
        },
{
    match exec {
        Ok(code) => {
            if code == 0 {
                Ok(())
            } else {
                Err(HookError::ExitCode(code))
            }
        },
        Err(e) => Err(HookError::IoError(e)),
    }
}

/// The unsigned number with the same bits.
pub open spec fn as_unsigned(code: i32) -> u32 {
    if code >= 0 {
        code as u32
    } else {
        (code + 0x1_0000_0000) as u32
    }
}

pub fn to_unsigned(code: i32) -> (r: u32)
    ensures
        r == as_unsigned(code),
{
    if code >= 0 {
        code as u32
    } else {
        (code as i64 + 0x1_0000_0000) as u32
    }
}

/// The code that is reported when a hook could not be run.
pub const HOOK_IO_ERROR: u32 = 255;

/// Whether a hook succeeded and the exit code that is reported for it;
/// `io_error` is the code for one that could not be run.
pub open spec fn hook_verdict(res: HookResult, io_error: u32) -> (bool, u32) {
    match res {
        Ok(()) => (true, 0),
        Err(HookError::ExitCode(c)) => (false, as_unsigned(c)),
        Err(HookError::IoError(_)) => (false, io_error),
    }
}

pub fn judge_hook(res: &HookResult, io_error: u32) -> (r: (bool, u32))
    ensures
        r == hook_verdict(*res, io_error),
{
    match res {
        Ok(()) => (true, 0),
        Err(HookError::ExitCode(c)) => (false, to_unsigned(*c)),
        Err(HookError::IoError(_)) => (false, io_error),
    }
}

/// The last of some bytes that come after `prev`.
pub open spec fn last_byte(prev: u8, bytes: Seq<u8>) -> u8 {
    if bytes.len() == 0 {
        prev
    } else {
        bytes.last()
    }
}

/// Output bytes that come after `prev`, with a carriage return in front of
/// every line feed that has none.
pub open spec fn returns_after(prev: u8, bytes: Seq<u8>) -> Seq<u8>
    decreases bytes.len(),
{
    if bytes.len() == 0 {
        bytes
    } else {
        let rest = returns_after(prev, bytes.drop_last());
        if bytes.last() == 10 && last_byte(prev, bytes.drop_last()) != 13 {
            rest.push(13).push(10)
        } else {
            rest.push(bytes.last())
        }
    }
}

/// All of the output, with a carriage return in front of every line feed that
/// has none.
pub open spec fn with_returns(bytes: Seq<u8>) -> Seq<u8> {
    returns_after(0, bytes)
}

/// What is shown for output that is read in parts.
pub open spec fn shown_parts(prev: u8, parts: Seq<Seq<u8>>) -> Seq<u8>
    decreases parts.len(),
{
    if parts.len() == 0 {
        Seq::empty()
    } else {
        returns_after(prev, parts.first()) + shown_parts(
            last_byte(prev, parts.first()),
            parts.drop_first(),
        )
    }
}

proof fn lemma_two_parts(prev: u8, a: Seq<u8>, b: Seq<u8>)
    ensures
        returns_after(prev, a + b) == returns_after(prev, a) + returns_after(last_byte(prev, a), b),
        last_byte(prev, a + b) == last_byte(last_byte(prev, a), b),
    decreases b.len(),
{
    if b.len() == 0 {
        assert(a + b =~= a);
        assert(returns_after(prev, a) + returns_after(last_byte(prev, a), b) =~= returns_after(
            prev,
            a,
        ));
    } else {
        let t = b.drop_last();
        lemma_two_parts(prev, a, t);
        assert((a + b).drop_last() =~= a + t);
        assert((a + b).last() == b.last());
        assert(returns_after(prev, a + b) =~= returns_after(prev, a) + returns_after(
            last_byte(prev, a),
            b,
        ));
    }
}

proof fn lemma_parts(prev: u8, parts: Seq<Seq<u8>>)
    ensures
        shown_parts(prev, parts) == returns_after(prev, parts.flatten()),
    decreases parts.len(),
{
    if parts.len() > 0 {
        let first = parts.first();
        lemma_parts(last_byte(prev, first), parts.drop_first());
        lemma_two_parts(prev, first, parts.drop_first().flatten());
    }
}

/// However output is split over reads, what is shown for the parts is what is
/// shown for the whole.
pub proof fn split_output_is_shown_as_one(parts: Seq<Seq<u8>>)
    ensures
        shown_parts(0, parts) == with_returns(parts.flatten()),
{
    lemma_parts(0, parts);
}

proof fn lemma_feeds_follow_returns(prev: u8, bytes: Seq<u8>, i: int)
    requires
        0 <= i < returns_after(prev, bytes).len(),
        returns_after(prev, bytes)[i] == 10,
    ensures
        if i == 0 {
            prev == 13
        } else {
            returns_after(prev, bytes)[i - 1] == 13
        },
    decreases bytes.len(),
{
    let t = bytes.drop_last();
    let rest = returns_after(prev, t);
    assert(t.len() > 0 ==> rest.len() > 0 && rest.last() == t.last());
    if i < rest.len() {
        lemma_feeds_follow_returns(prev, t, i);
    }
}

/// Every line feed that is shown follows a carriage return.
pub proof fn line_feeds_follow_returns(bytes: Seq<u8>, i: int)
    requires
        0 <= i < with_returns(bytes).len(),
        with_returns(bytes)[i] == 10,
    ensures
        i > 0,
        with_returns(bytes)[i - 1] == 13,
{
    lemma_feeds_follow_returns(0, bytes, i);
}

proof fn lemma_nothing_else(prev: u8, bytes: Seq<u8>)
    ensures
        returns_after(prev, bytes).filter(|b: u8| b != 13) == bytes.filter(|b: u8| b != 13),
    decreases bytes.len(),
{
    reveal(Seq::filter);
    if bytes.len() > 0 {
        let other = |b: u8| b != 13;
        let t = bytes.drop_last();
        lemma_nothing_else(prev, t);
        let rest = returns_after(prev, t);
        let all = returns_after(prev, bytes);
        if bytes.last() == 10 && last_byte(prev, t) != 13 {
            assert(all.drop_last() =~= rest.push(13));
            assert(rest.push(13).drop_last() =~= rest);
            assert(rest.push(13).filter(other) =~= rest.filter(other));
        } else {
            assert(all.drop_last() =~= rest);
        }
    }
}

/// Nothing but carriage returns is added to the output, and nothing is lost.
pub proof fn output_is_kept(bytes: Seq<u8>)
    ensures
        with_returns(bytes).filter(|b: u8| b != 13) == bytes.filter(|b: u8| b != 13),
        (forall|i: int| 0 <= i < bytes.len() ==> #[trigger] bytes[i] != 10) ==> with_returns(bytes)
            == bytes,
{
    lemma_nothing_else(0, bytes);
    if forall|i: int| 0 <= i < bytes.len() ==> #[trigger] bytes[i] != 10 {
        lemma_no_feeds(0, bytes);
    }
}

proof fn lemma_no_feeds(prev: u8, bytes: Seq<u8>)
    requires
        forall|i: int| 0 <= i < bytes.len() ==> #[trigger] bytes[i] != 10,
    ensures
        returns_after(prev, bytes) == bytes,
    decreases bytes.len(),
{
    if bytes.len() > 0 {
        let t = bytes.drop_last();
        assert forall|i: int| 0 <= i < t.len() implies #[trigger] t[i] != 10 by {
            assert(bytes[i] != 10);
        }
        lemma_no_feeds(prev, t);
        assert(bytes.last() != 10);
        assert(t.push(bytes.last()) =~= bytes);
    }
}

/// A hook went well exactly if it ended with zero; else its code is kept, as far
/// as there is one.
pub proof fn hook_is_judged_by_its_code(res: HookResult, io_error: u32, c: i32)
    ensures
        hook_verdict(res, io_error).0 <==> res is Ok,
        res is Ok ==> hook_verdict(res, io_error).1 == 0,
        res == Err::<(), HookError>(HookError::ExitCode(c)) ==> {
            let code = hook_verdict(res, io_error).1;
            &&& c >= 0 ==> code == c
            &&& c < 0 ==> code == c + 0x1_0000_0000
        },
        res matches Err(HookError::IoError(_)) ==> hook_verdict(res, io_error).1 == io_error,
{
}

/// Turns bare line feeds into carriage return and line feed. `prev` is the
/// byte before `bytes`, zero at the start of the output; the last byte is
/// handed back for the bytes that come next.
pub fn to_crlf(prev: u8, bytes: &[u8]) -> (r: (Vec<u8>, u8))
    ensures
        r.0@ == returns_after(prev, bytes@),
        r.1 == last_byte(prev, bytes@),
{
    let mut out: Vec<u8> = Vec::new();
    let mut last: u8 = prev;
    let mut i: usize = 0;
    while i < bytes.len()
        invariant
            i <= bytes@.len(),
            out@ == returns_after(prev, bytes@.take(i as int)),
            last == last_byte(prev, bytes@.take(i as int)),
        decreases bytes@.len() - i,
    {
        let b = bytes[i];
        proof {
            assert(bytes@.take(i + 1).drop_last() =~= bytes@.take(i as int));
        }
        if b == 10 && last != 13 {
            out.push(13);
        }
        out.push(b);
        last = b;
        i += 1;
    }
    proof {
        assert(bytes@.take(i as int) =~= bytes@);
    }
    (out, last)
}

} // verus!
