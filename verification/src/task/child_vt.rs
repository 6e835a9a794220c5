//! Terminals for the output of hooks and health checks.

use crate::term::rect::Size;
use crate::term::screen::{Screen, SharedVt, VtTable};
use vstd::prelude::*;

verus! {

pub const CHILD_VT_WIDTH: u16 = 200;

pub const CHILD_VT_HEIGHT: u16 = 24;

pub const CHILD_VT_SCROLLBACK: usize = 1000;

/// The tables before and after a terminal for a hook or a check was added.
pub open spec fn child_vt_added(before: VtTable, after: VtTable, vt: SharedVt) -> bool {
    &&& vt.0 == before@.len()
    &&& after@.len() == before@.len() + 1
    &&& after@.drop_last() == before@
    &&& after@.last().is_blank(
        (Size { width: CHILD_VT_WIDTH, height: CHILD_VT_HEIGHT }),
        CHILD_VT_SCROLLBACK,
    )
}

pub fn new_child_vt(vts: &mut VtTable) -> (r: SharedVt)
    ensures
        child_vt_added(*old(vts), *final(vts), r),
{
    vts.add_terminal(CHILD_VT_HEIGHT, CHILD_VT_WIDTH, CHILD_VT_SCROLLBACK)
}

/// No terminal was added, or one for a hook or a check.
pub open spec fn grew_by_child(before: VtTable, after: VtTable) -> bool {
    after@ == before@ || child_vt_added(before, after, SharedVt(before@.len() as usize))
}

/// A terminal of a process was added, then some for hooks and checks; the
/// terminals that were there before are as they were.
pub open spec fn terminals_added(
    before: Seq<Screen>,
    after: Seq<Screen>,
    size: Size,
    scrollback_len: usize,
) -> bool {
    &&& before.len() < after.len()
    &&& after.take(before.len() as int) == before
    &&& after[before.len() as int].is_blank(size, scrollback_len)
    &&& forall|i: int|
        before.len() < i < after.len() ==> (#[trigger] after[i]).is_blank(
            (Size { width: CHILD_VT_WIDTH, height: CHILD_VT_HEIGHT }),
            CHILD_VT_SCROLLBACK,
        )
}

/// One more terminal for a hook or a check.
pub proof fn lemma_terminals_added(
    first: Seq<Screen>,
    before: VtTable,
    after: VtTable,
    size: Size,
    scrollback_len: usize,
)
    requires
        terminals_added(first, before@, size, scrollback_len),
        grew_by_child(before, after),
    ensures
        terminals_added(first, after@, size, scrollback_len),
{
    if after@ != before@ {
        assert forall|i: int| 0 <= i < before@.len() implies after@[i] == before@[i] by {
            assert(after@.drop_last()[i] == before@[i]);
        }
        assert(after@.take(first.len() as int) =~= before@.take(first.len() as int));
        assert forall|i: int| first.len() < i < after@.len() implies (
        #[trigger] after@[i]).is_blank(
            (Size { width: CHILD_VT_WIDTH, height: CHILD_VT_HEIGHT }),
            CHILD_VT_SCROLLBACK,
        ) by {
            if i < before@.len() {
                assert(before@[i] == after@[i]);
            } else {
                assert(after@[i] == after@.last());
            }
        }
    }
}

} // verus!
