//! How the focus moves over the rows of the list.

use crate::config::config::Config;
use crate::console::action::Action;
use crate::console::action_laws::only_shows;
use crate::console::laws::focus_is_visible;
use crate::console::proc::view::ProcModel;
use crate::console::state::StateModel;
use crate::console::turn::{step, Turn};
use vstd::prelude::*;

verus! {

/// The rows that the first `n` processes take: one each, and one for each child
/// of those that are expanded.
pub open spec fn rows_above(procs: Seq<ProcModel>, n: nat) -> nat
    decreases n,
{
    if n == 0 {
        0
    } else {
        let below = if procs[n - 1].expanded {
            procs[n - 1].children.len()
        } else {
            0
        };
        rows_above(procs, (n - 1) as nat) + 1 + below
    }
}

/// The number of the row that has the focus, counted from the top.
pub open spec fn row_of_focus(state: StateModel) -> int {
    let sel = state.list.selected;
    rows_above(state.procs, sel as nat) + match state.procs[sel as int].focused_child {
        Some(i) => i + 1,
        None => 0,
    }
}

/// The list shows the same rows.
pub open spec fn same_rows(a: StateModel, b: StateModel) -> bool {
    &&& a.procs.len() == b.procs.len()
    &&& forall|i: int|
        0 <= i < a.procs.len() ==> {
            let (p, q) = (#[trigger] a.procs[i], b.procs[i]);
            &&& p.id == q.id
            &&& p.name == q.name
            &&& p.status == q.status
            &&& p.expanded == q.expanded
            &&& p.children == q.children
        }
    &&& a.scope == b.scope
    &&& a.quitting == b.quitting
    &&& a.hide_keymap == b.hide_keymap
}

proof fn lemma_rows_above(a: StateModel, b: StateModel, n: nat)
    requires
        same_rows(a, b),
        n <= a.procs.len(),
    ensures
        rows_above(a.procs, n) == rows_above(b.procs, n),
    decreases n,
{
    if n > 0 {
        lemma_rows_above(a, b, (n - 1) as nat);
        assert(a.procs[n - 1].expanded == b.procs[n - 1].expanded);
    }
}

proof fn lemma_rows_grow(procs: Seq<ProcModel>, a: nat, b: nat)
    requires
        a <= b,
    ensures
        rows_above(procs, a) + (b - a) <= rows_above(procs, b),
    decreases b,
{
    if a < b {
        lemma_rows_grow(procs, a, (b - 1) as nat);
    }
}

/// The focus goes from each row to the one below it, and from the last one to
/// the first; going up it takes the same way back.
pub proof fn focus_goes_row_by_row(state: StateModel)
    requires
        focus_is_visible(state),
        state.procs.len() <= usize::MAX,
        forall|i: int|
            0 <= i < state.procs.len() ==> (#[trigger] state.procs[i]).children.len()
                <= usize::MAX,
    ensures
        ({
            let (down, up) = (state.next_row(), state.prev_row());
            let (row, total) = (row_of_focus(state), rows_above(state.procs, state.procs.len()));
            &&& same_rows(state, down)
            &&& same_rows(state, up)
            &&& row_of_focus(down) == (if row + 1 < total {
                row + 1
            } else {
                0
            })
            &&& row_of_focus(up) == (if row > 0 {
                row - 1
            } else {
                total - 1
            })
        }),
{
    let (down, up) = (state.next_row(), state.prev_row());
    let sel = state.list.selected as nat;
    let n = state.procs.len();
    assert(same_rows(state, down));
    assert(same_rows(state, up));
    lemma_rows_above(state, down, down.list.selected as nat);
    lemma_rows_above(state, up, up.list.selected as nat);
    lemma_rows_grow(state.procs, sel + 1, n);
    lemma_rows_grow(state.procs, 0, sel);
    let below = if state.procs[sel as int].expanded {
        state.procs[sel as int].children.len()
    } else {
        0
    };
    assert(rows_above(state.procs, sel + 1) == rows_above(state.procs, sel) + 1 + below);
    if sel + 1 < n {
        lemma_rows_grow(state.procs, sel + 2, n);
    }
    if sel > 0 {
        lemma_rows_grow(state.procs, 0, (sel - 1) as nat);
    }
}

/// The actions that move the focus move it by one row, and send nothing.
pub proof fn moving_the_focus_sends_nothing(t: Turn, config: Config)
    ensures
        only_shows(
            t,
            step(t, config, Action::NextProc),
            t.core.state.next_row(),
            t.core.modal,
        ),
        only_shows(
            t,
            step(t, config, Action::PrevProc),
            t.core.state.prev_row(),
            t.core.modal,
        ),
{
}

/// A process that is selected by its number has the focus and is no longer
/// marked as having news; the other processes are as they were.
pub proof fn selected_by_number(t: Turn, config: Config, index: usize, i: int)
    requires
        index < t.core.state.procs.len(),
        0 <= i < t.core.state.procs.len(),
    ensures
        ({
            let after = step(t, config, Action::SelectProc { index }).core;
            let (old_proc, new_proc) = (t.core.state.procs[i], after.state.procs[i]);
            &&& after.state.list.selected == index
            &&& after.state.procs.len() == t.core.state.procs.len()
            &&& after.out == t.core.out
            &&& i == index ==> new_proc == (ProcModel {
                focused_child: None,
                changed: false,
                ..old_proc
            })
            &&& i != index ==> new_proc == old_proc
        }),
{
}

/// Toggling shows the rows below the selected process if they were hidden and
/// hides them if they were shown; hidden rows do not have the focus.
pub proof fn rows_are_shown_and_hidden(t: Turn, config: Config, i: int)
    requires
        t.core.state.list.selected < t.core.state.procs.len(),
        0 <= i < t.core.state.procs.len(),
    ensures
        ({
            let after = step(t, config, Action::ToggleProcChildren).core;
            let sel = t.core.state.list.selected;
            let (old_proc, new_proc) = (t.core.state.procs[i], after.state.procs[i]);
            &&& after.state.list == t.core.state.list
            &&& after.out == t.core.out
            &&& i == sel ==> {
                &&& new_proc.expanded == !old_proc.expanded
                &&& old_proc.expanded ==> new_proc.focused_child is None
                &&& !old_proc.expanded ==> new_proc.focused_child == old_proc.focused_child
                &&& new_proc == (ProcModel {
                    expanded: new_proc.expanded,
                    focused_child: new_proc.focused_child,
                    ..old_proc
                })
            }
            &&& i != sel ==> new_proc == old_proc
        }),
{
}

} // verus!
