//! Clicks on the list of processes.

use crate::console::list::{clicked, clicked_row};
use crate::console::state::{row_shapes, shapes_of, State};
use crate::term::rect::Rect;
use vstd::prelude::*;

pub use crate::console::list::{procs_check_hit, ClickTarget};

verus! {

/// What a click on the list hits.
pub fn procs_get_clicked_index(area: Rect, x: u16, y: u16, state: &State) -> (r: Option<
    ClickTarget,
>)
    ensures
        r == clicked(area, x, y, shapes_of(state@.procs), state@.list.selected),
{
    clicked_row(area, x, y, &row_shapes(&state.procs), state.selected())
}

} // verus!
