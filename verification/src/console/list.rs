//! The list of processes: which rows it shows and what a click hits.

use crate::term::rect::Rect;
use vstd::prelude::*;

verus! {

/// How many rows a process takes: one, and one for each child if it is
/// expanded.
#[derive(Clone, Copy, Debug, PartialEq, Eq, Structural)]
pub struct RowShape {
    pub expanded: bool,
    pub children: usize,
}

/// A row of the list.
#[derive(Clone, Copy, Debug, PartialEq, Eq, Structural)]
pub enum ClickTarget {
    Proc(usize),
    Child { proc_idx: usize, child_idx: usize },
}

impl RowShape {
    /// How many rows follow that of the process itself.
    pub open spec fn below(self) -> nat {
        if self.expanded {
            self.children as nat
        } else {
            0
        }
    }

    fn rows_below(&self) -> (r: usize)
        ensures
            r == self.below(),
    {
        if self.expanded {
            self.children
        } else {
            0
        }
    }
}

/// The rows of process `i`: its own, then those of its children.
pub open spec fn rows_of(shape: RowShape, i: int) -> Seq<ClickTarget> {
    Seq::new(
        1 + shape.below(),
        |k: int|
            if k == 0 {
                ClickTarget::Proc(i as usize)
            } else {
                ClickTarget::Child { proc_idx: i as usize, child_idx: (k - 1) as usize }
            },
    )
}

/// The rows of the processes from `from` up to `to`.
pub open spec fn rows_between(shapes: Seq<RowShape>, from: int, to: int) -> Seq<ClickTarget>
    decreases to - from,
{
    if from >= to {
        Seq::empty()
    } else {
        rows_between(shapes, from, to - 1) + rows_of(shapes[to - 1], to - 1)
    }
}

/// Which part of a list is shown.
#[derive(Clone, Copy, Debug, PartialEq, Eq, Structural)]
pub struct ListState {
    pub selected: usize,
    /// The first process that is shown.
    pub start: usize,
    /// The process after the last one that can be shown.
    pub end: usize,
}

/// The first process that is shown when `selected` has to be within `height`
/// rows.
pub open spec fn scroll_to(selected: usize, height: nat) -> int {
    if selected + 1 > height {
        selected + 1 - height
    } else {
        0
    }
}

impl ListState {
    pub open spec fn initial() -> ListState {
        ListState { selected: 0, start: 0, end: 0 }
    }

    pub fn new() -> (r: Self)
        ensures
            r == ListState::initial(),
    {
        ListState { selected: 0, start: 0, end: 0 }
    }

    /// The list fitted to an area.
    pub open spec fn fitted(self, height: u16, len: nat) -> ListState {
        let start = scroll_to(self.selected, height as nat);
        ListState {
            selected: self.selected,
            start: if start < len {
                start as usize
            } else {
                len as usize
            },
            end: if start + height < len {
                (start + height) as usize
            } else {
                len as usize
            },
        }
    }

    /// Chooses the processes that are shown in `area`.
    pub fn fit(&mut self, area: Rect, len: usize)
        ensures
            *final(self) == old(self).fitted(area.height, len as nat),
    {
        let height: usize = area.height as usize;
        let start: usize = if self.selected < height {
            0
        } else {
            (self.selected - height).saturating_add(1)
        };
        self.start = if start < len {
            start
        } else {
            len
        };
        self.end = if start < len && height < len - start {
            start + height
        } else {
            len
        };
    }
}

/// What is drawn in a list of `height` rows.
pub open spec fn drawn_rows(shapes: Seq<RowShape>, list: ListState, height: nat) -> Seq<
    ClickTarget,
> {
    let rows = rows_between(shapes, list.start as int, list.end as int);
    if rows.len() > height {
        rows.take(height as int)
    } else {
        rows
    }
}

/// The row that is `offset` rows below the first process that is shown.
pub open spec fn row_below(shapes: Seq<RowShape>, start: int, offset: int) -> Option<ClickTarget> {
    let rows = rows_between(shapes, start, shapes.len() as int);
    if 0 <= offset < rows.len() {
        Some(rows[offset])
    } else {
        None
    }
}

proof fn lemma_rows_len(shapes: Seq<RowShape>, from: int, to: int)
    requires
        from <= to,
    ensures
        rows_between(shapes, from, to).len() >= to - from,
    decreases to - from,
{
    if from < to {
        lemma_rows_len(shapes, from, to - 1);
    }
}

pub proof fn lemma_rows_prefix(shapes: Seq<RowShape>, from: int, mid: int, to: int)
    requires
        from <= mid <= to,
    ensures
        rows_between(shapes, from, mid).is_prefix_of(rows_between(shapes, from, to)),
    decreases to - mid,
{
    let a = rows_between(shapes, from, mid);
    if mid < to {
        lemma_rows_prefix(shapes, from, mid, to - 1);
        let b = rows_between(shapes, from, to - 1);
        let c = rows_between(shapes, from, to);
        assert(a =~= c.subrange(0, a.len() as int)) by {
            assert forall|k: int| 0 <= k < a.len() implies a[k] == c[k] by {
                assert(a[k] == b.subrange(0, a.len() as int)[k]);
            }
        }
    } else {
        assert(a =~= a.subrange(0, a.len() as int));
    }
}

/// A click on a row that is drawn hits what that row shows.
pub proof fn click_hits_the_drawn_row(
    shapes: Seq<RowShape>,
    list: ListState,
    height: u16,
    offset: int,
)
    requires
        list == list.fitted(height, shapes.len()),
        shapes.len() <= usize::MAX,
        0 <= offset < drawn_rows(shapes, list, height as nat).len(),
    ensures
        row_below(shapes, scroll_to(list.selected, height as nat), offset) == Some(
            drawn_rows(shapes, list, height as nat)[offset],
        ),
{
    let start = scroll_to(list.selected, height as nat);
    if start < shapes.len() {
        lemma_rows_prefix(shapes, start, list.end as int, shapes.len() as int);
        let a = rows_between(shapes, start, list.end as int);
        let b = rows_between(shapes, start, shapes.len() as int);
        assert(a[offset] == b.subrange(0, a.len() as int)[offset]);
    }
}

/// The space below the rows that are drawn, as far as it belongs to the list,
/// is hit by no click.
pub proof fn click_below_the_rows_hits_nothing(
    shapes: Seq<RowShape>,
    list: ListState,
    height: u16,
    offset: int,
)
    requires
        list == list.fitted(height, shapes.len()),
        shapes.len() <= usize::MAX,
        drawn_rows(shapes, list, height as nat).len() <= offset < height,
    ensures
        row_below(shapes, scroll_to(list.selected, height as nat), offset) is None,
{
    let start = scroll_to(list.selected, height as nat);
    if start < shapes.len() {
        lemma_rows_len(shapes, start, list.end as int);
    }
}

/// The selected process is one of those that are shown, whatever is selected.
pub proof fn selected_process_is_in_range(list: ListState, height: u16, len: nat)
    requires
        height > 0,
        list.selected < len <= usize::MAX,
    ensures
        list.fitted(height, len).start <= list.selected < list.fitted(height, len).end,
{
}

/// Finds the row that is `offset` rows below process `start`.
pub fn find_row(shapes: &Vec<RowShape>, start: usize, offset: usize) -> (r: Option<ClickTarget>)
    ensures
        r == row_below(shapes@, start as int, offset as int),
{
    let ghost all = rows_between(shapes@, start as int, shapes@.len() as int);
    let mut i: usize = start;
    let mut left: usize = offset;
    if start >= shapes.len() {
        return None;
    }
    while i < shapes.len()
        invariant
            start <= i <= shapes@.len(),
            all == rows_between(shapes@, start as int, shapes@.len() as int),
            left <= offset,
            offset - left == rows_between(shapes@, start as int, i as int).len(),
        decreases shapes@.len() - i,
    {
        let below = shapes[i].rows_below();
        proof {
            lemma_rows_prefix(shapes@, start as int, i + 1, shapes@.len() as int);
            let a = rows_between(shapes@, start as int, i as int);
            let b = rows_between(shapes@, start as int, i + 1);
            assert(b == a + rows_of(shapes@[i as int], i as int));
            if left <= below {
                assert(b[offset as int] == rows_of(shapes@[i as int], i as int)[left as int]);
                assert(all.subrange(0, b.len() as int)[offset as int] == b[offset as int]);
                assert(all.len() >= b.len());
            }
        }
        if left == 0 {
            return Some(ClickTarget::Proc(i));
        }
        if left <= below {
            return Some(ClickTarget::Child { proc_idx: i, child_idx: left - 1 });
        }
        left = left - below - 1;
        i += 1;
    }
    None
}

/// Whether a position is inside the border of a list.
pub fn procs_check_hit(area: Rect, x: u16, y: u16) -> (r: bool)
    ensures
        r == (area.x < x && area.x + area.width > x + 1 && area.y < y && area.y + area.height > y
            + 1),
{
    let (ax, ay): (u32, u32) = (area.x as u32, area.y as u32);
    let (x, y): (u32, u32) = (x as u32, y as u32);
    ax < x && ax + area.width as u32 > x + 1 && ay < y && ay + area.height as u32 > y + 1
}

/// Whether a position is inside an area.
pub fn term_check_hit(area: Rect, x: u16, y: u16) -> (r: bool)
    ensures
        r == area.covers(x as int, y as int),
{
    let (ax, ay): (u32, u32) = (area.x as u32, area.y as u32);
    let (x, y): (u32, u32) = (x as u32, y as u32);
    ax <= x && ax + area.width as u32 >= x + 1 && ay <= y && ay + area.height as u32 >= y + 1
}

/// What a click on the list hits.
pub open spec fn clicked(
    area: Rect,
    x: u16,
    y: u16,
    shapes: Seq<RowShape>,
    selected: usize,
) -> Option<ClickTarget> {
    if area.x < x && area.x + area.width > x + 1 && area.y < y && area.y + area.height > y + 1 {
        row_below(
            shapes,
            scroll_to(selected, area.shrunk(1).height as nat),
            y - area.shrunk(1).y,
        )
    } else {
        None
    }
}

pub fn clicked_row(area: Rect, x: u16, y: u16, shapes: &Vec<RowShape>, selected: usize) -> (r:
    Option<ClickTarget>)
    ensures
        r == clicked(area, x, y, shapes@, selected),
{
    if !procs_check_hit(area, x, y) {
        return None;
    }
    let inner = area.inner(1);
    let height: usize = inner.height as usize;
    let scroll: usize = if selected < height {
        0
    } else {
        selected - height + 1
    };
    find_row(shapes, scroll, (y - inner.y) as usize)
}

} // verus!
