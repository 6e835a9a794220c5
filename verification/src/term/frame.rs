//! What drawing leaves alone.

use crate::term::attrs::Attrs;
use crate::term::grid::{text_width, written_end, Cell, GridView, Line};
use crate::term::rect::Rect;
use crate::term::width::advance;
use vstd::prelude::*;

verus! {

proof fn lemma_place_frame(g: GridView, col: int, row: int, c: char, w: nat, attrs: Attrs)
    ensures
        ({
            let r = g.place(col, row, c, w, attrs);
            &&& r.width == g.width
            &&& r.height == g.height
            &&& r.cursor_pos == g.cursor_pos
            &&& r.cursor_style == g.cursor_style
            &&& r.cells.dom() =~= g.cells.dom()
            &&& forall|x: int, y: int|
                #![trigger r.cells[(x, y)]]
                !(y == row && col <= x < col + w) ==> r.cells[(x, y)] == g.cells[(x, y)]
        }),
    decreases w,
{
    if w > 1 {
        lemma_place_frame(g, col, row, c, (w - 1) as nat, attrs);
    }
}

proof fn lemma_write_frame(
    g: GridView,
    col: int,
    end: int,
    row: int,
    chars: Seq<char>,
    attrs: Attrs,
)
    ensures
        ({
            let r = g.write(col, end, row, chars, attrs);
            &&& r.width == g.width
            &&& r.height == g.height
            &&& r.cursor_pos == g.cursor_pos
            &&& r.cursor_style == g.cursor_style
            &&& r.cells.dom() =~= g.cells.dom()
            &&& forall|x: int, y: int|
                #![trigger r.cells[(x, y)]]
                !(y == row && col <= x < end) ==> r.cells[(x, y)] == g.cells[(x, y)]
        }),
        col <= end ==> col <= written_end(col, end, chars) <= end,
    decreases chars.len(),
{
    if !(chars.len() == 0 || col + advance(chars[0]) > end) {
        let w = advance(chars[0]);
        let g1 = g.place(col, row, chars[0], w, attrs);
        lemma_place_frame(g, col, row, chars[0], w, attrs);
        lemma_write_frame(g1, col + w, end, row, chars.drop_first(), attrs);
        let r = g.write(col, end, row, chars, attrs);
        assert forall|x: int, y: int|
            #![trigger r.cells[(x, y)]]
            !(y == row && col <= x < end) implies r.cells[(x, y)] == g.cells[(x, y)] by {
            assert(r.cells[(x, y)] == g1.cells[(x, y)]);
        }
    }
}

/// One line of text changes no cell outside of its area, nor the cursor.
pub proof fn text_stays_in_its_area(g: GridView, area: Rect, chars: Seq<char>, attrs: Attrs)
    ensures
        g.text(area, chars, attrs).differs_only_in(g, area),
        g.text(area, chars, attrs).cursor_pos == g.cursor_pos,
        g.text(area, chars, attrs).cursor_style == g.cursor_style,
        0 <= text_width(area, chars) <= area.width,
{
    if area.height > 0 {
        lemma_write_frame(
            g,
            area.x as int,
            area.x + area.width,
            area.y as int,
            chars,
            attrs,
        );
    }
}

/// Painting changes no cell but those that it has something for.
pub proof fn painting_stays_in_its_area(
    g: GridView,
    f: spec_fn(int, int) -> Option<Cell>,
    area: Rect,
)
    requires
        forall|col: int, row: int| #[trigger] f(col, row) is Some ==> area.covers(col, row),
    ensures
        g.painted(f).differs_only_in(g, area),
{
    assert forall|col: int, row: int|
        #![trigger g.painted(f).cells[(col, row)]]
        g.cells.dom().contains((col, row)) && !area.covers(col, row) implies g.painted(f).cells[(
        col,
        row,
    )] == g.cells[(col, row)] by {
        assert(f(col, row) is None);
    }
}

/// A change within `part` of what changed within `area` is one within `area`.
pub proof fn lemma_next_change(
    after: GridView,
    between: GridView,
    before: GridView,
    part: Rect,
    area: Rect,
)
    requires
        after.differs_only_in(between, part),
        between.differs_only_in(before, area),
        part.within(area),
    ensures
        after.differs_only_in(before, area),
{
    assert forall|col: int, row: int|
        #![trigger after.cells[(col, row)]]
        after.cells.dom().contains((col, row)) && !area.covers(col, row) implies after.cells[(
        col,
        row,
    )] == before.cells[(col, row)] by {
        assert(!part.covers(col, row));
        assert(between.cells[(col, row)] == before.cells[(col, row)]);
    }
}

/// A line that is written in a part of `area` changes only that area, and so
/// does what is written after it.
pub proof fn lemma_line(line: Line, chars: Seq<char>, attrs: Attrs, before: GridView, area: Rect)
    requires
        line.area.fits(),
        line.area.within(area),
        line.grid.differs_only_in(before, area),
    ensures
        line.wrote(chars, attrs).area.fits(),
        line.wrote(chars, attrs).area.within(area),
        line.wrote(chars, attrs).area.within(line.area),
        line.wrote(chars, attrs).grid.differs_only_in(before, area),
{
    text_stays_in_its_area(line.grid, line.area, chars, attrs);
    let next = line.wrote(chars, attrs);
    lemma_next_change(next.grid, line.grid, before, line.area, area);
    assert forall|col: int, row: int| #![trigger next.area.covers(col, row)]
        next.area.covers(col, row) implies line.area.covers(col, row) by {}
}

} // verus!
