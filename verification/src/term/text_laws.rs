//! Where the characters of a text end up.

use crate::term::attrs::Attrs;
use crate::term::frame::text_stays_in_its_area;
use crate::term::grid::{text_width, written_end, Cell, GridView, Line};
use crate::term::rect::Rect;
use crate::term::width::{all_printable_ascii, is_printable_ascii};
use vstd::prelude::*;

verus! {

proof fn lemma_left(g: GridView, col: int, end: int, row: int, chars: Seq<char>, attrs: Attrs)
    requires
        all_printable_ascii(chars),
    ensures
        ({
            let r = g.write(col, end, row, chars, attrs);
            &&& r.cells.dom() =~= g.cells.dom()
            &&& forall|x: int, y: int|
                #![trigger r.cells[(x, y)]]
                y != row || x < col || x >= col + chars.len() ==> r.cells[(x, y)] == g.cells[(
                    x,
                    y,
                )]
        }),
    decreases chars.len(),
{
    if chars.len() > 0 && col + 1 <= end {
        let rest = chars.drop_first();
        assert(is_printable_ascii(chars[0]));
        assert forall|i: int|
            0 <= i < rest.len() implies is_printable_ascii(
            #[trigger] rest[i],
        ) by {
            assert(rest[i] == chars[i + 1]);
        }
        let g1 = g.place(col, row, chars[0], 1, attrs);
        lemma_left(g1, col + 1, end, row, rest, attrs);
        let r = g.write(col, end, row, chars, attrs);
        assert forall|x: int, y: int|
            #![trigger r.cells[(x, y)]]
            y != row || x < col || x >= col + chars.len() implies r.cells[(x, y)] == g.cells[(
            x,
            y,
        )] by {
            assert(r.cells[(x, y)] == g1.cells[(x, y)]);
        }
    } else if chars.len() > 0 {
        assert(is_printable_ascii(chars[0]));
    }
}

proof fn lemma_written(
    g: GridView,
    col: int,
    end: int,
    row: int,
    chars: Seq<char>,
    attrs: Attrs,
    i: int,
)
    requires
        all_printable_ascii(chars),
        0 <= i < chars.len(),
        col + i < end,
        g.cells.dom().contains((col + i, row)),
    ensures
        g.write(col, end, row, chars, attrs).cells[(col + i, row)] == (Cell {
            ch: Some(chars[i]),
            attrs,
        }),
    decreases chars.len(),
{
    let rest = chars.drop_first();
    assert(is_printable_ascii(chars[0]));
    assert forall|k: int|
        0 <= k < rest.len() implies is_printable_ascii(#[trigger] rest[k]) by {
        assert(rest[k] == chars[k + 1]);
    }
    let g1 = g.place(col, row, chars[0], 1, attrs);
    if i == 0 {
        lemma_left(g1, col + 1, end, row, rest, attrs);
        let r = g1.write(col + 1, end, row, rest, attrs);
        assert(r.cells[(col, row)] == g1.cells[(col, row)]);
    } else {
        lemma_written(g1, col + 1, end, row, rest, attrs, i - 1);
    }
}

/// A text stands in its area from the left, one character in each column, as
/// far as it fits, and changes nothing else.
pub proof fn text_is_written_from_the_left(
    g: GridView,
    area: Rect,
    chars: Seq<char>,
    attrs: Attrs,
    col: int,
    row: int,
)
    requires
        all_printable_ascii(chars),
        g.wf(),
        g.has(col, row),
    ensures
        g.text(area, chars, attrs).cells[(col, row)] == (if area.height > 0 && row == area.y
            && area.x <= col < area.x + area.width && col < area.x + chars.len() {
            Cell { ch: Some(chars[col - area.x]), attrs }
        } else {
            g.cells[(col, row)]
        }),
        g.text(area, chars, attrs).wf(),
        g.text(area, chars, attrs).width == g.width,
        g.text(area, chars, attrs).height == g.height,
{
    assert(g.cells.dom().contains((col, row)));
    text_stays_in_its_area(g, area, chars, attrs);
    if area.height > 0 {
        let (x, end, y) = (area.x as int, area.x + area.width, area.y as int);
        lemma_left(g, x, end, y, chars, attrs);
        if row == y && x <= col < end && col < x + chars.len() {
            lemma_written(g, x, end, y, chars, attrs, col - x);
        }
        let r = g.text(area, chars, attrs);
        if row == y && x <= col && col >= end {
            assert(!area.covers(col, row));
            assert(r.cells[(col, row)] == g.cells[(col, row)]);
        }
        assert forall|c: int, w: int| #[trigger] r.cells.dom().contains((c, w)) <==> r.has(
            c,
            w,
        ) by {
            assert(g.cells.dom().contains((c, w)) <==> g.has(c, w));
        }
    }
}

proof fn lemma_end(col: int, end: int, chars: Seq<char>)
    requires
        all_printable_ascii(chars),
        col <= end,
    ensures
        written_end(col, end, chars) == (if col + chars.len() <= end {
            col + chars.len()
        } else {
            end
        }),
    decreases chars.len(),
{
    if chars.len() > 0 {
        assert(is_printable_ascii(chars[0]));
        if col + 1 <= end {
            let rest = chars.drop_first();
            assert forall|i: int|
                0 <= i < rest.len() implies is_printable_ascii(
                #[trigger] rest[i],
            ) by {
                assert(rest[i] == chars[i + 1]);
            }
            lemma_end(col + 1, end, rest);
        }
    }
}

/// What is written next starts where the text ends; the right end stays where
/// it is.
pub proof fn next_text_follows(line: Line, chars: Seq<char>, attrs: Attrs)
    requires
        line.area.fits(),
        line.area.height > 0,
    ensures
        ({
            let next = line.wrote(chars, attrs).area;
            &&& next.fits()
            &&& next.y == line.area.y
            &&& next.height == line.area.height
            &&& next.x + next.width == line.area.x + line.area.width
            &&& all_printable_ascii(chars) && chars.len() <= line.area.width ==> next.x
                == line.area.x + chars.len()
        }),
{
    text_stays_in_its_area(line.grid, line.area, chars, attrs);
    if all_printable_ascii(chars) {
        lemma_end(line.area.x as int, line.area.x + line.area.width, chars);
        assert(text_width(line.area, chars) == written_end(
            line.area.x as int,
            line.area.x + line.area.width,
            chars,
        ) - line.area.x);
    }
}

} // verus!
