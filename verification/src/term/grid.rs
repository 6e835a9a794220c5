//! A grid of character cells and the operations that draw on it.

use crate::term::attrs::{plain_attrs, Attrs};
use crate::term::rect::{Pos, Rect, Size};
use crate::term::width::{advance, char_advance};
use crate::text::to_chars;
use vstd::prelude::*;

verus! {

#[derive(Clone, Copy, Debug, PartialEq, Eq, Structural)]
pub enum CursorStyle {
    Default,
    Block,
    Underline,
    Bar,
}

/// One cell: a character, or nothing, with its attributes.
#[derive(Clone, Copy, Debug, PartialEq, Eq, Structural)]
pub struct Cell {
    pub ch: Option<char>,
    pub attrs: Attrs,
}

/// A cell that nothing was drawn on.
pub open spec fn blank_cell() -> Cell {
    Cell { ch: None, attrs: plain_attrs() }
}

/// The cells of a grid that nothing was drawn on.
pub open spec fn blank_cells(size: Size) -> Map<(int, int), Cell> {
    Map::new(
        |p: (int, int)| 0 <= p.0 < size.width && 0 <= p.1 < size.height,
        |p: (int, int)| blank_cell(),
    )
}

impl Cell {
    pub fn contents(&self) -> (r: String)
        ensures
            r@ == (match self.ch {
                Some(c) => seq![c],
                None => Seq::<char>::empty(),
            }),
    {
        let mut s = String::new();
        if let Some(c) = self.ch {
            s.push(c);
        }
        proof {
            if self.ch is Some {
                assert(s@ =~= seq![self.ch->0]);
            }
        }
        s
    }
}

/// The characters of a border.
#[derive(Clone, Copy, Debug, PartialEq, Eq, Structural)]
pub struct BorderChars {
    pub horizontal: char,
    pub vertical: char,
    pub top_left: char,
    pub top_right: char,
    pub bottom_left: char,
    pub bottom_right: char,
}

#[derive(Clone, Copy, Debug, PartialEq, Eq, Structural)]
pub enum BorderType {
    Plain,
    Thick,
}

impl BorderType {
    pub open spec fn chars_of(self) -> BorderChars {
        match self {
            BorderType::Plain => BorderChars {
                horizontal: '─',
                vertical: '│',
                top_left: '┌',
                top_right: '┐',
                bottom_left: '└',
                bottom_right: '┘',
            },
            BorderType::Thick => BorderChars {
                horizontal: '━',
                vertical: '┃',
                top_left: '┏',
                top_right: '┓',
                bottom_left: '┗',
                bottom_right: '┛',
            },
        }
    }

    pub fn chars(self) -> (r: BorderChars)
        ensures
            r == self.chars_of(),
    {
        match self {
            BorderType::Plain => BorderChars {
                horizontal: '─',
                vertical: '│',
                top_left: '┌',
                top_right: '┐',
                bottom_left: '└',
                bottom_right: '┘',
            },
            BorderType::Thick => BorderChars {
                horizontal: '━',
                vertical: '┃',
                top_left: '┏',
                top_right: '┓',
                bottom_left: '┗',
                bottom_right: '┛',
            },
        }
    }
}

/// What a grid shows: its size, the cell at each (column, row), the cursor and
/// how many lines that left it are kept.
#[verifier::ext_equal]
pub struct GridView {
    pub width: nat,
    pub height: nat,
    pub cells: Map<(int, int), Cell>,
    pub cursor_pos: Option<Pos>,
    pub cursor_style: CursorStyle,
    pub scrollback_len: usize,
}

impl GridView {
    /// Empty cells at a size, and no cursor.
    pub open spec fn blank(size: Size, scrollback_len: usize) -> GridView {
        GridView {
            width: size.width as nat,
            height: size.height as nat,
            cells: blank_cells(size),
            cursor_pos: None,
            cursor_style: CursorStyle::Default,
            scrollback_len,
        }
    }

    /// Every cell is empty, at a new size.
    pub open spec fn emptied(self, size: Size) -> GridView {
        GridView {
            width: size.width as nat,
            height: size.height as nat,
            cells: blank_cells(size),
            ..self
        }
    }

    pub open spec fn has(self, col: int, row: int) -> bool {
        0 <= col < self.width && 0 <= row < self.height
    }

    /// The cells are exactly those of the width and the height.
    pub open spec fn wf(self) -> bool {
        forall|col: int, row: int| #[trigger]
            self.cells.dom().contains((col, row)) <==> self.has(col, row)
    }

    /// The grid with one cell replaced; outside of the grid nothing happens.
    pub open spec fn put(self, col: int, row: int, cell: Cell) -> GridView {
        if self.cells.dom().contains((col, row)) {
            GridView { cells: self.cells.insert((col, row), cell), ..self }
        } else {
            self
        }
    }

    /// The grid with each cell replaced by what `f` gives for it, where it
    /// gives anything.
    pub open spec fn painted(self, f: spec_fn(int, int) -> Option<Cell>) -> GridView {
        GridView {
            cells: Map::new(
                |p: (int, int)| self.cells.dom().contains(p),
                |p: (int, int)| match f(p.0, p.1) {
                    Some(cell) => cell,
                    None => self.cells[p],
                },
            ),
            ..self
        }
    }

    /// A character of `w` columns at (col, row): its first cell holds it, the
    /// others are empty.
    pub open spec fn place(self, col: int, row: int, c: char, w: nat, attrs: Attrs) -> GridView
        decreases w,
    {
        if w == 0 {
            self
        } else if w == 1 {
            self.put(col, row, Cell { ch: Some(c), attrs })
        } else {
            self.place(col, row, c, (w - 1) as nat, attrs).put(
                col + w - 1,
                row,
                Cell { ch: None, attrs },
            )
        }
    }

    /// The characters from (col, row) on, as long as they end by column `end`.
    pub open spec fn write(
        self,
        col: int,
        end: int,
        row: int,
        chars: Seq<char>,
        attrs: Attrs,
    ) -> GridView
        decreases chars.len(),
    {
        if chars.len() == 0 || col + advance(chars[0]) > end {
            self
        } else {
            self.place(col, row, chars[0], advance(chars[0]), attrs).write(
                col + advance(chars[0]),
                end,
                row,
                chars.drop_first(),
                attrs,
            )
        }
    }

    /// One line of text at the top of `area`.
    pub open spec fn text(self, area: Rect, chars: Seq<char>, attrs: Attrs) -> GridView {
        if area.height == 0 {
            self
        } else {
            self.write(area.x as int, area.x + area.width, area.y as int, chars, attrs)
        }
    }

    /// A border along the edges of `area`.
    pub open spec fn block(self, area: Rect, chars: BorderChars, attrs: Attrs) -> GridView {
        self.painted(block_cells(area, chars, attrs))
    }

    /// Every cell of `area` holds `c`.
    pub open spec fn filled(self, area: Rect, c: char, attrs: Attrs) -> GridView {
        self.painted(fill_cells(area, c, attrs))
    }

    /// The size and the cells outside of `area` are those of `other`.
    pub open spec fn differs_only_in(self, other: GridView, area: Rect) -> bool {
        &&& self.width == other.width
        &&& self.height == other.height
        &&& self.cells.dom() =~= other.cells.dom()
        &&& forall|col: int, row: int|
            #![trigger self.cells[(col, row)]]
            self.cells.dom().contains((col, row)) && !area.covers(col, row)
                ==> self.cells[(col, row)] == other.cells[(col, row)]
    }
}

/// The column after the characters that fit.
pub open spec fn written_end(col: int, end: int, chars: Seq<char>) -> int
    decreases chars.len(),
{
    if chars.len() == 0 || col + advance(chars[0]) > end {
        col
    } else {
        written_end(col + advance(chars[0]), end, chars.drop_first())
    }
}

/// How many columns of `area` one line of text takes.
pub open spec fn text_width(area: Rect, chars: Seq<char>) -> int {
    if area.height == 0 {
        0
    } else {
        written_end(area.x as int, area.x + area.width, chars) - area.x
    }
}

/// The character of a border at (col, row), where the border runs through it.
pub open spec fn border_char(area: Rect, chars: BorderChars, col: int, row: int) -> Option<char> {
    let left = col == area.x;
    let right = col == area.x + area.width - 1;
    let top = row == area.y;
    let bottom = row == area.y + area.height - 1;
    if !area.covers(col, row) {
        None
    } else if top && left {
        Some(chars.top_left)
    } else if top && right {
        Some(chars.top_right)
    } else if bottom && left {
        Some(chars.bottom_left)
    } else if bottom && right {
        Some(chars.bottom_right)
    } else if top || bottom {
        Some(chars.horizontal)
    } else if left || right {
        Some(chars.vertical)
    } else {
        None
    }
}

pub open spec fn block_cells(area: Rect, chars: BorderChars, attrs: Attrs) -> spec_fn(
    int,
    int,
) -> Option<Cell> {
    |col: int, row: int|
        match border_char(area, chars, col, row) {
            Some(c) => Some(Cell { ch: Some(c), attrs }),
            None => None,
        }
}

pub open spec fn fill_cells(area: Rect, c: char, attrs: Attrs) -> spec_fn(int, int) -> Option<
    Cell,
> {
    |col: int, row: int|
        if area.covers(col, row) {
            Some(Cell { ch: Some(c), attrs })
        } else {
            None
        }
}

/// A grid of cells with a cursor.
pub struct Grid {
    width: u16,
    height: u16,
    rows: Vec<Vec<Cell>>,
    scrollback_len: usize,
    pub cursor_pos: Option<Pos>,
    pub cursor_style: CursorStyle,
}

impl View for Grid {
    type V = GridView;

    closed spec fn view(&self) -> GridView {
        GridView {
            width: self.width as nat,
            height: self.height as nat,
            cells: Map::new(
                |p: (int, int)| 0 <= p.0 < self.width && 0 <= p.1 < self.height,
                |p: (int, int)| self.rows@[p.1]@[p.0],
            ),
            cursor_pos: self.cursor_pos,
            cursor_style: self.cursor_style,
            scrollback_len: self.scrollback_len,
        }
    }
}

impl Grid {
    /// Every row has one cell per column.
    pub closed spec fn wf(&self) -> bool {
        &&& self.rows@.len() == self.height
        &&& forall|r: int| 0 <= r < self.rows@.len() ==> (#[trigger] self.rows@[r])@.len() == self.width
    }

    /// The cells of a well-formed grid are those of its size.
    pub proof fn lemma_view(&self)
        requires
            self.wf(),
        ensures
            self@.wf(),
    {
    }

    /// A grid of empty cells.
    pub fn new(size: Size, scrollback_len: usize) -> (r: Self)
        ensures
            r.wf(),
            r@.wf(),
            r@ == GridView::blank(size, scrollback_len),
    {
        let mut g = Grid {
            width: 0,
            height: 0,
            rows: Vec::new(),
            scrollback_len,
            cursor_pos: None,
            cursor_style: CursorStyle::Default,
        };
        g.set_size(size);
        g
    }

    /// Makes every cell empty, at a new size.
    pub fn set_size(&mut self, size: Size)
        ensures
            final(self).wf(),
            final(self)@.wf(),
            final(self)@ == old(self)@.emptied(size),
    {
        let blank = Cell { ch: None, attrs: Attrs::plain() };
        let mut rows: Vec<Vec<Cell>> = Vec::new();
        let mut r: u16 = 0;
        while r < size.height
            invariant
                r <= size.height,
                rows@.len() == r,
                blank == blank_cell(),
                forall|i: int|
                    0 <= i < r ==> (#[trigger] rows@[i])@.len() == size.width && forall|j: int|
                        0 <= j < size.width ==> rows@[i]@[j] == blank,
            decreases size.height - r,
        {
            let mut row: Vec<Cell> = Vec::new();
            let mut c: u16 = 0;
            while c < size.width
                invariant
                    c <= size.width,
                    row@.len() == c,
                    forall|j: int| 0 <= j < c ==> row@[j] == blank,
                decreases size.width - c,
            {
                row.push(blank);
                c += 1;
            }
            rows.push(row);
            r += 1;
        }
        self.rows = rows;
        self.width = size.width;
        self.height = size.height;
        proof {
            self.lemma_view();
            assert(self@.cells =~= blank_cells(size));
        }
    }

    pub fn size(&self) -> (r: Size)
        ensures
            r.width == self@.width,
            r.height == self@.height,
    {
        Size { width: self.width, height: self.height }
    }

    /// The cell at a position of the grid.
    pub fn drawing_cell(&self, pos: Pos) -> (r: Option<Cell>)
        requires
            self.wf(),
        ensures
            r == (if self@.has(pos.col as int, pos.row as int) {
                Some(self@.cells[(pos.col as int, pos.row as int)])
            } else {
                None
            }),
    {
        if pos.row < self.height && pos.col < self.width {
            Some(self.rows[pos.row as usize][pos.col as usize])
        } else {
            None
        }
    }

    /// Replaces the cell at a position; outside of the grid nothing happens.
    pub fn put(&mut self, pos: Pos, cell: Cell)
        requires
            old(self).wf(),
        ensures
            final(self).wf(),
            final(self)@ == old(self)@.put(pos.col as int, pos.row as int, cell),
    {
        if pos.row < self.height && pos.col < self.width {
            self.rows[pos.row as usize][pos.col as usize] = cell;
        }
        proof {
            let g = old(self)@.put(pos.col as int, pos.row as int, cell);
            assert(self@.cells =~= g.cells);
        }
    }

    /// Places the cursor.
    pub fn place_cursor(&mut self, pos: Pos, style: CursorStyle)
        requires
            old(self).wf(),
        ensures
            final(self).wf(),
            final(self)@ == (GridView {
                cursor_pos: Some(pos),
                cursor_style: style,
                ..old(self)@
            }),
    {
        self.cursor_pos = Some(pos);
        self.cursor_style = style;
    }

    /// Empties every cell.
    pub fn erase_all(&mut self, attrs: Attrs)
        requires
            old(self).wf(),
        ensures
            final(self).wf(),
            final(self)@ == old(self)@.painted(|col: int, row: int| Some(Cell { ch: None, attrs })),
    {
        let cell = Cell { ch: None, attrs };
        let ghost g0 = self@;
        let mut r: u16 = 0;
        while r < self.height
            invariant
                self.wf(),
                r <= self.height,
                cell == (Cell { ch: None, attrs }),
                self@.width == g0.width,
                self@.height == g0.height,
                self@.cells.dom() == g0.cells.dom(),
                self@.cursor_pos == g0.cursor_pos,
                self@.cursor_style == g0.cursor_style,
                self@.scrollback_len == g0.scrollback_len,
                g0 == old(self)@,
                forall|x: int, y: int|
                    #![trigger self@.cells[(x, y)]]
                    self@.has(x, y) && y < r ==> self@.cells[(x, y)] == cell,
            decreases self.height - r,
        {
            let mut c: u16 = 0;
            while c < self.width
                invariant
                    self.wf(),
                    r < self.height,
                    c <= self.width,
                    cell == (Cell { ch: None, attrs }),
                    self@.width == g0.width,
                    self@.height == g0.height,
                    self@.cells.dom() == g0.cells.dom(),
                    self@.cursor_pos == g0.cursor_pos,
                    self@.cursor_style == g0.cursor_style,
                    self@.scrollback_len == g0.scrollback_len,
                    g0 == old(self)@,
                    forall|x: int, y: int|
                        #![trigger self@.cells[(x, y)]]
                        self@.has(x, y) && (y < r || (y == r && x < c)) ==> self@.cells[(x, y)]
                            == cell,
                decreases self.width - c,
            {
                self.put(Pos { col: c, row: r }, cell);
                c += 1;
            }
            r += 1;
        }
        proof {
            let g = g0.painted(|col: int, row: int| Some(Cell { ch: None, attrs }));
            assert(self@.cells =~= g.cells);
        }
    }

    fn place_char(&mut self, col: u16, row: u16, c: char, w: usize, attrs: Attrs)
        requires
            old(self).wf(),
            col + w <= u16::MAX,
        ensures
            final(self).wf(),
            final(self)@ == old(self)@.place(col as int, row as int, c, w as nat, attrs),
    {
        if w == 0 {
            return;
        }
        self.put(Pos { col, row }, Cell { ch: Some(c), attrs });
        let mut k: usize = 1;
        while k < w
            invariant
                self.wf(),
                1 <= k <= w,
                col + w <= u16::MAX,
                self@ == old(self)@.place(col as int, row as int, c, k as nat, attrs),
            decreases w - k,
        {
            self.put(Pos { col: col + k as u16, row }, Cell { ch: None, attrs });
            k += 1;
        }
    }

    /// Draws one line of text at the top of `area`, as far as whole characters
    /// fit, and returns the part of the area that it takes.
    pub fn draw_text(&mut self, area: Rect, text: &str, attrs: Attrs) -> (r: Rect)
        requires
            old(self).wf(),
            area.fits(),
        ensures
            final(self).wf(),
            final(self)@ == old(self)@.text(area, text@, attrs),
            r.x == area.x,
            r.y == area.y,
            r.width == text_width(area, text@),
            r.height == (if area.height == 0 {
                0int
            } else {
                1
            }),
            r.width <= area.width,
    {
        if area.height == 0 {
            return Rect { x: area.x, y: area.y, width: 0, height: 0 };
        }
        let chars = to_chars(text);
        let end: u16 = area.x + area.width;
        let mut col: u16 = area.x;
        let mut i: usize = 0;
        proof {
            assert(chars@.skip(0) =~= chars@);
        }
        while i < chars.len()
            invariant_except_break
                self.wf(),
                i <= chars@.len(),
                chars@ == text@,
                end == area.x + area.width,
                area.x <= col <= end,
                self@.write(col as int, end as int, area.y as int, chars@.skip(i as int), attrs)
                    == old(self)@.write(
                    area.x as int,
                    end as int,
                    area.y as int,
                    chars@,
                    attrs,
                ),
                written_end(col as int, end as int, chars@.skip(i as int)) == written_end(
                    area.x as int,
                    end as int,
                    chars@,
                ),
            ensures
                self.wf(),
                area.x <= col <= end,
                self@ == old(self)@.write(area.x as int, end as int, area.y as int, chars@, attrs),
                col == written_end(area.x as int, end as int, chars@),
            decreases chars@.len() - i,
        {
            let ghost rest = chars@.skip(i as int);
            let w = char_advance(chars[i]);
            proof {
                assert(rest[0] == chars@[i as int]);
                assert(rest.drop_first() =~= chars@.skip(i + 1));
            }
            if w > (end - col) as usize {
                break ;
            }
            self.place_char(col, area.y, chars[i], w, attrs);
            col = col + w as u16;
            i += 1;
        }
        Rect { x: area.x, y: area.y, width: col - area.x, height: 1 }
    }

    fn border_at(area: Rect, chars: &BorderChars, col: u16, row: u16) -> (r: Option<char>)
        requires
            area.fits(),
            area.covers(col as int, row as int),
        ensures
            r == border_char(area, *chars, col as int, row as int),
    {
        let left = col == area.x;
        let right = col == area.x + (area.width - 1);
        let top = row == area.y;
        let bottom = row == area.y + (area.height - 1);
        if top && left {
            Some(chars.top_left)
        } else if top && right {
            Some(chars.top_right)
        } else if bottom && left {
            Some(chars.bottom_left)
        } else if bottom && right {
            Some(chars.bottom_right)
        } else if top || bottom {
            Some(chars.horizontal)
        } else if left || right {
            Some(chars.vertical)
        } else {
            None
        }
    }

    /// Draws a border along the edges of `area`.
    pub fn draw_block(&mut self, area: Rect, chars: &BorderChars, attrs: Attrs)
        requires
            old(self).wf(),
            area.fits(),
        ensures
            final(self).wf(),
            final(self)@ == old(self)@.block(area, *chars, attrs),
    {
        let ghost g0 = self@;
        let ghost f = block_cells(area, *chars, attrs);
        let mut r: u16 = area.y;
        while r < area.y + area.height
            invariant
                self.wf(),
                area.fits(),
                area.y <= r <= area.y + area.height,
                f == block_cells(area, *chars, attrs),
                self@ == g0.painted(up_to(f, area, r as int, area.x as int)),
            decreases area.y + area.height - r,
        {
            let mut c: u16 = area.x;
            while c < area.x + area.width
                invariant
                    self.wf(),
                    area.fits(),
                    area.y <= r < area.y + area.height,
                    area.x <= c <= area.x + area.width,
                    f == block_cells(area, *chars, attrs),
                    self@ == g0.painted(up_to(f, area, r as int, c as int)),
                decreases area.x + area.width - c,
            {
                if let Some(ch) = Self::border_at(area, chars, c, r) {
                    self.put(Pos { col: c, row: r }, Cell { ch: Some(ch), attrs });
                }
                proof {
                    lemma_up_to_step(g0, f, area, r as int, c as int);
                }
                c += 1;
            }
            proof {
                lemma_up_to_row(g0, f, area, r as int);
            }
            r += 1;
        }
        proof {
            lemma_up_to_end(g0, f, area);
        }
    }

    /// Fills `area` with one character.
    pub fn fill_area(&mut self, area: Rect, ch: char, attrs: Attrs)
        requires
            old(self).wf(),
            area.fits(),
        ensures
            final(self).wf(),
            final(self)@ == old(self)@.filled(area, ch, attrs),
    {
        let ghost g0 = self@;
        let ghost f = fill_cells(area, ch, attrs);
        let mut r: u16 = area.y;
        while r < area.y + area.height
            invariant
                self.wf(),
                area.fits(),
                area.y <= r <= area.y + area.height,
                f == fill_cells(area, ch, attrs),
                self@ == g0.painted(up_to(f, area, r as int, area.x as int)),
            decreases area.y + area.height - r,
        {
            let mut c: u16 = area.x;
            while c < area.x + area.width
                invariant
                    self.wf(),
                    area.fits(),
                    area.y <= r < area.y + area.height,
                    area.x <= c <= area.x + area.width,
                    f == fill_cells(area, ch, attrs),
                    self@ == g0.painted(up_to(f, area, r as int, c as int)),
                decreases area.x + area.width - c,
            {
                self.put(Pos { col: c, row: r }, Cell { ch: Some(ch), attrs });
                proof {
                    lemma_up_to_step(g0, f, area, r as int, c as int);
                }
                c += 1;
            }
            proof {
                lemma_up_to_row(g0, f, area, r as int);
            }
            r += 1;
        }
        proof {
            lemma_up_to_end(g0, f, area);
        }
    }
}

/// `f` on the cells of `area` that come before (col, row) row by row.
pub open spec fn up_to(
    f: spec_fn(int, int) -> Option<Cell>,
    area: Rect,
    row: int,
    col: int,
) -> spec_fn(int, int) -> Option<Cell> {
    |x: int, y: int|
        if area.covers(x, y) && (y < row || (y == row && x < col)) {
            f(x, y)
        } else {
            None
        }
}

/// Painting one more cell.
pub proof fn lemma_up_to_step(
    g: GridView,
    f: spec_fn(int, int) -> Option<Cell>,
    area: Rect,
    row: int,
    col: int,
)
    requires
        area.covers(col, row),
    ensures
        g.painted(up_to(f, area, row, col + 1)) == (match f(col, row) {
            Some(cell) => g.painted(up_to(f, area, row, col)).put(col, row, cell),
            None => g.painted(up_to(f, area, row, col)),
        }),
{
    let a = g.painted(up_to(f, area, row, col + 1));
    let b = match f(col, row) {
        Some(cell) => g.painted(up_to(f, area, row, col)).put(col, row, cell),
        None => g.painted(up_to(f, area, row, col)),
    };
    assert(a.cells =~= b.cells);
}

/// A whole row was painted.
pub proof fn lemma_up_to_row(
    g: GridView,
    f: spec_fn(int, int) -> Option<Cell>,
    area: Rect,
    row: int,
)
    ensures
        g.painted(up_to(f, area, row, area.x + area.width)) == g.painted(
            up_to(f, area, row + 1, area.x as int),
        ),
{
    assert(g.painted(up_to(f, area, row, area.x + area.width)).cells =~= g.painted(
        up_to(f, area, row + 1, area.x as int),
    ).cells);
}

/// All of the area was painted.
pub proof fn lemma_up_to_end(g: GridView, f: spec_fn(int, int) -> Option<Cell>, area: Rect)
    requires
        forall|col: int, row: int| #[trigger] f(col, row) is Some ==> area.covers(col, row),
    ensures
        g.painted(up_to(f, area, area.y + area.height, area.x as int)) == g.painted(f),
{
    assert(g.painted(up_to(f, area, area.y + area.height, area.x as int)).cells =~= g.painted(
        f,
    ).cells) by {
        assert forall|p: (int, int)| g.cells.dom().contains(p) implies {
            #[trigger] g.painted(up_to(f, area, area.y + area.height, area.x as int)).cells[p]
                == g.painted(f).cells[p]
        } by {
            if f(p.0, p.1) is Some {
                assert(area.covers(p.0, p.1));
            }
        }
    }
}

/// A grid with the rest of a line that is being written.
#[verifier::ext_equal]
pub struct Line {
    pub grid: GridView,
    pub area: Rect,
}

impl Line {
    /// The line after some text was written.
    pub open spec fn wrote(self, chars: Seq<char>, attrs: Attrs) -> Line {
        Line {
            grid: self.grid.text(self.area, chars, attrs),
            area: self.area.past(text_width(self.area, chars)),
        }
    }
}

impl Grid {
    /// Writes text at the start of `area` and returns the rest of it.
    pub fn write_line(&mut self, area: Rect, text: &str, attrs: Attrs) -> (rest: Rect)
        requires
            old(self).wf(),
            area.fits(),
        ensures
            final(self).wf(),
            (Line { grid: final(self)@, area: rest }) == (Line {
                grid: old(self)@,
                area,
            }).wrote(text@, attrs),
            rest.fits(),
            rest.height == area.height,
            rest.y == area.y,
    {
        let r = self.draw_text(area, text, attrs);
        area.move_left(r.width)
    }
}

} // verus!
