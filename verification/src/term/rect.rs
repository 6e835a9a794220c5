//! Positions and rectangles on the screen.

use vstd::prelude::*;

verus! {

#[derive(Clone, Copy, Debug, PartialEq, Eq, Structural)]
pub struct Pos {
    pub col: u16,
    pub row: u16,
}

#[derive(Clone, Copy, Debug, PartialEq, Eq, Structural)]
pub struct Size {
    pub width: u16,
    pub height: u16,
}

#[derive(Clone, Copy, Debug, PartialEq, Eq, Structural)]
pub struct Rect {
    pub x: u16,
    pub y: u16,
    pub width: u16,
    pub height: u16,
}

impl Rect {
    /// The far edges stay within the coordinate range.
    pub open spec fn fits(self) -> bool {
        &&& self.x + self.width <= u16::MAX
        &&& self.y + self.height <= u16::MAX
    }

    /// Whether the cell in column `col` and row `row` lies inside.
    pub open spec fn covers(self, col: int, row: int) -> bool {
        &&& self.x <= col < self.x + self.width
        &&& self.y <= row < self.y + self.height
    }

    /// Whether every cell of `self` is one of `other`.
    pub open spec fn within(self, other: Rect) -> bool {
        forall|col: int, row: int|
            #![trigger self.covers(col, row)]
            self.covers(col, row) ==> other.covers(col, row)
    }

    pub fn new(x: u16, y: u16, width: u16, height: u16) -> (r: Self)
        ensures
            r == (Rect { x, y, width, height }),
    {
        Rect { x, y, width, height }
    }

    pub fn size(self) -> (r: Size)
        ensures
            r == (Size { width: self.width, height: self.height }),
    {
        Size { width: self.width, height: self.height }
    }

    /// The area that is left when `margin` cells are taken off each side.
    pub open spec fn shrunk(self, margin: u16) -> Rect {
        Rect {
            x: (self.x + margin) as u16,
            y: (self.y + margin) as u16,
            width: if self.width >= 2 * margin {
                (self.width - 2 * margin) as u16
            } else {
                0
            },
            height: if self.height >= 2 * margin {
                (self.height - 2 * margin) as u16
            } else {
                0
            },
        }
    }

    pub fn inner(self, margin: u16) -> (r: Self)
        requires
            self.x + margin <= u16::MAX,
            self.y + margin <= u16::MAX,
        ensures
            r == self.shrunk(margin),
    {
        let both: u32 = margin as u32 + margin as u32;
        let width: u16 = if self.width as u32 >= both {
            (self.width as u32 - both) as u16
        } else {
            0
        };
        let height: u16 = if self.height as u32 >= both {
            (self.height as u32 - both) as u16
        } else {
            0
        };
        Rect { x: self.x + margin, y: self.y + margin, width, height }
    }

    /// The area that is left when `n` columns are taken off the left side.
    pub open spec fn past(self, n: int) -> Rect {
        if n <= self.width {
            Rect { x: (self.x + n) as u16, width: (self.width - n) as u16, ..self }
        } else {
            Rect { x: (self.x + self.width) as u16, width: 0, ..self }
        }
    }

    pub fn move_left(self, n: u16) -> (r: Self)
        requires
            self.fits(),
        ensures
            r == self.past(n as int),
            r.fits(),
    {
        if n <= self.width {
            Rect { x: self.x + n, y: self.y, width: self.width - n, height: self.height }
        } else {
            Rect { x: self.x + self.width, y: self.y, width: 0, height: self.height }
        }
    }
}

} // verus!
