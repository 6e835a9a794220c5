//! Colors and text attributes of a cell.

use vstd::prelude::*;

verus! {

#[derive(Clone, Copy, Debug, PartialEq, Eq, Structural)]
pub enum Color {
    Default,
    Black,
    Red,
    Green,
    Yellow,
    Blue,
    Magenta,
    Cyan,
    White,
    BrightBlack,
    BrightRed,
    BrightGreen,
    BrightYellow,
    BrightBlue,
    /// An entry of the terminal's palette.
    Idx(u8),
}

#[derive(Clone, Copy, Debug, PartialEq, Eq, Structural)]
pub struct Attrs {
    pub fg: Color,
    pub bg: Color,
    pub bold: bool,
}

/// Default colors, not bold.
pub open spec fn plain_attrs() -> Attrs {
    Attrs { fg: Color::Default, bg: Color::Default, bold: false }
}

impl Attrs {
    pub fn plain() -> (r: Self)
        ensures
            r == plain_attrs(),
    {
        Attrs { fg: Color::Default, bg: Color::Default, bold: false }
    }

    pub fn fg(self, color: Color) -> (r: Self)
        ensures
            r == (Attrs { fg: color, ..self }),
    {
        Attrs { fg: color, bg: self.bg, bold: self.bold }
    }

    pub fn bg(self, color: Color) -> (r: Self)
        ensures
            r == (Attrs { bg: color, ..self }),
    {
        Attrs { fg: self.fg, bg: color, bold: self.bold }
    }

    pub fn set_bold(self, bold: bool) -> (r: Self)
        ensures
            r == (Attrs { bold, ..self }),
    {
        Attrs { fg: self.fg, bg: self.bg, bold }
    }
}

impl Default for Attrs {
    fn default() -> (r: Self)
        ensures
            r == plain_attrs(),
    {
        Attrs::plain()
    }
}

} // verus!
