//! What the terminal of a process shows.

use crate::term::grid::{Cell, CursorStyle};
use crate::term::mouse::MouseProtocolMode;
use crate::term::rect::Size;
use vstd::prelude::*;

verus! {

/// The screen of a terminal, as it was last read.
pub struct Screen {
    pub size: Size,
    /// The visible rows.
    pub rows: Vec<Vec<Cell>>,
    pub title: String,
    pub hide_cursor: bool,
    pub cursor_row: u16,
    pub cursor_col: u16,
    pub cursor_style: CursorStyle,
    /// How many lines the view is scrolled up.
    pub scrollback: usize,
    /// How many lines are kept above the screen.
    pub scrollback_len: usize,
    pub application_cursor: bool,
    pub mouse_mode: MouseProtocolMode,
}

impl Screen {
    pub open spec fn cell_at(self, row: int, col: int) -> Option<Cell> {
        if 0 <= row < self.rows@.len() && 0 <= col < self.rows@[row]@.len() {
            Some(self.rows@[row]@[col])
        } else {
            None
        }
    }

    /// A screen without content.
    pub open spec fn is_blank(self, size: Size, scrollback_len: usize) -> bool {
        &&& self.size == size
        &&& self.rows@.len() == 0
        &&& self.title@ == Seq::<char>::empty()
        &&& !self.hide_cursor
        &&& self.cursor_row == 0
        &&& self.cursor_col == 0
        &&& self.cursor_style is Default
        &&& self.scrollback == 0
        &&& self.scrollback_len == scrollback_len
        &&& !self.application_cursor
        &&& self.mouse_mode is Off
    }

    pub fn new(height: u16, width: u16, scrollback_len: usize) -> (r: Self)
        ensures
            r.is_blank((Size { width, height }), scrollback_len),
    {
        Screen {
            size: Size { width, height },
            rows: Vec::new(),
            title: String::new(),
            hide_cursor: false,
            cursor_row: 0,
            cursor_col: 0,
            cursor_style: CursorStyle::Default,
            scrollback: 0,
            scrollback_len,
            application_cursor: false,
            mouse_mode: MouseProtocolMode::Off,
        }
    }

    pub fn cell(&self, row: u16, col: u16) -> (r: Option<Cell>)
        ensures
            r == self.cell_at(row as int, col as int),
    {
        if (row as usize) < self.rows.len() && (col as usize) < self.rows[row as usize].len() {
            Some(self.rows[row as usize][col as usize])
        } else {
            None
        }
    }
}

/// A terminal that several views share, by its number.
#[derive(Clone, Copy, Debug, PartialEq, Eq, Structural)]
pub struct SharedVt(pub usize);

/// The screens of all terminals.
pub struct VtTable {
    pub screens: Vec<Screen>,
}

impl View for VtTable {
    type V = Seq<Screen>;

    open spec fn view(&self) -> Seq<Screen> {
        self.screens@
    }
}

impl VtTable {
    pub fn new() -> (r: Self)
        ensures
            r@ == Seq::<Screen>::empty(),
    {
        VtTable { screens: Vec::new() }
    }

    /// Adds a terminal without content.
    pub fn add_terminal(&mut self, height: u16, width: u16, scrollback_len: usize) -> (r: SharedVt)
        ensures
            r.0 == old(self)@.len(),
            final(self)@.len() == old(self)@.len() + 1,
            final(self)@.drop_last() == old(self)@,
            final(self)@.last().is_blank((Size { width, height }), scrollback_len),
    {
        let vt = SharedVt(self.screens.len());
        self.screens.push(Screen::new(height, width, scrollback_len));
        proof {
            assert(self@.drop_last() =~= old(self)@);
        }
        vt
    }

    /// The screen of a terminal, if it can be read.
    pub open spec fn screen(self, vt: SharedVt) -> Option<Screen> {
        if vt.0 < self@.len() {
            Some(self@[vt.0 as int])
        } else {
            None
        }
    }

    pub fn read(&self, vt: SharedVt) -> (r: Option<&Screen>)
        ensures
            match r {
                Some(s) => self.screen(vt) == Some(*s),
                None => self.screen(vt) is None,
            },
    {
        if vt.0 < self.screens.len() {
            Some(&self.screens[vt.0])
        } else {
            None
        }
    }
}

} // verus!
