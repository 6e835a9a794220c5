//! Where the parts of the console are on the screen.

use crate::term::rect::Rect;
use vstd::prelude::*;

verus! {

/// Rows for the keys, and columns for the list by default.
pub const KEYMAP_HEIGHT: u16 = 3;

pub const DEFAULT_PROC_LIST_WIDTH: u16 = 30;

#[derive(Clone, Copy, Debug, PartialEq, Eq, Structural)]
pub struct AppLayout {
    pub procs: Rect,
    pub term: Rect,
    pub keymap: Rect,
    pub zoom_banner: Rect,
}

pub open spec fn at_most(n: u16, limit: u16) -> u16 {
    if n < limit {
        n
    } else {
        limit
    }
}

impl AppLayout {
    /// The keys take the last rows unless they are hidden or the terminal is
    /// zoomed; the list takes the first columns of the rest, or a zoomed
    /// terminal has a banner above it.
    pub open spec fn of(area: Rect, zoom: bool, hide_keymap: bool, list_width: u16) -> AppLayout {
        let keys: u16 = if zoom || hide_keymap {
            0
        } else {
            at_most(KEYMAP_HEIGHT, area.height)
        };
        let list: u16 = if zoom {
            0
        } else {
            at_most(list_width, area.width)
        };
        let top = area.height - keys;
        let banner: u16 = if zoom {
            at_most(1, top as u16)
        } else {
            0
        };
        AppLayout {
            procs: Rect { x: area.x, y: area.y, width: list, height: top as u16 },
            term: Rect {
                x: (area.x + list) as u16,
                y: (area.y + banner) as u16,
                width: (area.width - list) as u16,
                height: (top - banner) as u16,
            },
            keymap: Rect { x: area.x, y: (area.y + top) as u16, width: area.width, height: keys },
            zoom_banner: Rect {
                x: (area.x + list) as u16,
                y: area.y,
                width: (area.width - list) as u16,
                height: banner,
            },
        }
    }

    pub fn new(area: Rect, zoom: bool, hide_keymap: bool, list_width: u16) -> (r: Self)
        requires
            area.fits(),
        ensures
            r == AppLayout::of(area, zoom, hide_keymap, list_width),
    {
        let keys: u16 = if zoom || hide_keymap {
            0
        } else if KEYMAP_HEIGHT < area.height {
            KEYMAP_HEIGHT
        } else {
            area.height
        };
        let list: u16 = if zoom {
            0
        } else if list_width < area.width {
            list_width
        } else {
            area.width
        };
        let top: u16 = area.height - keys;
        let banner: u16 = if zoom && top > 0 {
            1
        } else {
            0
        };
        AppLayout {
            procs: Rect { x: area.x, y: area.y, width: list, height: top },
            term: Rect {
                x: area.x + list,
                y: area.y + banner,
                width: area.width - list,
                height: top - banner,
            },
            keymap: Rect { x: area.x, y: area.y + top, width: area.width, height: keys },
            zoom_banner: Rect {
                x: area.x + list,
                y: area.y,
                width: area.width - list,
                height: banner,
            },
        }
    }

    /// The screen of the process, inside of the border.
    pub fn term_area(&self) -> (r: Rect)
        requires
            self.term.x < u16::MAX,
            self.term.y < u16::MAX,
        ensures
            r == self.term.shrunk(1),
    {
        self.term.inner(1)
    }
}

/// Every cell of the screen belongs to exactly one part.
pub proof fn parts_tile_the_screen(
    area: Rect,
    zoom: bool,
    hide_keymap: bool,
    list_width: u16,
    col: int,
    row: int,
)
    requires
        area.fits(),
    ensures
        ({
            let l = AppLayout::of(area, zoom, hide_keymap, list_width);
            let hits = (if l.procs.covers(col, row) {
                1int
            } else {
                0
            }) + (if l.term.covers(col, row) {
                1int
            } else {
                0
            }) + (if l.keymap.covers(col, row) {
                1int
            } else {
                0
            }) + (if l.zoom_banner.covers(col, row) {
                1int
            } else {
                0
            });
            hits == (if area.covers(col, row) {
                1int
            } else {
                0
            })
        }),
{
}

} // verus!
