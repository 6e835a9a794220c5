//! Selecting text on a frozen screen.

use crate::term::screen::Screen;
use vstd::prelude::*;

verus! {

/// A position on a screen; rows above it are negative.
#[derive(Clone, Copy, Debug, PartialEq, Eq, Structural)]
pub struct Pos {
    pub y: i32,
    pub x: i32,
}

impl Pos {
    /// Reading order.
    pub open spec fn not_after(self, other: Pos) -> bool {
        self.y < other.y || (self.y == other.y && self.x <= other.x)
    }

    /// Whether `target` lies between two ends in reading order, whichever
    /// comes first.
    pub open spec fn spans(start: Pos, end: Pos, target: Pos) -> bool {
        if start.not_after(end) {
            start.not_after(target) && target.not_after(end)
        } else {
            end.not_after(target) && target.not_after(start)
        }
    }

    fn before_or_at(&self, other: &Pos) -> (r: bool)
        ensures
            r == self.not_after(*other),
    {
        self.y < other.y || (self.y == other.y && self.x <= other.x)
    }

    pub fn within(start: &Pos, end: &Pos, target: &Pos) -> (r: bool)
        ensures
            r == Pos::spans(*start, *end, *target),
    {
        if start.before_or_at(end) {
            start.before_or_at(target) && target.before_or_at(end)
        } else {
            end.before_or_at(target) && target.before_or_at(start)
        }
    }
}

/// Which end is picked first makes no difference to what is selected.
pub proof fn selection_has_no_direction(start: Pos, end: Pos, target: Pos)
    ensures
        Pos::spans(start, end, target) == Pos::spans(end, start, target),
{
}

pub enum CopyMode {
    Inactive,
    /// A frozen screen and the ends of the selection.
    Active(Screen, Pos, Option<Pos>),
}

} // verus!
