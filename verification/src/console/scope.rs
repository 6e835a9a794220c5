//! Which part of the screen has the focus.

use vstd::prelude::*;

verus! {

#[derive(Clone, Copy, Debug, PartialEq, Eq, Structural)]
pub enum Scope {
    Procs,
    Term,
    TermZoom,
}

impl Scope {
    pub open spec fn toggled(self) -> Scope {
        match self {
            Scope::Procs => Scope::Term,
            Scope::Term => Scope::Procs,
            Scope::TermZoom => Scope::Procs,
        }
    }

    pub fn toggle(self) -> (r: Scope)
        ensures
            r == self.toggled(),
    {
        match self {
            Scope::Procs => Scope::Term,
            Scope::Term | Scope::TermZoom => Scope::Procs,
        }
    }

    pub fn is_zoomed(self) -> (r: bool)
        ensures
            r == (self is TermZoom),
    {
        match self {
            Scope::TermZoom => true,
            _ => false,
        }
    }

    /// Whether the terminal has the focus.
    pub fn in_term(self) -> (r: bool)
        ensures
            r == !(self is Procs),
    {
        match self {
            Scope::Procs => false,
            _ => true,
        }
    }
}

} // verus!
