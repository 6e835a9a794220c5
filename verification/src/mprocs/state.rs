//! What the classic interface shows.

use crate::console::list::{ListState, RowShape};
use crate::console::scope::Scope;
use crate::mprocs::proc::view::ProcView;
use crate::text::str_eq;
use vstd::prelude::*;

verus! {

pub struct State {
    pub scope: Scope,
    pub procs: Vec<ProcView>,
    pub procs_list: ListState,
    pub quitting: bool,
}

/// The first process of a name.
pub open spec fn named(procs: Seq<ProcView>, name: Seq<char>) -> Option<int>
    decreases procs.len(),
{
    if procs.len() == 0 {
        None
    } else if procs[0].cfg.name@ == name {
        Some(0)
    } else {
        match named(procs.skip(1), name) {
            Some(i) => Some(i + 1),
            None => None,
        }
    }
}

pub fn find_named(procs: &Vec<ProcView>, name: &str) -> (r: Option<usize>)
    ensures
        match r {
            Some(i) => i < procs@.len() && named(procs@, name@) == Some(i as int),
            None => named(procs@, name@) is None,
        },
{
    let mut i: usize = 0;
    proof {
        assert(procs@.skip(0) =~= procs@);
    }
    while i < procs.len()
        invariant
            i <= procs@.len(),
            named(procs@, name@) == (match named(procs@.skip(i as int), name@) {
                Some(k) => Some(k + i),
                None => None,
            }),
        decreases procs@.len() - i,
    {
        proof {
            assert(procs@.skip(i as int).skip(1) =~= procs@.skip(i + 1));
        }
        if str_eq(procs[i].name(), name) {
            return Some(i);
        }
        i += 1;
    }
    None
}

/// How many rows each process takes.
pub open spec fn shapes_of(procs: Seq<ProcView>) -> Seq<RowShape> {
    procs.map_values(
        |p: ProcView| RowShape { expanded: p.expanded, children: p.children@.len() as usize },
    )
}

pub fn row_shapes(procs: &Vec<ProcView>) -> (r: Vec<RowShape>)
    ensures
        r@ == shapes_of(procs@),
{
    let mut out: Vec<RowShape> = Vec::new();
    let mut i: usize = 0;
    while i < procs.len()
        invariant
            i <= procs@.len(),
            out@.len() == i,
            forall|k: int| 0 <= k < i ==> #[trigger] out@[k] == shapes_of(procs@)[k],
        decreases procs@.len() - i,
    {
        out.push(RowShape { expanded: procs[i].expanded, children: procs[i].children.len() });
        i += 1;
    }
    proof {
        assert(out@ =~= shapes_of(procs@));
    }
    out
}

impl State {
    pub fn selected(&self) -> (r: usize)
        ensures
            r == self.procs_list.selected,
    {
        self.procs_list.selected
    }

    pub open spec fn current(self) -> Option<ProcView> {
        if self.procs_list.selected < self.procs@.len() {
            Some(self.procs@[self.procs_list.selected as int])
        } else {
            None
        }
    }

    pub fn get_current_proc(&self) -> (r: Option<&ProcView>)
        ensures
            match r {
                Some(p) => self.current() == Some(*p),
                None => self.current() is None,
            },
    {
        if self.procs_list.selected < self.procs.len() {
            Some(&self.procs[self.procs_list.selected])
        } else {
            None
        }
    }
}

} // verus!
