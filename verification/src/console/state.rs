//! What the console shows.

use crate::console::action::ClientId;
use crate::console::keymap::KeymapGroup;
use crate::console::list::{ListState, RowShape};
use crate::console::proc::view::{ProcModel, ProcView};
use crate::kernel::task::TaskId;
use crate::text::str_eq;
use vstd::prelude::*;

pub use crate::console::scope::Scope;

verus! {

/// The view of the dependency graph.
#[derive(Clone, Copy, Debug, PartialEq, Eq, Structural)]
pub struct DashboardState {
    pub scroll_col: i32,
    pub scroll_row: i32,
    /// The process whose node has the focus.
    pub focused_node: Option<usize>,
}

impl DashboardState {
    pub open spec fn initial() -> DashboardState {
        DashboardState { scroll_col: 0, scroll_row: 0, focused_node: None }
    }
}

pub struct State {
    /// The client whose input is being handled.
    pub current_client_id: Option<ClientId>,
    pub scope: Scope,
    pub procs: Vec<ProcView>,
    pub procs_list: ListState,
    pub hide_keymap_window: bool,
    pub quitting: bool,
    pub dashboard: DashboardState,
}

/// The state, by its characters.
#[verifier::ext_equal]
pub struct StateModel {
    pub client: Option<ClientId>,
    pub scope: Scope,
    pub procs: Seq<ProcModel>,
    pub list: ListState,
    pub hide_keymap: bool,
    pub quitting: bool,
    pub dashboard: DashboardState,
}

pub open spec fn procs_view(procs: Seq<ProcView>) -> Seq<ProcModel> {
    procs.map_values(|p: ProcView| p@)
}

impl View for State {
    type V = StateModel;

    open spec fn view(&self) -> StateModel {
        StateModel {
            client: self.current_client_id,
            scope: self.scope,
            procs: procs_view(self.procs@),
            list: self.procs_list,
            hide_keymap: self.hide_keymap_window,
            quitting: self.quitting,
            dashboard: self.dashboard,
        }
    }
}

/// The first process of task `id`.
pub open spec fn proc_index(procs: Seq<ProcModel>, id: TaskId) -> Option<int>
    decreases procs.len(),
{
    if procs.len() == 0 {
        None
    } else if procs[0].id == id {
        Some(0)
    } else {
        match proc_index(procs.skip(1), id) {
            Some(i) => Some(i + 1),
            None => None,
        }
    }
}

/// The first process of a name.
pub open spec fn named(procs: Seq<ProcModel>, name: Seq<char>) -> Option<int>
    decreases procs.len(),
{
    if procs.len() == 0 {
        None
    } else if procs[0].name == name {
        Some(0)
    } else {
        match named(procs.skip(1), name) {
            Some(i) => Some(i + 1),
            None => None,
        }
    }
}

/// A process of task `id` is found where there is one, and only there.
pub proof fn lemma_proc_index(procs: Seq<ProcModel>, id: TaskId)
    ensures
        match proc_index(procs, id) {
            Some(i) => 0 <= i < procs.len() && procs[i].id == id && forall|j: int|
                0 <= j < i ==> (#[trigger] procs[j]).id != id,
            None => forall|j: int| 0 <= j < procs.len() ==> (#[trigger] procs[j]).id != id,
        },
    decreases procs.len(),
{
    if procs.len() > 0 && procs[0].id != id {
        let rest = procs.skip(1);
        lemma_proc_index(rest, id);
        assert forall|j: int| 0 < j < procs.len() implies procs[j] == rest[j - 1] by {}
    }
}

pub fn find_named(procs: &Vec<ProcView>, name: &str) -> (r: Option<usize>)
    ensures
        match r {
            Some(i) => i < procs@.len() && named(procs_view(procs@), name@) == Some(i as int),
            None => named(procs_view(procs@), name@) is None,
        },
{
    let ghost all = procs_view(procs@);
    let mut i: usize = 0;
    proof {
        assert(all.skip(0) =~= all);
    }
    while i < procs.len()
        invariant
            i <= procs@.len(),
            all == procs_view(procs@),
            named(all, name@) == (match named(all.skip(i as int), name@) {
                Some(k) => Some(k + i),
                None => None,
            }),
        decreases procs@.len() - i,
    {
        proof {
            assert(all.skip(i as int).skip(1) =~= all.skip(i + 1));
            assert(all.skip(i as int)[0] == procs@[i as int]@);
        }
        if str_eq(procs[i].name(), name) {
            return Some(i);
        }
        i += 1;
    }
    None
}

/// How many rows each process takes.
pub open spec fn shapes_of(procs: Seq<ProcModel>) -> Seq<RowShape> {
    procs.map_values(
        |p: ProcModel| RowShape { expanded: p.expanded, children: p.children.len() as usize },
    )
}

pub fn row_shapes(procs: &Vec<ProcView>) -> (r: Vec<RowShape>)
    ensures
        r@ == shapes_of(procs_view(procs@)),
{
    let mut out: Vec<RowShape> = Vec::new();
    let mut i: usize = 0;
    while i < procs.len()
        invariant
            i <= procs@.len(),
            out@.len() == i,
            forall|k: int| 0 <= k < i ==> #[trigger] out@[k] == shapes_of(procs_view(procs@))[k],
        decreases procs@.len() - i,
    {
        out.push(RowShape { expanded: procs[i].expanded, children: procs[i].children.len() });
        i += 1;
    }
    proof {
        assert(out@ =~= shapes_of(procs_view(procs@)));
    }
    out
}

impl StateModel {
    pub open spec fn current(self) -> Option<ProcModel> {
        if self.list.selected < self.procs.len() {
            Some(self.procs[self.list.selected as int])
        } else {
            None
        }
    }

    /// The state with process `i` replaced, if there is one.
    pub open spec fn with_proc(self, i: int, proc: ProcModel) -> StateModel {
        if 0 <= i < self.procs.len() {
            StateModel { procs: self.procs.update(i, proc), ..self }
        } else {
            self
        }
    }

    /// The state with another row below process `i` focused, or none.
    pub open spec fn with_focus(self, i: int, child: Option<usize>) -> StateModel {
        self.with_proc(i, ProcModel { focused_child: child, ..self.procs[i] })
    }

    /// Process `i` is selected; what it printed is looked at.
    pub open spec fn selecting(self, i: usize) -> StateModel {
        StateModel {
            list: ListState { selected: i, ..self.list },
            ..self.with_proc(i as int, ProcModel { changed: false, ..self.procs[i as int] })
        }
    }

    /// The rows below process `i` are shown or hidden.
    pub open spec fn toggled(self, i: int) -> StateModel {
        self.with_proc(
            i,
            ProcModel {
                expanded: !self.procs[i].expanded,
                focused_child: if self.procs[i].expanded {
                    None
                } else {
                    self.procs[i].focused_child
                },
                ..self.procs[i]
            },
        )
    }

    pub open spec fn all_down(self) -> bool {
        forall|i: int| 0 <= i < self.procs.len() ==> !(#[trigger] self.procs[i]).status.up()
    }

    pub open spec fn keymap_group(self) -> KeymapGroup {
        match self.scope {
            Scope::Procs => KeymapGroup::Procs,
            _ => match self.current() {
                Some(proc) => if proc.present is Some {
                    KeymapGroup::Copy
                } else {
                    KeymapGroup::Term
                },
                None => KeymapGroup::Term,
            },
        }
    }
}

impl State {
    /// Nothing is shown yet.
    pub fn new(hide_keymap_window: bool) -> (r: Self)
        ensures
            r@ == (StateModel {
                client: None,
                scope: Scope::Procs,
                procs: Seq::empty(),
                list: ListState::initial(),
                hide_keymap: hide_keymap_window,
                quitting: false,
                dashboard: DashboardState::initial(),
            }),
    {
        let r = State {
            current_client_id: None,
            scope: Scope::Procs,
            procs: Vec::new(),
            procs_list: ListState::new(),
            hide_keymap_window,
            quitting: false,
            dashboard: DashboardState { scroll_col: 0, scroll_row: 0, focused_node: None },
        };
        proof {
            assert(procs_view(r.procs@) =~= Seq::empty());
        }
        r
    }

    pub fn selected(&self) -> (r: usize)
        ensures
            r == self@.list.selected,
    {
        self.procs_list.selected
    }

    pub fn get_current_proc(&self) -> (r: Option<&ProcView>)
        ensures
            match r {
                Some(p) => {
                    &&& self@.list.selected < self.procs@.len()
                    &&& *p == self.procs@[self@.list.selected as int]
                    &&& self@.current() == Some(p@)
                },
                None => self@.current() is None && self@.list.selected >= self.procs@.len(),
            },
    {
        if self.procs_list.selected < self.procs.len() {
            Some(&self.procs[self.procs_list.selected])
        } else {
            None
        }
    }

    /// The place of the process of a task.
    pub fn find_proc(&self, id: TaskId) -> (r: Option<usize>)
        ensures
            match r {
                Some(i) => i < self.procs@.len() && proc_index(self@.procs, id) == Some(i as int),
                None => proc_index(self@.procs, id) is None,
            },
    {
        let ghost all = procs_view(self.procs@);
        let mut i: usize = 0;
        proof {
            assert(all.skip(0) =~= all);
        }
        while i < self.procs.len()
            invariant
                i <= self.procs@.len(),
                all == procs_view(self.procs@),
                proc_index(all, id) == (match proc_index(all.skip(i as int), id) {
                    Some(k) => Some(k + i),
                    None => None,
                }),
            decreases self.procs@.len() - i,
        {
            proof {
                assert(all.skip(i as int).skip(1) =~= all.skip(i + 1));
                assert(all.skip(i as int)[0] == self.procs@[i as int]@);
            }
            if self.procs[i].id == id {
                return Some(i);
            }
            i += 1;
        }
        None
    }

    pub fn get_proc_mut(&mut self, id: TaskId) -> (r: Option<&mut ProcView>)
        ensures
            match proc_index(old(self)@.procs, id) {
                Some(k) => {
                    &&& 0 <= k < old(self).procs@.len()
                    &&& r is Some
                    &&& *(r->0) == old(self).procs@[k]
                    &&& final(self).procs@ == old(self).procs@.update(k, *final(r->0))
                    &&& *final(self) == (State { procs: final(self).procs, ..*old(self) })
                },
                None => r is None && *final(self) == *old(self),
            },
    {
        match self.find_proc(id) {
            Some(i) => Some(&mut self.procs[i]),
            None => None,
        }
    }

    /// Focuses a row below process `i`, or the process itself.
    pub fn set_focus(&mut self, i: usize, child: Option<usize>)
        ensures
            final(self)@ == old(self)@.with_focus(i as int, child),
    {
        if i < self.procs.len() {
            self.procs[i].focused_child = child;
            proof {
                assert(self@ =~= old(self)@.with_focus(i as int, child));
            }
        }
    }

    pub fn select_proc(&mut self, i: usize)
        ensures
            final(self)@ == old(self)@.selecting(i),
    {
        self.procs_list.selected = i;
        if i < self.procs.len() {
            self.procs[i].focus();
        }
        proof {
            assert(self@ =~= old(self)@.selecting(i));
        }
    }

    /// Shows or hides the rows below process `i`.
    pub fn toggle_children(&mut self, i: usize)
        ensures
            final(self)@ == old(self)@.toggled(i as int),
    {
        if i < self.procs.len() {
            let expanded = !self.procs[i].expanded;
            self.procs[i].expanded = expanded;
            if !expanded {
                self.procs[i].focused_child = None;
            }
        }
        proof {
            assert(self@ =~= old(self)@.toggled(i as int));
        }
    }

    pub fn all_procs_down(&self) -> (r: bool)
        ensures
            r == self@.all_down(),
    {
        let mut i: usize = 0;
        while i < self.procs.len()
            invariant
                i <= self.procs@.len(),
                forall|k: int| 0 <= k < i ==> !(#[trigger] self@.procs[k]).status.up(),
            decreases self.procs@.len() - i,
        {
            if self.procs[i].is_up() {
                proof {
                    assert(self@.procs[i as int].status.up());
                }
                return false;
            }
            i += 1;
        }
        true
    }

    pub fn toggle_keymap_window(&mut self)
        ensures
            final(self)@ == (StateModel { hide_keymap: !old(self)@.hide_keymap, ..old(self)@ }),
    {
        self.hide_keymap_window = !self.hide_keymap_window;
    }

    pub fn get_keymap_group(&self) -> (r: KeymapGroup)
        ensures
            r == self@.keymap_group(),
    {
        match self.scope {
            Scope::Procs => KeymapGroup::Procs,
            Scope::Term | Scope::TermZoom => match self.get_current_proc() {
                Some(proc) => if proc.copy_active() {
                    KeymapGroup::Copy
                } else {
                    KeymapGroup::Term
                },
                None => KeymapGroup::Term,
            },
        }
    }
}

} // verus!
