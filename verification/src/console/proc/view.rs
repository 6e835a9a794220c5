//! The state of a process that the console keeps.

use crate::console::proc::child::{ChildKind, ChildModel, ChildRow};
use crate::kernel::path::{path_view, TaskPath};
use crate::kernel::task::{TaskId, TaskStatus};
use crate::term::screen::SharedVt;
use crate::text::strings_view;
use vstd::prelude::*;

verus! {

pub struct ProcView {
    pub id: TaskId,
    pub name: String,
    pub path: Option<TaskPath>,
    pub deps: Vec<String>,
    pub status: TaskStatus,
    pub vt: SharedVt,
    /// The frozen screen of copy mode.
    pub present: Option<SharedVt>,
    /// There is output that was not looked at yet.
    pub changed: bool,
    pub children: Vec<ChildRow>,
    pub expanded: bool,
    pub focused_child: Option<usize>,
}

/// A process, by its characters.
#[verifier::ext_equal]
pub struct ProcModel {
    pub id: TaskId,
    pub name: Seq<char>,
    pub path: Option<Seq<char>>,
    pub deps: Seq<Seq<char>>,
    pub status: TaskStatus,
    pub vt: SharedVt,
    pub present: Option<SharedVt>,
    pub changed: bool,
    pub children: Seq<ChildModel>,
    pub expanded: bool,
    pub focused_child: Option<usize>,
}

pub open spec fn children_view(children: Seq<ChildRow>) -> Seq<ChildModel> {
    children.map_values(|c: ChildRow| c@)
}

impl View for ProcView {
    type V = ProcModel;

    open spec fn view(&self) -> ProcModel {
        ProcModel {
            id: self.id,
            name: self.name@,
            path: path_view(self.path),
            deps: strings_view(self.deps@),
            status: self.status,
            vt: self.vt,
            present: self.present,
            changed: self.changed,
            children: children_view(self.children@),
            expanded: self.expanded,
            focused_child: self.focused_child,
        }
    }
}

/// The first row of task `id`.
pub open spec fn child_index(children: Seq<ChildModel>, id: TaskId) -> Option<int>
    decreases children.len(),
{
    if children.len() == 0 {
        None
    } else if children[0].task_id == Some(id) {
        Some(0)
    } else {
        match child_index(children.skip(1), id) {
            Some(i) => Some(i + 1),
            None => None,
        }
    }
}

impl ProcModel {
    /// The terminal to show: that of the focused row, or that of the process.
    pub open spec fn shown_vt(self) -> SharedVt {
        match self.focused_child {
            Some(i) => if i < self.children.len() {
                self.children[i as int].vt
            } else {
                self.vt
            },
            None => match self.present {
                Some(vt) => vt,
                None => self.vt,
            },
        }
    }

    pub open spec fn focused_kind(self) -> Option<ChildKind> {
        match self.focused_child {
            Some(i) => if i < self.children.len() {
                Some(self.children[i as int].kind)
            } else {
                None
            },
            None => None,
        }
    }

    /// The rows that the process takes in the list.
    pub open spec fn rows(self) -> nat {
        if self.expanded {
            1 + self.children.len()
        } else {
            1
        }
    }
}

impl ProcView {
    pub fn new(
        id: TaskId,
        name: String,
        status: TaskStatus,
        vt: SharedVt,
        path: Option<TaskPath>,
        deps: Vec<String>,
    ) -> (r: Self)
        ensures
            r@ == (ProcModel {
                id,
                name: name@,
                path: path_view(path),
                deps: strings_view(deps@),
                status,
                vt,
                present: None,
                changed: false,
                children: Seq::empty(),
                expanded: false,
                focused_child: None,
            }),
    {
        let r = ProcView {
            id,
            name,
            path,
            deps,
            status,
            vt,
            present: None,
            changed: false,
            children: Vec::new(),
            expanded: false,
            focused_child: None,
        };
        proof {
            assert(children_view(r.children@) =~= Seq::empty());
        }
        r
    }

    pub fn set_name(&mut self, name: String)
        ensures
            final(self)@ == (ProcModel { name: name@, ..old(self)@ }),
    {
        self.name = name;
    }

    pub fn id(&self) -> (r: TaskId)
        ensures
            r == self@.id,
    {
        self.id
    }

    pub fn exit_code(&self) -> (r: Option<u32>)
        ensures
            r == self@.status.code(),
    {
        self.status.exit_code()
    }

    pub fn name(&self) -> (r: &str)
        ensures
            r@ == self@.name,
    {
        self.name.as_str()
    }

    pub fn is_up(&self) -> (r: bool)
        ensures
            r == self@.status.up(),
    {
        self.status.is_up()
    }

    pub fn copy_active(&self) -> (r: bool)
        ensures
            r == (self@.present is Some),
    {
        self.present.is_some()
    }

    pub fn focus(&mut self)
        ensures
            final(self)@ == (ProcModel { changed: false, ..old(self)@ }),
    {
        self.changed = false;
    }

    pub fn focused_vt(&self) -> (r: &SharedVt)
        ensures
            *r == self@.shown_vt(),
    {
        match self.focused_child {
            Some(i) => {
                if i < self.children.len() {
                    &self.children[i].vt
                } else {
                    &self.vt
                }
            },
            None => match &self.present {
                Some(vt) => vt,
                None => &self.vt,
            },
        }
    }

    pub fn focused_child_kind(&self) -> (r: Option<ChildKind>)
        ensures
            r == self@.focused_kind(),
    {
        match self.focused_child {
            Some(i) => {
                if i < self.children.len() {
                    Some(self.children[i].kind)
                } else {
                    None
                }
            },
            None => None,
        }
    }

    /// The place of the row of a task.
    pub fn find_child(&self, task_id: TaskId) -> (r: Option<usize>)
        ensures
            match r {
                Some(i) => i < self.children@.len() && child_index(self@.children, task_id) == Some(
                    i as int,
                ),
                None => child_index(self@.children, task_id) is None,
            },
    {
        let ghost all = children_view(self.children@);
        let mut i: usize = 0;
        proof {
            assert(all.skip(0) =~= all);
        }
        while i < self.children.len()
            invariant
                i <= self.children@.len(),
                all == children_view(self.children@),
                child_index(all, task_id) == (match child_index(all.skip(i as int), task_id) {
                    Some(k) => Some(k + i),
                    None => None,
                }),
            decreases self.children@.len() - i,
        {
            proof {
                assert(all.skip(i as int).skip(1) =~= all.skip(i + 1));
                assert(all.skip(i as int)[0] == self.children@[i as int]@);
            }
            match self.children[i].task_id {
                Some(id) => {
                    if id == task_id {
                        return Some(i);
                    }
                },
                None => {},
            }
            i += 1;
        }
        None
    }

    pub fn find_child_mut(&mut self, task_id: TaskId) -> (r: Option<&mut ChildRow>)
        ensures
            match child_index(old(self)@.children, task_id) {
                Some(k) => {
                    &&& 0 <= k < old(self).children@.len()
                    &&& r is Some
                    &&& *(r->0) == old(self).children@[k]
                    &&& final(self).children@ == old(self).children@.update(k, *final(r->0))
                    &&& *final(self) == (ProcView { children: final(self).children, ..*old(self) })
                },
                None => r is None && *final(self) == *old(self),
            },
    {
        match self.find_child(task_id) {
            Some(i) => Some(&mut self.children[i]),
            None => None,
        }
    }

    pub fn visible_row_count(&self) -> (r: usize)
        requires
            self.children@.len() < usize::MAX,
        ensures
            r == self@.rows(),
    {
        if self.expanded {
            1 + self.children.len()
        } else {
            1
        }
    }
}

} // verus!
