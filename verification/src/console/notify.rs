//! What the console makes of news from the tasks.

use crate::config::config::Config;
use crate::console::app::{turn, Core, LoopAction};
use crate::console::app_layout::AppLayout;
use crate::console::effect::{Effect, EffectModel, TaskOp, TaskOpModel};
use crate::console::names::{display_name, proc_display_name};
use crate::console::proc::child::{
    child_kind_from_path, is_child_path, kind_of_segment, proc_path_of, status_shown, ChildKind,
    ChildModel, ChildRow,
};
use crate::console::proc::view::{child_index, children_view, ProcModel, ProcView};
use crate::console::state::{proc_index, procs_view, StateModel};
use crate::console::turn::{step, CoreModel, Turn};
use crate::kernel::path::{path_depth, path_name, path_parent, path_view, same_path, TaskPath};
use crate::kernel::screen_cmd::{TaskScreenCmd, Winsize};
use crate::kernel::task::{TaskId, TaskStatus};
use crate::task::child_vt::{new_child_vt, CHILD_VT_HEIGHT, CHILD_VT_SCROLLBACK, CHILD_VT_WIDTH};
use crate::term::rect::{Rect, Size};
use crate::term::screen::SharedVt;
use crate::text::{clone_opt, clone_strings, opt_chars, str_eq, strings_view};
use vstd::prelude::*;

verus! {

/// News from a task.
pub enum TaskNotify {
    Added {
        path: Option<TaskPath>,
        label: Option<String>,
        status: TaskStatus,
        vt: Option<SharedVt>,
    },
    Started,
    StatusChanged(TaskStatus),
    Stopped(u32),
    Removed,
    /// The old and the new path.
    PathChanged(Option<TaskPath>, Option<TaskPath>),
    LabelChanged(Option<String>),
}

/// News from the screen of a task.
pub enum FramedScreenNotify {
    ObserveStarted { task_id: TaskId },
    Render { task_id: TaskId },
    Bell { task_id: TaskId },
    CopyPresent { task_id: TaskId, vt: Option<SharedVt> },
    Yank { text: String },
}

/// A task as it is listed.
pub struct TaskInfo {
    pub id: TaskId,
    pub path: Option<TaskPath>,
    pub label: Option<String>,
    pub status: TaskStatus,
    pub vt: Option<SharedVt>,
}

/// The dependencies of the first configured process of a name.
pub open spec fn configured_deps(config: Config, name: Seq<char>, n: nat) -> Seq<Seq<char>>
    decreases config.procs@.len() - n,
{
    if n >= config.procs@.len() {
        Seq::empty()
    } else if config.procs@[n as int].path@ == name {
        strings_view(config.procs@[n as int].deps@)
    } else {
        configured_deps(config, name, n + 1)
    }
}

fn deps_for_name(config: &Config, name: &str) -> (r: Vec<String>)
    ensures
        strings_view(r@) == configured_deps(*config, name@, 0),
{
    let mut i: usize = 0;
    while i < config.procs.len()
        invariant
            i <= config.procs@.len(),
            configured_deps(*config, name@, 0) == configured_deps(*config, name@, i as nat),
        decreases config.procs@.len() - i,
    {
        if str_eq(config.procs[i].path.as_str(), name) {
            return clone_strings(&config.procs[i].deps);
        }
        i += 1;
    }
    let none: Vec<String> = Vec::new();
    proof {
        assert(strings_view(none@) =~= Seq::empty());
    }
    none
}

/// A process as it is first shown; one with dependencies has a row for them.
pub open spec fn fresh_proc(
    config: Config,
    id: TaskId,
    name: Seq<char>,
    status: TaskStatus,
    vt: SharedVt,
    path: Option<Seq<char>>,
    deps_vt: SharedVt,
) -> ProcModel {
    let deps = configured_deps(config, name, 0);
    ProcModel {
        id,
        name,
        path,
        deps,
        status,
        vt,
        present: None,
        changed: false,
        children: if deps.len() > 0 {
            seq![ChildModel::idle(None, ChildKind::Deps, "deps"@, deps_vt)]
        } else {
            Seq::empty()
        },
        expanded: false,
        focused_child: None,
    }
}

/// The screen that is left for a process.
pub open spec fn term_area_of(core: CoreModel, config: Config) -> Rect {
    AppLayout::of(
        Rect { x: 0, y: 0, width: core.screen_size.width, height: core.screen_size.height },
        core.state.scope is TermZoom,
        core.state.hide_keymap,
        config.proc_list_width,
    ).term.shrunk(1)
}

/// The message that asks a task to show its screen here.
pub open spec fn observe_effect(core: CoreModel, id: TaskId, area: Rect) -> EffectModel {
    EffectModel::Task(
        id,
        TaskOpModel::Screen(
            TaskScreenCmd::Observe {
                size: Winsize::of_cells(area.width, area.height),
                observer_id: core.task_id,
            },
        ),
    )
}

impl CoreModel {
    /// A process is added to the list and observed.
    pub open spec fn with_new_proc(
        self,
        config: Config,
        id: TaskId,
        name: Seq<char>,
        status: TaskStatus,
        vt: SharedVt,
        path: Option<Seq<char>>,
    ) -> CoreModel {
        let proc = fresh_proc(
            config,
            id,
            name,
            status,
            vt,
            path,
            SharedVt(self.vt_sizes.len() as usize),
        );
        CoreModel {
            state: StateModel { procs: self.state.procs.push(proc), ..self.state },
            vt_sizes: if proc.deps.len() > 0 {
                self.vt_sizes.push(Size { width: CHILD_VT_WIDTH, height: CHILD_VT_HEIGHT })
            } else {
                self.vt_sizes
            },
            ..self
        }.sent(observe_effect(self, id, term_area_of(self, config)))
    }
}

/// The first process of a path.
pub open spec fn path_index(procs: Seq<ProcModel>, path: Seq<char>, n: nat) -> Option<int>
    decreases procs.len() - n,
{
    if n >= procs.len() {
        None
    } else if procs[n as int].path == Some(path) {
        Some(n as int)
    } else {
        path_index(procs, path, n + 1)
    }
}

/// The name of the row of a hook or a check.
pub open spec fn row_name(kind: ChildKind, path: Seq<char>, label: Option<Seq<char>>) -> Seq<char> {
    match kind {
        ChildKind::Hook(event) => event.text(),
        ChildKind::Check(_) => match label {
            Some(l) => l,
            None => path_name(path),
        },
        ChildKind::Deps => "deps"@,
    }
}

/// The first process that has a row of task `id`.
pub open spec fn owner_index(procs: Seq<ProcModel>, id: TaskId, n: nat) -> Option<int>
    decreases procs.len() - n,
{
    if n >= procs.len() {
        None
    } else if child_index(procs[n as int].children, id) is Some {
        Some(n as int)
    } else {
        owner_index(procs, id, n + 1)
    }
}

impl StateModel {
    /// The row of a hook or a check is added to its process, unless it is
    /// there already.
    pub open spec fn attached(
        self,
        id: TaskId,
        path: Seq<char>,
        label: Option<Seq<char>>,
        status: TaskStatus,
        vt: SharedVt,
        now: u64,
    ) -> StateModel {
        match (path_parent(path), kind_of_segment(path_name(path))) {
            (Some(parent), Some(kind)) => match path_index(self.procs, parent, 0) {
                Some(i) => if child_index(self.procs[i].children, id) is Some {
                    self
                } else {
                    self.with_proc(
                        i,
                        ProcModel {
                            children: self.procs[i].children.push(
                                ChildModel::idle(
                                    Some(id),
                                    kind,
                                    row_name(kind, path, label),
                                    vt,
                                ).with_status(status_shown(status), now),
                            ),
                            ..self.procs[i]
                        },
                    )
                },
                None => self,
            },
            _ => self,
        }
    }

    /// The row of a hook or a check shows another status.
    pub open spec fn with_child_status(
        self,
        id: TaskId,
        status: TaskStatus,
        now: u64,
    ) -> StateModel {
        match owner_index(self.procs, id, 0) {
            Some(i) => {
                let k = child_index(self.procs[i].children, id)->0;
                self.with_proc(
                    i,
                    ProcModel {
                        children: self.procs[i].children.update(
                            k,
                            self.procs[i].children[k].with_status(status_shown(status), now),
                        ),
                        ..self.procs[i]
                    },
                )
            },
            None => self,
        }
    }

    /// The process of a task, or else the row of one, shows another status.
    pub open spec fn with_task_status(
        self,
        id: TaskId,
        status: TaskStatus,
        now: u64,
    ) -> StateModel {
        match proc_index(self.procs, id) {
            Some(i) => self.with_proc(i, ProcModel { status, ..self.procs[i] }),
            None => self.with_child_status(id, status, now),
        }
    }

    pub open spec fn with_task_name(self, id: TaskId, name: Seq<char>) -> StateModel {
        match proc_index(self.procs, id) {
            Some(i) => self.with_proc(i, ProcModel { name, ..self.procs[i] }),
            None => self,
        }
    }

    pub open spec fn without_task(self, id: TaskId) -> StateModel {
        StateModel { procs: self.procs.filter(|p: ProcModel| p.id != id), ..self }
    }
}

/// What is done once no process is up any more.
#[verifier::opaque]
pub open spec fn all_finished(t: Turn, config: Config) -> Turn {
    match config.on_all_finished {
        Some(action) if t.core.state.all_down() => step(t, config, action),
        _ => t,
    }
}

/// What the console makes of news from a task.
pub open spec fn notified(
    t: Turn,
    config: Config,
    id: TaskId,
    notify: TaskNotify,
    now: u64,
) -> Turn {
    let state = t.core.state;
    match notify {
        TaskNotify::Added { path, label, status, vt } => match vt {
            None => t,
            Some(vt) => if path is Some && path_depth(path->0@) >= 2 {
                t.with_state(
                    state.attached(id, path->0@, opt_chars(label), status, vt, now),
                ).rendered()
            } else if proc_index(state.procs, id) is Some {
                t
            } else {
                t.with_core(
                    t.core.with_new_proc(
                        config,
                        id,
                        display_name(opt_chars(label), path_view(path), id),
                        status,
                        vt,
                        path_view(path),
                    ),
                ).rendered()
            },
        },
        TaskNotify::Started => t.with_state(
            state.with_task_status(id, TaskStatus::Running, now),
        ).rendered(),
        TaskNotify::StatusChanged(status) => {
            let changed = t.with_state(state.with_task_status(id, status, now));
            if proc_index(state.procs, id) is Some && status is Completed {
                all_finished(changed, config).rendered()
            } else {
                changed.rendered()
            }
        },
        TaskNotify::Stopped(code) => {
            let changed = t.with_state(
                state.with_task_status(id, TaskStatus::Exited(code), now),
            );
            if proc_index(state.procs, id) is Some {
                all_finished(changed, config).rendered()
            } else {
                changed.rendered()
            }
        },
        TaskNotify::Removed => t.with_state(state.without_task(id)).rendered(),
        TaskNotify::PathChanged(_, new) => match new {
            Some(path) => t.with_state(state.with_task_name(id, path_name(path@))),
            None => t,
        },
        TaskNotify::LabelChanged(label) => if proc_index(state.procs, id) is Some {
            t.with_state(
                state.with_task_name(id, display_name(opt_chars(label), None, id)),
            ).rendered()
        } else {
            t
        },
    }
}

/// What the console makes of news from the screen of a task.
pub open spec fn screen_notified(t: Turn, notify: FramedScreenNotify) -> Turn {
    let state = t.core.state;
    match notify {
        FramedScreenNotify::ObserveStarted { task_id } => match state.current() {
            Some(proc) if proc.id == task_id => t.rendered(),
            _ => t,
        },
        FramedScreenNotify::Render { task_id } => match proc_index(state.procs, task_id) {
            Some(i) => {
                let current = state.current() is Some && state.current()->0.id == task_id;
                t.with_state(
                    if current {
                        state
                    } else {
                        state.with_proc(i, ProcModel { changed: true, ..state.procs[i] })
                    },
                ).rendered()
            },
            None => t,
        },
        FramedScreenNotify::Bell { .. } => t,
        FramedScreenNotify::CopyPresent { task_id, vt } => match proc_index(
            state.procs,
            task_id,
        ) {
            Some(i) => t.with_state(
                state.with_proc(i, ProcModel { present: vt, ..state.procs[i] }),
            ).rendered(),
            None => t,
        },
        FramedScreenNotify::Yank { text } => t.with_core(
            t.core.sent(EffectModel::Copy(text@)),
        ),
    }
}

/// The first `n` listed tasks that are processes are added.
pub open spec fn with_listed_procs(
    core: CoreModel,
    config: Config,
    list: Seq<TaskInfo>,
    n: nat,
) -> CoreModel
    decreases n,
{
    if n == 0 {
        core
    } else {
        let before = with_listed_procs(core, config, list, (n - 1) as nat);
        let task = list[n - 1];
        if task.vt is None || (task.path is Some && path_depth(task.path->0@) >= 2) || proc_index(
            before.state.procs,
            task.id,
        ) is Some {
            before
        } else {
            before.with_new_proc(
                config,
                task.id,
                display_name(opt_chars(task.label), path_view(task.path), task.id),
                task.status,
                task.vt->0,
                path_view(task.path),
            )
        }
    }
}

/// The rows of the first `n` listed tasks that are hooks or checks are added.
pub open spec fn with_listed_rows(
    state: StateModel,
    list: Seq<TaskInfo>,
    n: nat,
    now: u64,
) -> StateModel
    decreases n,
{
    if n == 0 {
        state
    } else {
        let before = with_listed_rows(state, list, (n - 1) as nat, now);
        let task = list[n - 1];
        if task.vt is Some && task.path is Some && path_depth(task.path->0@) >= 2 {
            before.attached(
                task.id,
                task.path->0@,
                opt_chars(task.label),
                task.status,
                task.vt->0,
                now,
            )
        } else {
            before
        }
    }
}

/// The console once it was told which tasks there are.
pub open spec fn refreshed(
    core: CoreModel,
    config: Config,
    list: Seq<TaskInfo>,
    now: u64,
) -> CoreModel {
    let with_procs = with_listed_procs(core, config, list, list.len());
    with_procs.with_state(with_listed_rows(with_procs.state, list, list.len(), now))
}

impl Core {
    /// The terminals that were there before are as they were, and those that
    /// were added are empty.
    pub open spec fn keeps_vts(self, before: Core) -> bool {
        &&& before.vts@ == self.vts@.take(before.vts@.len() as int)
        &&& before.vts@.len() <= self.vts@.len()
        &&& forall|i: int|
            before.vts@.len() <= i < self.vts@.len() ==> (#[trigger] self.vts@[i]).is_blank(
                (Size { width: CHILD_VT_WIDTH, height: CHILD_VT_HEIGHT }),
                CHILD_VT_SCROLLBACK,
            )
    }

    /// Where everything is on the screen.
    pub fn get_layout(&self, config: &Config) -> (r: AppLayout)
        ensures
            r == AppLayout::of(
                (Rect { x: 0, y: 0, width: self@.screen_size.width, height: self@.screen_size.height
                }),
                self@.state.scope is TermZoom,
                self@.state.hide_keymap,
                config.proc_list_width,
            ),
    {
        AppLayout::new(
            Rect::new(0, 0, self.screen_size.width, self.screen_size.height),
            self.state.scope.is_zoomed(),
            self.state.hide_keymap_window,
            config.proc_list_width,
        )
    }

    /// Asks a task to show its screen here.
    fn observe_proc(&mut self, id: TaskId, area: Rect)
        ensures
            final(self)@ == old(self)@.sent(observe_effect(old(self)@, id, area)),
            final(self).same_but_out(*old(self)),
    {
        let observer_id = self.pc.task_id;
        self.send(
            Effect::Task(
                id,
                TaskOp::Screen(
                    TaskScreenCmd::Observe {
                        size: Winsize::cells(area.width, area.height),
                        observer_id,
                    },
                ),
            ),
        );
    }

    /// A process as it is first shown.
    fn make_proc_view(
        &mut self,
        config: &Config,
        id: TaskId,
        name: String,
        status: TaskStatus,
        vt: SharedVt,
        path: Option<TaskPath>,
    ) -> (r: ProcView)
        ensures
            r@ == fresh_proc(
                *config,
                id,
                name@,
                status,
                vt,
                path_view(path),
                SharedVt(old(self)@.vt_sizes.len() as usize),
            ),
            final(self)@ == (CoreModel {
                vt_sizes: if r@.deps.len() > 0 {
                    old(self)@.vt_sizes.push(
                        Size { width: CHILD_VT_WIDTH, height: CHILD_VT_HEIGHT },
                    )
                } else {
                    old(self)@.vt_sizes
                },
                ..old(self)@
            }),
            *final(self) == (Core { vts: final(self).vts, ..*old(self) }),
            final(self).keeps_vts(*old(self)),
    {
        let deps = deps_for_name(config, name.as_str());
        let has_deps = deps.len() > 0;
        let ghost n = name@;
        let mut pv = ProcView::new(id, name, status, vt, path, deps);
        if has_deps {
            let deps_vt = new_child_vt(&mut self.vts);
            pv.children.push(ChildRow::new(None, ChildKind::Deps, "deps".to_owned(), deps_vt));
            proof {
                let before = old(self).vts@;
                let after = self.vts@;
                assert(after.take(before.len() as int) =~= after.drop_last());
                assert(self@.vt_sizes =~= old(self)@.vt_sizes.push(
                    Size { width: CHILD_VT_WIDTH, height: CHILD_VT_HEIGHT },
                )) by {
                    assert forall|i: int| 0 <= i < before.len() implies after[i] == before[i] by {
                        assert(after.drop_last()[i] == before[i]);
                    }
                }
                assert(children_view(pv.children@) =~= seq![
                    ChildModel::idle(None, ChildKind::Deps, "deps"@, deps_vt),
                ]);
            }
        } else {
            proof {
                assert(old(self).vts@.take(old(self).vts@.len() as int) =~= old(self).vts@);
            }
        }
        proof {
            assert(pv@ =~= fresh_proc(
                *config,
                id,
                n,
                status,
                vt,
                path_view(path),
                SharedVt(old(self)@.vt_sizes.len() as usize),
            ));
        }
        pv
    }

    /// Adds a process to the list and observes it.
    fn add_listed_proc(
        &mut self,
        config: &Config,
        id: TaskId,
        name: String,
        status: TaskStatus,
        vt: SharedVt,
        path: Option<TaskPath>,
    )
        requires
            old(self).wf(),
            config.wf(),
        ensures
            final(self).wf(),
            final(self)@ == old(self)@.with_new_proc(
                *config,
                id,
                name@,
                status,
                vt,
                path_view(path),
            ),
            final(self).keeps_vts(*old(self)),
    {
        let area = self.get_layout(config).term_area();
        let ghost n = name@;
        let pv = self.make_proc_view(config, id, name, status, vt, path);
        let ghost procs = self@.state.procs;
        self.state.procs.push(pv);
        proof {
            assert(self@.state.procs =~= procs.push(pv@));
        }
        self.observe_proc(id, area);
        proof {
            assert(self@ =~= old(self)@.with_new_proc(
                *config,
                id,
                n,
                status,
                vt,
                path_view(path),
            ));
        }
    }

    fn find_path(&self, path: &TaskPath) -> (r: Option<usize>)
        ensures
            match r {
                Some(i) => i < self.state.procs@.len() && path_index(
                    self@.state.procs,
                    path@,
                    0,
                ) == Some(i as int),
                None => path_index(self@.state.procs, path@, 0) is None,
            },
    {
        let ghost procs = self@.state.procs;
        let mut i: usize = 0;
        while i < self.state.procs.len()
            invariant
                i <= self.state.procs@.len(),
                procs == self@.state.procs,
                path_index(procs, path@, 0) == path_index(procs, path@, i as nat),
            decreases self.state.procs@.len() - i,
        {
            proof {
                assert(procs[i as int] == self.state.procs@[i as int]@);
            }
            if let Some(p) = &self.state.procs[i].path {
                if same_path(p, path) {
                    return Some(i);
                }
            }
            i += 1;
        }
        None
    }

    /// Adds the row of a hook or a check to its process.
    fn attach_child(
        &mut self,
        id: TaskId,
        path: &TaskPath,
        label: Option<String>,
        status: TaskStatus,
        vt: SharedVt,
        now: u64,
    )
        ensures
            final(self)@ == old(self)@.with_state(
                old(self)@.state.attached(id, path@, opt_chars(label), status, vt, now),
            ),
            *final(self) == (Core { state: final(self).state, ..*old(self) }),
    {
        let parent = match proc_path_of(path) {
            Some(p) => p,
            None => {
                return;
            },
        };
        let kind = match child_kind_from_path(path) {
            Some(k) => k,
            None => {
                return;
            },
        };
        let ghost shown = row_name(kind, path@, opt_chars(label));
        let name = match kind {
            ChildKind::Hook(event) => event.label().to_owned(),
            ChildKind::Check(_) => match label {
                Some(l) => l,
                None => path.name(),
            },
            ChildKind::Deps => "deps".to_owned(),
        };
        proof {
            assert(name@ == shown);
        }
        if let Some(i) = self.find_path(&parent) {
            let ghost before = self@.state;
            proof {
                assert(before.procs[i as int] == self.state.procs@[i as int]@);
            }
            if self.state.procs[i].find_child(id).is_some() {
                return;
            }
            let mut row = ChildRow::new(Some(id), kind, name, vt);
            row.apply_task_status(status, now);
            let ghost children = before.procs[i as int].children;
            self.state.procs[i].children.push(row);
            proof {
                assert(self.state.procs@[i as int]@.children =~= children.push(row@));
                assert(self@.state.procs =~= before.procs.update(
                    i as int,
                    ProcModel { children: children.push(row@), ..before.procs[i as int] },
                ));
            }
        }
    }

    /// Shows another status in the row of a hook or a check.
    fn update_child_status(&mut self, id: TaskId, status: TaskStatus, now: u64) -> (r: bool)
        ensures
            final(self)@ == old(self)@.with_state(
                old(self)@.state.with_child_status(id, status, now),
            ),
            r == (owner_index(old(self)@.state.procs, id, 0) is Some),
            *final(self) == (Core { state: final(self).state, ..*old(self) }),
    {
        let ghost before = self@.state;
        let ghost procs = before.procs;
        let mut i: usize = 0;
        while i < self.state.procs.len()
            invariant
                *self == *old(self),
                i <= self.state.procs@.len(),
                procs == self@.state.procs,
                before == self@.state,
                owner_index(procs, id, 0) == owner_index(procs, id, i as nat),
            decreases self.state.procs@.len() - i,
        {
            proof {
                assert(procs[i as int] == self.state.procs@[i as int]@);
            }
            if let Some(k) = self.state.procs[i].find_child(id) {
                let ghost rows = self.state.procs@[i as int].children@;
                let ghost children = procs[i as int].children;
                self.state.procs[i].children[k].apply_task_status(status, now);
                proof {
                    assert(children[k as int] == rows[k as int]@);
                    let changed = children[k as int].with_status(status_shown(status), now);
                    assert(self.state.procs@[i as int]@.children =~= children.update(
                        k as int,
                        changed,
                    ));
                    assert(self@.state.procs =~= procs.update(
                        i as int,
                        ProcModel {
                            children: children.update(k as int, changed),
                            ..procs[i as int]
                        },
                    ));
                }
                return true;
            }
            i += 1;
        }
        false
    }

    /// Shows another status of a task; tells whether it is that of a process.
    fn set_task_status(&mut self, id: TaskId, status: TaskStatus, now: u64) -> (r: bool)
        ensures
            final(self)@ == old(self)@.with_state(
                old(self)@.state.with_task_status(id, status, now),
            ),
            r == (proc_index(old(self)@.state.procs, id) is Some),
            *final(self) == (Core { state: final(self).state, ..*old(self) }),
    {
        let ghost procs = self@.state.procs;
        match self.state.find_proc(id) {
            Some(i) => {
                self.state.procs[i].status = status;
                proof {
                    assert(self@.state.procs =~= procs.update(
                        i as int,
                        ProcModel { status, ..procs[i as int] },
                    ));
                }
                true
            },
            None => {
                self.update_child_status(id, status, now);
                false
            },
        }
    }

    fn set_task_name(&mut self, id: TaskId, name: String) -> (r: bool)
        ensures
            final(self)@ == old(self)@.with_state(old(self)@.state.with_task_name(id, name@)),
            r == (proc_index(old(self)@.state.procs, id) is Some),
            *final(self) == (Core { state: final(self).state, ..*old(self) }),
    {
        let ghost procs = self@.state.procs;
        let ghost n = name@;
        match self.state.find_proc(id) {
            Some(i) => {
                self.state.procs[i].set_name(name);
                proof {
                    assert(self@.state.procs =~= procs.update(
                        i as int,
                        ProcModel { name: n, ..procs[i as int] },
                    ));
                }
                true
            },
            None => false,
        }
    }

    fn remove_proc(&mut self, id: TaskId)
        ensures
            final(self)@ == old(self)@.with_state(old(self)@.state.without_task(id)),
            *final(self) == (Core { state: final(self).state, ..*old(self) }),
    {
        let ghost models = self@.state.procs;
        let ghost keep = |p: ProcModel| p.id != id;
        let mut all: Vec<ProcView> = Vec::new();
        std::mem::swap(&mut all, &mut self.state.procs);
        let ghost views = all@;
        let mut kept: Vec<ProcView> = Vec::new();
        proof {
            reveal(Seq::filter);
            assert(models.take(0).filter(keep) =~= Seq::empty());
            assert(procs_view(kept@) =~= Seq::empty());
        }
        for proc in it: all
            invariant
                it.seq() == views,
                models == procs_view(views),
                keep == (|p: ProcModel| p.id != id),
                procs_view(kept@) == models.take(it.index()).filter(keep),
        {
            let ghost before = kept@;
            let ghost i = it.index();
            proof {
                reveal(Seq::filter);
                assert(models.take(i + 1).drop_last() =~= models.take(i));
                assert(models.take(i + 1).last() == proc@);
            }
            if proc.id() != id {
                kept.push(proc);
                proof {
                    assert(procs_view(kept@) =~= procs_view(before).push(proc@));
                }
            }
        }
        proof {
            assert(models.take(models.len() as int) =~= models);
        }
        self.state.procs = kept;
    }

    /// Does what is configured for when no process is up any more.
    fn finish_all(&mut self, act: &mut LoopAction, config: &Config)
        requires
            old(self).wf(),
            config.wf(),
        ensures
            final(self).wf(),
            turn(*final(self), *final(act)) == all_finished(
                turn(*old(self), *old(act)),
                *config,
            ),
            final(self).vts == old(self).vts,
    {
        reveal(all_finished);
        if self.state.all_procs_down() {
            if let Some(action) = &config.on_all_finished {
                self.handle_event(act, config, action);
            }
        }
    }

    /// Takes note of news from a task.
    pub fn handle_notification(
        &mut self,
        act: &mut LoopAction,
        config: &Config,
        id: TaskId,
        notify: TaskNotify,
        now: u64,
    )
        requires
            old(self).wf(),
            config.wf(),
        ensures
            final(self).wf(),
            turn(*final(self), *final(act)) == notified(
                turn(*old(self), *old(act)),
                *config,
                id,
                notify,
                now,
            ),
            final(self).keeps_vts(*old(self)),
    {
        proof {
            assert(self.vts@.take(self.vts@.len() as int) =~= self.vts@);
        }
        match notify {
            TaskNotify::Added { path, label, status, vt } => {
                let vt = match vt {
                    Some(vt) => vt,
                    None => {
                        return;
                    },
                };
                if let Some(p) = &path {
                    if is_child_path(p) {
                        self.attach_child(id, p, label, status, vt, now);
                        act.render();
                        return;
                    }
                }
                if self.state.find_proc(id).is_some() {
                    return;
                }
                let name = proc_display_name(label, &path, id);
                self.add_listed_proc(config, id, name, status, vt, path);
                act.render();
            },
            TaskNotify::Started => {
                self.set_task_status(id, TaskStatus::Running, now);
                act.render();
            },
            TaskNotify::StatusChanged(status) => {
                let is_proc = self.set_task_status(id, status, now);
                let completed = match status {
                    TaskStatus::Completed => true,
                    _ => false,
                };
                if is_proc && completed {
                    self.finish_all(act, config);
                }
                act.render();
            },
            TaskNotify::Stopped(code) => {
                let is_proc = self.set_task_status(id, TaskStatus::Exited(code), now);
                if is_proc {
                    self.finish_all(act, config);
                }
                act.render();
            },
            TaskNotify::Removed => {
                self.remove_proc(id);
                act.render();
            },
            TaskNotify::PathChanged(_, new) => {
                if let Some(path) = new {
                    self.set_task_name(id, path.name());
                }
            },
            TaskNotify::LabelChanged(label) => {
                let path: Option<TaskPath> = None;
                let name = proc_display_name(label, &path, id);
                if self.set_task_name(id, name) {
                    act.render();
                }
            },
        }
    }

    /// Takes note of news from the screen of a task.
    pub fn handle_screen_notify(&mut self, act: &mut LoopAction, notify: FramedScreenNotify)
        requires
            old(self).wf(),
        ensures
            final(self).wf(),
            turn(*final(self), *final(act)) == screen_notified(
                turn(*old(self), *old(act)),
                notify,
            ),
            final(self).vts == old(self).vts,
    {
        let ghost procs = self@.state.procs;
        match notify {
            FramedScreenNotify::ObserveStarted { task_id } => {
                let current = match self.state.get_current_proc() {
                    Some(proc) => proc.id() == task_id,
                    None => false,
                };
                if current {
                    act.render();
                }
            },
            FramedScreenNotify::Render { task_id } => {
                let current = match self.state.get_current_proc() {
                    Some(proc) => proc.id() == task_id,
                    None => false,
                };
                if let Some(i) = self.state.find_proc(task_id) {
                    if !current {
                        self.state.procs[i].changed = true;
                        proof {
                            assert(self@.state.procs =~= procs.update(
                                i as int,
                                ProcModel { changed: true, ..procs[i as int] },
                            ));
                        }
                    }
                    act.render();
                }
            },
            FramedScreenNotify::Bell { .. } => {},
            FramedScreenNotify::CopyPresent { task_id, vt } => {
                if let Some(i) = self.state.find_proc(task_id) {
                    self.state.procs[i].present = vt;
                    proof {
                        assert(self@.state.procs =~= procs.update(
                            i as int,
                            ProcModel { present: vt, ..procs[i as int] },
                        ));
                    }
                    act.render();
                }
            },
            FramedScreenNotify::Yank { text } => {
                self.send(Effect::Copy(text));
            },
        }
    }

    /// Takes note of the tasks that there are already.
    pub fn refresh_procs(&mut self, config: &Config, list: &Vec<TaskInfo>, now: u64)
        requires
            old(self).wf(),
            config.wf(),
        ensures
            final(self).wf(),
            final(self)@ == refreshed(old(self)@, *config, list@, now),
            final(self).keeps_vts(*old(self)),
    {
        let ghost before = self@;
        let ghost vts = self.vts@;
        proof {
            assert(vts.take(vts.len() as int) =~= vts);
        }
        let mut i: usize = 0;
        while i < list.len()
            invariant
                self.wf(),
                config.wf(),
                i <= list@.len(),
                vts == old(self).vts@,
                self@ == with_listed_procs(before, *config, list@, i as nat),
                self.keeps_vts(*old(self)),
            decreases list@.len() - i,
        {
            let ghost prior = self.vts@;
            let task = &list[i];
            if let Some(vt) = task.vt {
                let child = match &task.path {
                    Some(p) => is_child_path(p),
                    None => false,
                };
                if !child && self.state.find_proc(task.id).is_none() {
                    let name = proc_display_name(clone_opt(&task.label), &task.path, task.id);
                    let path = match &task.path {
                        Some(p) => Some(p.clone()),
                        None => None,
                    };
                    self.add_listed_proc(config, task.id, name, task.status, vt, path);
                    proof {
                        assert(self.vts@.take(vts.len() as int) =~= self.vts@.take(
                            prior.len() as int,
                        ).take(vts.len() as int));
                        assert forall|k: int| vts.len() <= k < self.vts@.len() implies (
                        #[trigger] self.vts@[k]).is_blank(
                            (Size { width: CHILD_VT_WIDTH, height: CHILD_VT_HEIGHT }),
                            CHILD_VT_SCROLLBACK,
                        ) by {
                            if k < prior.len() {
                                assert(self.vts@.take(prior.len() as int)[k] == prior[k]);
                            }
                        }
                    }
                }
            }
            i += 1;
        }
        let ghost mid = self@;
        let mut j: usize = 0;
        while j < list.len()
            invariant
                self.wf(),
                j <= list@.len(),
                self@ == mid.with_state(with_listed_rows(mid.state, list@, j as nat, now)),
                self.keeps_vts(*old(self)),
            decreases list@.len() - j,
        {
            let task = &list[j];
            if let (Some(vt), Some(path)) = (task.vt, &task.path) {
                if is_child_path(path) {
                    self.attach_child(
                        task.id,
                        path,
                        clone_opt(&task.label),
                        task.status,
                        vt,
                        now,
                    );
                }
            }
            j += 1;
        }
    }
}

} // verus!
