//! The console: it turns actions, input and notifications into changes of
//! what is shown and into messages to the tasks.

use crate::config::config::Config;
use crate::config::proc::{CmdConfig, ProcConfig};
use crate::console::action::{kernel_copy_move, Action, ClientId};
use crate::console::effect::{effects_view, Down, Effect, EffectModel, TaskOp};
use crate::console::names::{proc_path, unique_proc_name};
use crate::console::proc::child::ChildKind;
use crate::console::spawn::proc_task_config;
use crate::console::state::{Scope, State};
use crate::console::turn::{
    added_settings, batch_step, cmds_of, half_height, id_after, negated, restart, restart_upto,
    single_step, spawn_effect, step, to_up, used_segments, CoreModel, Turn,
};
use crate::kernel::context::TaskContext;
use crate::kernel::path::{path_name, path_view, TaskPath};
use crate::kernel::screen_cmd::TaskScreenCmd;
use crate::kernel::task::TaskId;
use crate::term::grid::Grid;
use crate::term::rect::Size;
use crate::term::screen::{Screen, SharedVt, VtTable};
use vstd::hash_set::StringHashSet;
use vstd::prelude::*;

pub use crate::console::main_loop::App;
pub use crate::console::turn::{ClientHandle, LoopAction, Modal};

verus! {

impl Default for LoopAction {
    fn default() -> (r: Self)
        ensures
            r == LoopAction::Skip,
    {
        LoopAction::Skip
    }
}

impl LoopAction {
    /// Asks for the screen to be drawn again.
    pub fn render(&mut self)
        ensures
            *final(self) == (match *old(self) {
                LoopAction::Skip => LoopAction::Render,
                _ => *old(self),
            }),
    {
        match self {
            LoopAction::Render => {},
            LoopAction::Skip => {
                *self = LoopAction::Render;
            },
            LoopAction::ForceQuit => {},
        }
    }

    fn force_quit(&mut self)
        ensures
            *final(self) == LoopAction::ForceQuit,
    {
        *self = LoopAction::ForceQuit;
    }
}

/// Everything that the console keeps but for its configuration.
pub struct Core {
    pub state: State,
    pub grid: Grid,
    pub modal: Option<Modal>,
    pub pc: TaskContext,
    pub vts: VtTable,
    pub screen_size: Size,
    pub clients: Vec<ClientHandle>,
    /// The time in milliseconds and the place of the last click on a process.
    pub last_proc_click: Option<(u64, usize)>,
    /// What was asked of the rest of the system and is not carried out yet.
    pub out: Vec<Effect>,
}

pub open spec fn sizes_of(screens: Seq<Screen>) -> Seq<Size> {
    screens.map_values(|s: Screen| s.size)
}

impl View for Core {
    type V = CoreModel;

    open spec fn view(&self) -> CoreModel {
        CoreModel {
            state: self.state@,
            modal: self.modal,
            task_id: self.pc.task_id,
            next_id: self.pc.next_id,
            vt_sizes: sizes_of(self.vts@),
            screen_size: self.screen_size,
            grid: self.grid@,
            clients: self.clients@,
            last_click: self.last_proc_click,
            out: effects_view(self.out@),
        }
    }
}

/// A console and what its main loop does next.
pub open spec fn turn(core: Core, act: LoopAction) -> Turn {
    Turn { core: core@, act }
}

/// Half the height of the terminal, at least one line.
fn half_screen(vts: &VtTable, vt: SharedVt) -> (r: i32)
    ensures
        r == half_height(sizes_of(vts@), vt),
{
    match vts.read(vt) {
        Some(screen) => {
            let half: i32 = (screen.size.height / 2) as i32;
            if half < 1 {
                1
            } else {
                half
            }
        },
        None => 1,
    }
}

fn negate(n: i32) -> (r: i32)
    ensures
        r == negated(n),
{
    if n == i32::MIN {
        n
    } else {
        -n
    }
}

/// Actions on windows, the focus and copy mode.
pub open spec fn is_window_action(action: Action) -> bool {
    action is QuitOrAsk
        || action is ShowCommandsMenu
        || action is ShowAddProc
        || action is ShowRemoveProc
        || action is CloseCurrentModal
        || action is ShowRenameProc
        || action is ToggleFocus
        || action is FocusProcs
        || action is FocusTerm
        || action is Zoom
        || action is ToggleKeymapWindow
        || action is CopyModeEnter
}

/// Actions on quitting, clients and the list.
pub open spec fn is_list_action(action: Action) -> bool {
    action is Quit
        || action is ForceQuit
        || action is Detach
        || action is NextProc
        || action is PrevProc
        || action is SelectProc
        || action is ToggleProcChildren
}

/// Actions on one task.
pub open spec fn is_task_action(action: Action) -> bool {
    action is StartProc
        || action is TermProc
        || action is KillProc
        || action is CopyModeLeave
        || action is CopyModeMove
        || action is CopyModeEnd
        || action is CopyModeCopy
        || action is SendKey
        || action is RemoveProc
        || action is RenameProc
}

/// Actions on restarts, scrolling and new processes.
pub open spec fn is_run_action(action: Action) -> bool {
    action is RestartProc
        || action is RestartAll
        || action is ForceRestartProc
        || action is ForceRestartAll
        || action is ScrollUpLines
        || action is ScrollDownLines
        || action is ScrollUp
        || action is ScrollDown
        || action is AddProc
        || action is DuplicateProc
}

impl Core {
    pub open spec fn wf(self) -> bool {
        self.grid.wf()
    }

    /// Everything but the messages is as it was before.
    pub open spec fn same_but_out(self, before: Core) -> bool {
        self == (Core { out: self.out, ..before })
    }

    pub fn send(&mut self, effect: Effect)
        ensures
            final(self)@ == old(self)@.sent(effect@),
            final(self).same_but_out(*old(self)),
    {
        self.out.push(effect);
        proof {
            assert(self@ =~= old(self)@.sent(effect@));
        }
    }

    /// Sends a message to the selected process, if there is one.
    pub fn tell_current(&mut self, act: &LoopAction, op: TaskOp)
        ensures
            turn(*final(self), *act) == turn(*old(self), *act).told(op@),
            final(self).same_but_out(*old(self)),
    {
        proof {
            reveal(Turn::told);
        }
        let id = match self.state.get_current_proc() {
            Some(proc) => proc.id,
            None => {
                return;
            },
        };
        self.send(Effect::Task(id, op));
    }

    /// Sends a message to every process that is up.
    fn tell_up(&mut self, down: Down)
        ensures
            final(self)@ == old(self)@.sent_all(
                to_up(old(self)@.state.procs, down, old(self)@.state.procs.len()),
            ),
            final(self).same_but_out(*old(self)),
    {
        let ghost procs = self@.state.procs;
        let ghost before = self@;
        let mut i: usize = 0;
        proof {
            assert(before.sent_all(to_up(procs, down, 0)) =~= before);
        }
        while i < self.state.procs.len()
            invariant
                i <= self.state.procs@.len(),
                procs == self@.state.procs,
                procs.len() == self.state.procs@.len(),
                self@ == before.sent_all(to_up(procs, down, i as nat)),
                self.same_but_out(*old(self)),
            decreases self.state.procs@.len() - i,
        {
            proof {
                assert(procs[i as int] == self.state.procs@[i as int]@);
            }
            if self.state.procs[i].is_up() {
                let id = self.state.procs[i].id;
                self.send(Effect::Task(id, down.message()));
                proof {
                    assert(before.sent_all(to_up(procs, down, (i + 1) as nat)) =~= before.sent_all(
                        to_up(procs, down, i as nat),
                    ).sent(EffectModel::Task(id, down.op())));
                }
            }
            i += 1;
        }
    }

    pub fn begin_quit(&mut self)
        ensures
            final(self)@ == old(self)@.quitting(),
            old(self).wf() ==> final(self).wf(),
            final(self).vts == old(self).vts,
    {
        self.state.quitting = true;
        self.tell_up(Down::Stop);
    }

    /// Restarts process `i`.
    fn restart_proc(&mut self, i: usize, down: Down)
        requires
            i < old(self).state.procs@.len(),
        ensures
            final(self)@ == old(self)@.sent_all(restart(old(self)@.state.procs[i as int], down)),
            final(self).same_but_out(*old(self)),
    {
        let ghost before = self@;
        let ghost proc = before.state.procs[i as int];
        let id = self.state.procs[i].id;
        let up = self.state.procs[i].is_up();
        if up {
            self.send(Effect::Task(id, down.message()));
        }
        self.send(Effect::Task(id, TaskOp::Start));
        proof {
            assert(self@ =~= before.sent_all(restart(proc, down)));
        }
    }

    fn restart_current(&mut self, act: &LoopAction, down: Down)
        ensures
            turn(*final(self), *act) == turn(*old(self), *act).restarted(down),
            final(self).same_but_out(*old(self)),
    {
        proof {
            reveal(Turn::restarted);
        }
        let sel = self.state.selected();
        if sel < self.state.procs.len() {
            self.restart_proc(sel, down);
        }
    }

    fn restart_all(&mut self, act: &LoopAction, down: Down)
        ensures
            turn(*final(self), *act) == turn(*old(self), *act).restarted_all(down),
            final(self).same_but_out(*old(self)),
    {
        proof {
            reveal(Turn::restarted_all);
        }
        let ghost procs = self@.state.procs;
        let ghost before = self@;
        let mut i: usize = 0;
        proof {
            assert(before.sent_all(restart_upto(procs, down, 0)) =~= before);
        }
        while i < self.state.procs.len()
            invariant
                i <= self.state.procs@.len(),
                procs == self@.state.procs,
                procs.len() == self.state.procs@.len(),
                self@ == before.sent_all(restart_upto(procs, down, i as nat)),
                self.same_but_out(*old(self)),
            decreases self.state.procs@.len() - i,
        {
            self.restart_proc(i, down);
            proof {
                assert(before.sent_all(restart_upto(procs, down, (i + 1) as nat))
                    =~= before.sent_all(restart_upto(procs, down, i as nat)).sent_all(
                    restart(procs[i as int], down),
                ));
            }
            i += 1;
        }
    }

    /// Runs the selected row again.
    fn rerun_current(&mut self, act: &LoopAction)
        ensures
            turn(*final(self), *act) == turn(*old(self), *act).rerun(),
            final(self).same_but_out(*old(self)),
    {
        proof {
            reveal(Turn::rerun);
        }
        let kind = match self.state.get_current_proc() {
            Some(proc) => proc.focused_child_kind(),
            None => {
                return;
            },
        };
        match kind {
            Some(ChildKind::Hook(event)) => {
                self.tell_current(act, TaskOp::RerunHook(event));
            },
            Some(ChildKind::Check(i)) => {
                self.tell_current(act, TaskOp::RerunCheck(i));
            },
            Some(ChildKind::Deps) => {},
            None => {
                self.restart_current(act, Down::Stop);
            },
        }
    }

    fn scroll(&mut self, act: &mut LoopAction, delta: i32)
        ensures
            turn(*final(self), *final(act)) == turn(*old(self), *old(act)).scrolled(delta),
            final(self).same_but_out(*old(self)),
    {
        proof {
            reveal(Turn::scrolled);
        }
        if self.state.get_current_proc().is_some() {
            self.tell_current(act, TaskOp::Screen(TaskScreenCmd::Scroll { delta }));
            act.render();
        }
    }

    fn scroll_half(&mut self, act: &mut LoopAction, up: bool)
        ensures
            turn(*final(self), *final(act)) == turn(*old(self), *old(act)).half_scrolled(up),
            final(self).same_but_out(*old(self)),
    {
        proof {
            reveal(Turn::half_scrolled);
        }
        let vt = match self.state.get_current_proc() {
            Some(proc) => proc.vt,
            None => {
                return;
            },
        };
        let half: i32 = half_screen(&self.vts, vt);
        if up {
            self.scroll(act, half);
        } else {
            self.scroll(act, negate(half));
        }
    }

    /// The screen gets the size of the first client.
    pub fn update_screen_size(&mut self)
        requires
            old(self).wf(),
        ensures
            final(self).wf(),
            final(self)@ == old(self)@.sized(),
            final(self).vts == old(self).vts,
    {
        if self.clients.len() > 0 {
            let size = self.clients[0].size;
            self.screen_size = size;
            self.grid.set_size(size);
        }
        proof {
            assert(self@ =~= old(self)@.sized());
        }
    }

    /// Forgets a client.
    pub fn drop_client(&mut self, id: ClientId)
        requires
            old(self).wf(),
        ensures
            final(self).wf(),
            final(self)@ == old(self)@.without_client(id),
            final(self).vts == old(self).vts,
    {
        let ghost all = self.clients@;
        let ghost keep = |c: ClientHandle| c.id != id;
        let mut kept: Vec<ClientHandle> = Vec::new();
        let mut i: usize = 0;
        proof {
            reveal(Seq::filter);
            assert(all.take(0).filter(keep) =~= Seq::empty());
        }
        while i < self.clients.len()
            invariant
                i <= self.clients@.len(),
                all == self.clients@,
                keep == (|c: ClientHandle| c.id != id),
                kept@ == all.take(i as int).filter(keep),
                *self == *old(self),
            decreases self.clients@.len() - i,
        {
            let c = self.clients[i];
            proof {
                reveal(Seq::filter);
                assert(all.take(i + 1).drop_last() =~= all.take(i as int));
                assert(all.take(i + 1).last() == c);
            }
            if c.id != id {
                kept.push(c);
            }
            i += 1;
        }
        proof {
            assert(all.take(i as int) =~= all);
        }
        self.clients = kept;
        self.update_screen_size();
    }

    /// Moves the focus to the row below.
    fn focus_next_row(&mut self)
        ensures
            final(self)@ == old(self)@.with_state(old(self)@.state.next_row()),
            *final(self) == (Core { state: final(self).state, ..*old(self) }),
    {
        let sel = self.state.selected();
        if sel >= self.state.procs.len() {
            return;
        }
        let count: usize = self.state.procs[sel].children.len();
        if self.state.procs[sel].expanded && count > 0 {
            let inside: Option<usize> = match self.state.procs[sel].focused_child {
                None => Some(0),
                Some(i) => if i < count - 1 {
                    Some(i + 1)
                } else {
                    None
                },
            };
            if inside.is_some() {
                self.state.set_focus(sel, inside);
                return;
            }
        }
        self.state.set_focus(sel, None);
        let next: usize = if sel + 1 >= self.state.procs.len() {
            0
        } else {
            sel + 1
        };
        self.state.set_focus(next, None);
        self.state.select_proc(next);
    }

    /// Moves the focus to the row above.
    fn focus_prev_row(&mut self)
        ensures
            final(self)@ == old(self)@.with_state(old(self)@.state.prev_row()),
            *final(self) == (Core { state: final(self).state, ..*old(self) }),
    {
        let sel = self.state.selected();
        if sel >= self.state.procs.len() {
            return;
        }
        match self.state.procs[sel].focused_child {
            Some(i) => {
                let above: Option<usize> = if i == 0 {
                    None
                } else {
                    Some(i - 1)
                };
                self.state.set_focus(sel, above);
                return;
            },
            None => {},
        }
        let prev: usize = if sel > 0 {
            sel - 1
        } else {
            self.state.procs.len() - 1
        };
        let count: usize = self.state.procs[prev].children.len();
        let land: Option<usize> = if self.state.procs[prev].expanded && count > 0 {
            Some(count - 1)
        } else {
            None
        };
        self.state.set_focus(prev, land);
        self.state.select_proc(prev);
    }

    /// The last segments of the paths of the processes.
    fn path_segments(&self) -> (r: StringHashSet)
        ensures
            r@ == used_segments(self@.state.procs),
    {
        let ghost procs = self@.state.procs;
        let mut used = StringHashSet::new();
        let mut i: usize = 0;
        while i < self.state.procs.len()
            invariant
                i <= self.state.procs@.len(),
                procs == self@.state.procs,
                forall|x: Seq<char>|
                    used@.contains(x) <==> exists|k: int|
                        0 <= k < i && (#[trigger] procs[k]).path is Some && path_name(
                            procs[k].path->0,
                        ) == x,
            decreases self.state.procs@.len() - i,
        {
            let ghost before = used@;
            proof {
                assert(procs[i as int] == self.state.procs@[i as int]@);
            }
            if let Some(path) = &self.state.procs[i].path {
                let seg = path.name();
                let ghost s = seg@;
                used.insert(seg);
                proof {
                    assert forall|x: Seq<char>|
                        used@.contains(x) <==> exists|k: int|
                            0 <= k < i + 1 && (#[trigger] procs[k]).path is Some && path_name(
                                procs[k].path->0,
                            ) == x by {
                        if x == s {
                            assert(procs[i as int].path is Some && path_name(
                                procs[i as int].path->0,
                            ) == x);
                        }
                        if before.contains(x) {
                            let k = choose|k: int|
                                0 <= k < i && (#[trigger] procs[k]).path is Some && path_name(
                                    procs[k].path->0,
                                ) == x;
                            assert(procs[k].path is Some);
                        }
                    }
                }
            }
            i += 1;
        }
        proof {
            assert(used@ =~= used_segments(procs));
        }
        used
    }

    /// Takes the next free task id.
    pub fn take_id(&mut self) -> (r: TaskId)
        ensures
            r == TaskId(old(self)@.next_id),
            final(self)@ == (CoreModel { next_id: id_after(old(self)@.next_id), ..old(self)@ }),
            *final(self) == (Core { pc: final(self).pc, ..*old(self) }),
    {
        let id = TaskId(self.pc.next_id);
        self.pc.next_id = if self.pc.next_id < usize::MAX {
            self.pc.next_id + 1
        } else {
            0
        };
        id
    }

    /// Asks for a process to be run.
    pub fn spawn_proc(
        &mut self,
        config: &Config,
        cfg: ProcConfig,
        task_id: TaskId,
        path: Option<TaskPath>,
        deps: Vec<TaskId>,
    )
        requires
            config.wf(),
            cfg.wf(),
        ensures
            final(self)@ == old(self)@.sent(
                spawn_effect(*config, cfg@, task_id, path_view(path), deps@),
            ),
            final(self).same_but_out(*old(self)),
    {
        let merged = config.proc_defaults.clone().overlay(cfg);
        let config = proc_task_config(&merged, deps);
        self.send(Effect::Spawn { task_id, path, config });
    }

    fn add_proc(
        &mut self,
        act: &mut LoopAction,
        config: &Config,
        cmd: &String,
        name: &Option<String>,
    )
        requires
            config.wf(),
        ensures
            turn(*final(self), *final(act)) == turn(*old(self), *old(act)).added(
                *config,
                cmd@,
                match *name {
                    Some(n) => n@,
                    None => cmd@,
                },
            ),
            final(self).same_but_out(Core { pc: final(self).pc, ..*old(self) }),
    {
        proof {
            reveal(Turn::added);
        }
        let wanted = match name {
            Some(n) => n.clone(),
            None => cmd.clone(),
        };
        let path = unique_proc_name(&self.state.procs, wanted.as_str(), None);
        let mut cfg = ProcConfig::default();
        cfg.path = path.clone();
        cfg.cmd = Some(CmdConfig::Shell { shell: cmd.clone() });
        cfg.autostart = Some(true);
        proof {
            assert(cfg@ =~= added_settings(path@, cmd@));
        }
        let mut used = self.path_segments();
        let id = self.take_id();
        let task_path = proc_path(path.as_str(), id, &mut used);
        let deps: Vec<TaskId> = Vec::new();
        self.spawn_proc(config, cfg, id, task_path, deps);
        act.render();
    }

    fn duplicate_current(&mut self, act: &mut LoopAction)
        ensures
            turn(*final(self), *final(act)) == turn(*old(self), *old(act)).duplicated(),
            final(self).same_but_out(*old(self)),
    {
        proof {
            reveal(Turn::duplicated);
        }
        let name = match self.state.get_current_proc() {
            Some(proc) => unique_proc_name(&self.state.procs, proc.name(), None),
            None => {
                return;
            },
        };
        self.tell_current(act, TaskOp::Duplicate(name));
        act.render();
    }

    fn rename_current(&mut self, act: &mut LoopAction, name: &str)
        ensures
            turn(*final(self), *final(act)) == turn(*old(self), *old(act)).renamed(name@),
            final(self).same_but_out(*old(self)),
    {
        proof {
            reveal(Turn::renamed);
        }
        let id = match self.state.get_current_proc() {
            Some(proc) => proc.id,
            None => {
                return;
            },
        };
        let name = unique_proc_name(&self.state.procs, name, Some(id));
        self.send(Effect::SetLabel(id, name));
        act.render();
    }

    fn ask_removal(&mut self, act: &mut LoopAction)
        ensures
            turn(*final(self), *final(act)) == turn(*old(self), *old(act)).asked_removal(),
            final(self).grid == old(self).grid,
            final(self).vts == old(self).vts,
    {
        proof {
            reveal(Turn::asked_removal);
            reveal(Turn::opened);
        }
        let id = match self.state.get_current_proc() {
            Some(proc) => if proc.is_up() {
                None
            } else {
                Some(proc.id)
            },
            None => None,
        };
        if let Some(id) = id {
            self.modal = Some(Modal::RemoveProc(id));
            act.render();
        }
    }

    fn enter_copy_mode(&mut self, act: &mut LoopAction)
        ensures
            turn(*final(self), *final(act)) == turn(*old(self), *old(act)).copying(),
            final(self).grid == old(self).grid,
            final(self).vts == old(self).vts,
    {
        proof {
            reveal(Turn::copying);
            reveal(Turn::focused);
        }
        if self.state.get_current_proc().is_some() {
            self.tell_current(act, TaskOp::Screen(TaskScreenCmd::CopyEnter));
            self.state.scope = Scope::Term;
            act.render();
        }
    }

    fn open_modal(&mut self, act: &mut LoopAction, modal: Option<Modal>)
        ensures
            turn(*final(self), *final(act)) == turn(*old(self), *old(act)).opened(modal),
            final(self).grid == old(self).grid,
            final(self).vts == old(self).vts,
    {
        proof {
            reveal(Turn::opened);
        }
        self.modal = modal;
        act.render();
    }

    fn focus_scope(&mut self, act: &mut LoopAction, scope: Scope)
        ensures
            turn(*final(self), *final(act)) == turn(*old(self), *old(act)).focused(scope),
            final(self).grid == old(self).grid,
            final(self).vts == old(self).vts,
    {
        proof {
            reveal(Turn::focused);
        }
        self.state.scope = scope;
        act.render();
    }

    fn handle_window_action(&mut self, act: &mut LoopAction, config: &Config, action: &Action)
        requires
            old(self).wf(),
            config.wf(),
            is_window_action(*action),
        ensures
            final(self).wf(),
            turn(*final(self), *final(act)) == single_step(
                turn(*old(self), *old(act)),
                *config,
                *action,
            ),
            final(self).vts == old(self).vts,
    {
        match action {
            Action::QuitOrAsk => self.open_modal(act, Some(Modal::Quit)),
            Action::ShowCommandsMenu => self.open_modal(act, Some(Modal::CommandsMenu)),
            Action::ShowAddProc => self.open_modal(act, Some(Modal::AddProc)),
            Action::ShowRemoveProc => self.ask_removal(act),
            Action::CloseCurrentModal => self.open_modal(act, None),
            Action::ShowRenameProc => self.open_modal(act, Some(Modal::RenameProc)),
            Action::ToggleFocus => {
                let scope = self.state.scope.toggle();
                self.focus_scope(act, scope);
            },
            Action::FocusProcs => self.focus_scope(act, Scope::Procs),
            Action::FocusTerm => self.focus_scope(act, Scope::Term),
            Action::Zoom => self.focus_scope(act, Scope::TermZoom),
            Action::ToggleKeymapWindow => {
                self.state.toggle_keymap_window();
                act.render();
            },
            Action::CopyModeEnter => self.enter_copy_mode(act),
            _ => {},
        }
    }

    fn handle_list_action(&mut self, act: &mut LoopAction, config: &Config, action: &Action)
        requires
            old(self).wf(),
            config.wf(),
            is_list_action(*action),
        ensures
            final(self).wf(),
            turn(*final(self), *final(act)) == single_step(
                turn(*old(self), *old(act)),
                *config,
                *action,
            ),
            final(self).vts == old(self).vts,
    {
        match action {
            Action::Quit => {
                self.begin_quit();
                act.render();
            },
            Action::ForceQuit => {
                proof {
                    reveal(Turn::force_quit);
                }
                self.tell_up(Down::Kill);
                act.force_quit();
            },
            Action::Detach { client_id } => {
                self.drop_client(*client_id);
                act.render();
            },
            Action::NextProc => {
                self.focus_next_row();
                act.render();
            },
            Action::PrevProc => {
                self.focus_prev_row();
                act.render();
            },
            Action::SelectProc { index } => {
                self.state.set_focus(*index, None);
                self.state.select_proc(*index);
                act.render();
            },
            Action::ToggleProcChildren => {
                let sel = self.state.selected();
                self.state.toggle_children(sel);
                act.render();
            },
            _ => {},
        }
    }

    fn handle_task_action(&mut self, act: &mut LoopAction, config: &Config, action: &Action)
        requires
            old(self).wf(),
            config.wf(),
            is_task_action(*action),
        ensures
            final(self).wf(),
            turn(*final(self), *final(act)) == single_step(
                turn(*old(self), *old(act)),
                *config,
                *action,
            ),
            final(self).vts == old(self).vts,
    {
        match action {
            Action::StartProc => self.tell_current(act, TaskOp::Start),
            Action::TermProc => self.tell_current(act, TaskOp::Stop),
            Action::KillProc => self.tell_current(act, TaskOp::Kill),
            Action::CopyModeLeave => self.tell_current(
                act,
                TaskOp::Screen(TaskScreenCmd::CopyLeave),
            ),
            Action::CopyModeMove { dir } => self.tell_current(
                act,
                TaskOp::Screen(TaskScreenCmd::CopyMove { dir: kernel_copy_move(*dir) }),
            ),
            Action::CopyModeEnd => self.tell_current(
                act,
                TaskOp::Screen(TaskScreenCmd::CopyBeginSelection),
            ),
            Action::CopyModeCopy => self.tell_current(
                act,
                TaskOp::Screen(TaskScreenCmd::CopyYank),
            ),
            Action::SendKey { key } => self.tell_current(act, TaskOp::Input(*key)),
            Action::RemoveProc { id } => {
                self.send(Effect::RemoveTask(*id));
                act.render();
            },
            Action::RenameProc { name } => self.rename_current(act, name.as_str()),
            _ => {},
        }
    }

    fn handle_run_action(&mut self, act: &mut LoopAction, config: &Config, action: &Action)
        requires
            old(self).wf(),
            config.wf(),
            is_run_action(*action),
        ensures
            final(self).wf(),
            turn(*final(self), *final(act)) == single_step(
                turn(*old(self), *old(act)),
                *config,
                *action,
            ),
            final(self).vts == old(self).vts,
    {
        match action {
            Action::RestartProc => self.rerun_current(act),
            Action::RestartAll => self.restart_all(act, Down::Stop),
            Action::ForceRestartProc => self.restart_current(act, Down::Kill),
            Action::ForceRestartAll => self.restart_all(act, Down::Kill),
            Action::ScrollUpLines { n } => {
                let n: i32 = #[verifier::truncate]
                (*n as i32);
                self.scroll(act, n);
            },
            Action::ScrollDownLines { n } => {
                let n: i32 = #[verifier::truncate]
                (*n as i32);
                self.scroll(act, negate(n));
            },
            Action::ScrollUp => self.scroll_half(act, true),
            Action::ScrollDown => self.scroll_half(act, false),
            Action::AddProc { cmd, name } => self.add_proc(act, config, cmd, name),
            Action::DuplicateProc => self.duplicate_current(act),
            _ => {},
        }
    }

    /// Does what a single action says.
    fn handle_single(&mut self, act: &mut LoopAction, config: &Config, action: &Action)
        requires
            old(self).wf(),
            config.wf(),
        ensures
            final(self).wf(),
            turn(*final(self), *final(act)) == single_step(
                turn(*old(self), *old(act)),
                *config,
                *action,
            ),
            final(self).vts == old(self).vts,
    {
        match action {
            Action::Batch { .. } => {},
            Action::QuitOrAsk
            | Action::ShowCommandsMenu
            | Action::ShowAddProc
            | Action::ShowRemoveProc
            | Action::CloseCurrentModal
            | Action::ShowRenameProc
            | Action::ToggleFocus
            | Action::FocusProcs
            | Action::FocusTerm
            | Action::Zoom
            | Action::ToggleKeymapWindow
            | Action::CopyModeEnter => self.handle_window_action(act, config, action),
            Action::Quit
            | Action::ForceQuit
            | Action::Detach { .. }
            | Action::NextProc
            | Action::PrevProc
            | Action::SelectProc { .. }
            | Action::ToggleProcChildren => self.handle_list_action(act, config, action),
            Action::StartProc
            | Action::TermProc
            | Action::KillProc
            | Action::CopyModeLeave
            | Action::CopyModeMove { .. }
            | Action::CopyModeEnd
            | Action::CopyModeCopy
            | Action::SendKey { .. }
            | Action::RemoveProc { .. }
            | Action::RenameProc { .. } => self.handle_task_action(act, config, action),
            Action::RestartProc
            | Action::RestartAll
            | Action::ForceRestartProc
            | Action::ForceRestartAll
            | Action::ScrollUpLines { .. }
            | Action::ScrollDownLines { .. }
            | Action::ScrollUp
            | Action::ScrollDown
            | Action::AddProc { .. }
            | Action::DuplicateProc => self.handle_run_action(act, config, action),
        }
    }

    /// Does what an action says.
    pub fn handle_event(&mut self, act: &mut LoopAction, config: &Config, action: &Action)
        requires
            old(self).wf(),
            config.wf(),
        ensures
            final(self).wf(),
            turn(*final(self), *final(act)) == step(
                turn(*old(self), *old(act)),
                *config,
                *action,
            ),
            final(self).vts == old(self).vts,
        decreases *action,
    {
        match action {
            Action::Batch { cmds } => {
                let ghost before = turn(*self, *act);
                let mut i: usize = 0;
                while i < cmds.len()
                    invariant
                        self.wf(),
                        config.wf(),
                        *action == (Action::Batch { cmds: *cmds }),
                        i <= cmds@.len(),
                        i > 0 ==> !(*act is ForceQuit),
                        before == turn(*old(self), *old(act)),
                        turn(*self, *act) == batch_step(before, *config, *action, i as int),
                        self.vts == old(self).vts,
                    decreases cmds@.len() - i,
                {
                    self.handle_event(act, config, &cmds[i]);
                    i += 1;
                    proof {
                        assert(cmds_of(*action) == cmds@);
                        assert(turn(*self, *act) == batch_step(before, *config, *action, i as int));
                    }
                    if *act == LoopAction::ForceQuit {
                        proof {
                            lemma_batch_ends(
                                before,
                                *config,
                                *action,
                                i as int,
                                cmds@.len() as int,
                            );
                        }
                        return;
                    }
                }
            },
            _ => self.handle_single(act, config, action),
        }
    }
}

/// A batch that was to end the loop does nothing more.
pub proof fn lemma_batch_ends(t: Turn, config: Config, action: Action, n: int, m: int)
    requires
        action is Batch,
        1 <= n <= m <= cmds_of(action).len(),
        batch_step(t, config, action, n).act is ForceQuit,
    ensures
        batch_step(t, config, action, m) == batch_step(t, config, action, n),
    decreases m - n,
{
    if n < m {
        lemma_batch_ends(t, config, action, n, m - 1);
    }
}

} // verus!
