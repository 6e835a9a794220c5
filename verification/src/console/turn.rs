//! What each action does to the console, as a step from one state to the next.

use crate::config::config::Config;
use crate::config::proc::{CmdModel, ProcSettings};
use crate::console::action::{copy_move, Action, ClientId};
use crate::console::effect::{Down, EffectModel, TaskOpModel};
use crate::console::names::{segment_of, unique_name};
use crate::console::proc::child::ChildKind;
use crate::console::proc::view::ProcModel;
use crate::console::spawn::task_settings;
use crate::console::state::{Scope, StateModel};
use crate::kernel::path::path_name;
use crate::kernel::screen_cmd::TaskScreenCmd;
use crate::kernel::task::TaskId;
use crate::term::grid::GridView;
use crate::term::rect::Size;
use crate::term::screen::SharedVt;
use vstd::prelude::*;

verus! {

/// What the main loop does next.
#[derive(Clone, Copy, Debug, PartialEq, Eq, Structural)]
pub enum LoopAction {
    Render,
    Skip,
    ForceQuit,
}

/// A window over the others.
#[derive(Clone, Copy, Debug, PartialEq, Eq, Structural)]
pub enum Modal {
    Quit,
    CommandsMenu,
    AddProc,
    RemoveProc(TaskId),
    RenameProc,
}

/// A client and the size of its terminal.
#[derive(Clone, Copy, Debug, PartialEq, Eq, Structural)]
pub struct ClientHandle {
    pub id: ClientId,
    pub size: Size,
}

/// The console, by its characters.
#[verifier::ext_equal]
pub struct CoreModel {
    pub state: StateModel,
    pub modal: Option<Modal>,
    /// The task of the console itself.
    pub task_id: TaskId,
    pub next_id: usize,
    /// The sizes of all terminals.
    pub vt_sizes: Seq<Size>,
    pub screen_size: Size,
    pub grid: GridView,
    pub clients: Seq<ClientHandle>,
    /// The time and the place of the last click on a process.
    pub last_click: Option<(u64, usize)>,
    /// What was asked of the rest of the system so far.
    pub out: Seq<EffectModel>,
}

/// The console and what the main loop does next.
#[verifier::ext_equal]
pub struct Turn {
    pub core: CoreModel,
    pub act: LoopAction,
}

/// The id after another one.
pub open spec fn id_after(id: usize) -> usize {
    if id < usize::MAX {
        (id + 1) as usize
    } else {
        0
    }
}

/// The messages to those of the first `n` processes that are up.
pub open spec fn to_up(procs: Seq<ProcModel>, down: Down, n: nat) -> Seq<EffectModel>
    decreases n,
{
    if n == 0 {
        Seq::empty()
    } else {
        let before = to_up(procs, down, (n - 1) as nat);
        if procs[n - 1].status.up() {
            before.push(EffectModel::Task(procs[n - 1].id, down.op()))
        } else {
            before
        }
    }
}

/// The messages that restart a process: it is taken down if it is up, then it
/// is started.
pub open spec fn restart(proc: ProcModel, down: Down) -> Seq<EffectModel> {
    let start = EffectModel::Task(proc.id, TaskOpModel::Start);
    if proc.status.up() {
        seq![EffectModel::Task(proc.id, down.op()), start]
    } else {
        seq![start]
    }
}

/// The messages that restart the first `n` processes.
pub open spec fn restart_upto(procs: Seq<ProcModel>, down: Down, n: nat) -> Seq<EffectModel>
    decreases n,
{
    if n == 0 {
        Seq::empty()
    } else {
        restart_upto(procs, down, (n - 1) as nat) + restart(procs[n - 1], down)
    }
}

/// Half the height of a terminal, at least one line.
pub open spec fn half_height(vt_sizes: Seq<Size>, vt: SharedVt) -> i32 {
    if vt.0 < vt_sizes.len() && vt_sizes[vt.0 as int].height >= 2 {
        (vt_sizes[vt.0 as int].height / 2) as i32
    } else {
        1
    }
}

pub open spec fn negated(n: i32) -> i32 {
    if n == i32::MIN {
        n
    } else {
        (-n) as i32
    }
}

pub open spec fn lines(n: usize) -> i32 {
    #[verifier::truncate]
    (n as i32)
}

/// The last segments of the paths of the processes.
pub open spec fn used_segments(procs: Seq<ProcModel>) -> Set<Seq<char>> {
    Set::new(
        |x: Seq<char>|
            exists|i: int|
                0 <= i < procs.len() && (#[trigger] procs[i]).path is Some && path_name(
                    procs[i].path->0,
                ) == x,
    )
}

/// The settings of a process that is added by hand.
pub open spec fn added_settings(path: Seq<char>, cmd: Seq<char>) -> ProcSettings {
    ProcSettings {
        path,
        cmd: Some(CmdModel::Shell(cmd)),
        autostart: Some(true),
        ..ProcSettings::blank()
    }
}

/// The request to run a process.
pub open spec fn spawn_effect(
    config: Config,
    settings: ProcSettings,
    id: TaskId,
    path: Option<Seq<char>>,
    deps: Seq<TaskId>,
) -> EffectModel {
    EffectModel::Spawn(id, path, task_settings(config.proc_defaults@.overlaid(settings), deps))
}

impl StateModel {
    /// The row below the one that has the focus gets it: the next row of the
    /// process, or else the next process, the first one after the last.
    pub open spec fn next_row(self) -> StateModel {
        let sel = self.list.selected;
        if sel >= self.procs.len() {
            self
        } else {
            let p = self.procs[sel as int];
            let inside = match p.focused_child {
                None => Some(0),
                Some(i) => if i + 1 < p.children.len() {
                    Some((i + 1) as usize)
                } else {
                    None
                },
            };
            if p.expanded && p.children.len() > 0 && inside is Some {
                self.with_focus(sel as int, inside)
            } else {
                let next = if sel + 1 >= self.procs.len() {
                    0
                } else {
                    (sel + 1) as usize
                };
                self.with_focus(sel as int, None).with_focus(next as int, None).selecting(next)
            }
        }
    }

    /// The row above the one that has the focus gets it.
    pub open spec fn prev_row(self) -> StateModel {
        let sel = self.list.selected;
        if sel >= self.procs.len() {
            self
        } else {
            match self.procs[sel as int].focused_child {
                Some(i) => self.with_focus(
                    sel as int,
                    if i == 0 {
                        None
                    } else {
                        Some((i - 1) as usize)
                    },
                ),
                None => {
                    let prev = if sel > 0 {
                        (sel - 1) as usize
                    } else {
                        (self.procs.len() - 1) as usize
                    };
                    let p = self.procs[prev as int];
                    let land = if p.expanded && p.children.len() > 0 {
                        Some((p.children.len() - 1) as usize)
                    } else {
                        None
                    };
                    self.with_focus(prev as int, land).selecting(prev)
                },
            }
        }
    }
}

impl CoreModel {
    pub open spec fn sent(self, effect: EffectModel) -> CoreModel {
        CoreModel { out: self.out.push(effect), ..self }
    }

    pub open spec fn sent_all(self, effects: Seq<EffectModel>) -> CoreModel {
        CoreModel { out: self.out + effects, ..self }
    }

    /// The screen has the size of the first client, and nothing is drawn yet.
    pub open spec fn sized(self) -> CoreModel {
        if self.clients.len() > 0 {
            CoreModel {
                screen_size: self.clients[0].size,
                grid: self.grid.emptied(self.clients[0].size),
                ..self
            }
        } else {
            self
        }
    }

    /// A client is gone.
    pub open spec fn without_client(self, id: ClientId) -> CoreModel {
        CoreModel {
            clients: self.clients.filter(|c: ClientHandle| c.id != id),
            ..self
        }.sized()
    }

    /// Every process that is up is told to stop.
    pub open spec fn quitting(self) -> CoreModel {
        CoreModel { state: StateModel { quitting: true, ..self.state }, ..self }.sent_all(
            to_up(self.state.procs, Down::Stop, self.state.procs.len()),
        )
    }

    pub open spec fn with_state(self, state: StateModel) -> CoreModel {
        CoreModel { state, ..self }
    }
}

impl Turn {
    pub open spec fn rendered(self) -> Turn {
        Turn {
            act: match self.act {
                LoopAction::Skip => LoopAction::Render,
                _ => self.act,
            },
            ..self
        }
    }

    pub open spec fn with_core(self, core: CoreModel) -> Turn {
        Turn { core, ..self }
    }

    pub open spec fn with_state(self, state: StateModel) -> Turn {
        self.with_core(self.core.with_state(state))
    }

    #[verifier::opaque]
    pub open spec fn opened(self, modal: Option<Modal>) -> Turn {
        self.with_core(CoreModel { modal, ..self.core }).rendered()
    }

    #[verifier::opaque]
    pub open spec fn focused(self, scope: Scope) -> Turn {
        self.with_state(StateModel { scope, ..self.core.state }).rendered()
    }

    /// Every process that is up is killed, and the main loop ends.
    #[verifier::opaque]
    pub open spec fn force_quit(self) -> Turn {
        Turn {
            core: self.core.sent_all(
                to_up(self.core.state.procs, Down::Kill, self.core.state.procs.len()),
            ),
            act: LoopAction::ForceQuit,
        }
    }

    /// The selected process gets a message.
    #[verifier::opaque]
    pub open spec fn told(self, op: TaskOpModel) -> Turn {
        match self.core.state.current() {
            Some(proc) => self.with_core(self.core.sent(EffectModel::Task(proc.id, op))),
            None => self,
        }
    }

    /// The selected row runs again: a hook, a check, or the process.
    #[verifier::opaque]
    pub open spec fn rerun(self) -> Turn {
        match self.core.state.current() {
            Some(proc) => match proc.focused_kind() {
                Some(ChildKind::Hook(event)) => self.told(TaskOpModel::RerunHook(event)),
                Some(ChildKind::Check(i)) => self.told(TaskOpModel::RerunCheck(i)),
                Some(ChildKind::Deps) => self,
                None => self.restarted(Down::Stop),
            },
            None => self,
        }
    }

    #[verifier::opaque]
    pub open spec fn restarted(self, down: Down) -> Turn {
        match self.core.state.current() {
            Some(proc) => self.with_core(self.core.sent_all(restart(proc, down))),
            None => self,
        }
    }

    #[verifier::opaque]
    pub open spec fn restarted_all(self, down: Down) -> Turn {
        self.with_core(
            self.core.sent_all(
                restart_upto(self.core.state.procs, down, self.core.state.procs.len()),
            ),
        )
    }

    #[verifier::opaque]
    pub open spec fn scrolled(self, delta: i32) -> Turn {
        match self.core.state.current() {
            Some(proc) => self.told(
                TaskOpModel::Screen(TaskScreenCmd::Scroll { delta }),
            ).rendered(),
            None => self,
        }
    }

    /// Half a screen up or down.
    #[verifier::opaque]
    pub open spec fn half_scrolled(self, up: bool) -> Turn {
        match self.core.state.current() {
            Some(proc) => {
                let half = half_height(self.core.vt_sizes, proc.vt);
                self.scrolled(
                    if up {
                        half
                    } else {
                        negated(half)
                    },
                )
            },
            None => self,
        }
    }

    /// A process is added by hand.
    #[verifier::opaque]
    pub open spec fn added(self, config: Config, cmd: Seq<char>, name: Seq<char>) -> Turn {
        let procs = self.core.state.procs;
        let path = unique_name(procs, name, None);
        let id = TaskId(self.core.next_id);
        self.with_core(
            CoreModel { next_id: id_after(self.core.next_id), ..self.core }.sent(
                spawn_effect(
                    config,
                    added_settings(path, cmd),
                    id,
                    Some(seq!['/'] + segment_of(path, id, used_segments(procs))),
                    Seq::empty(),
                ),
            ),
        ).rendered()
    }

    #[verifier::opaque]
    pub open spec fn duplicated(self) -> Turn {
        match self.core.state.current() {
            Some(proc) => self.told(
                TaskOpModel::Duplicate(unique_name(self.core.state.procs, proc.name, None)),
            ).rendered(),
            None => self,
        }
    }

    /// A process that is down may be removed.
    #[verifier::opaque]
    pub open spec fn asked_removal(self) -> Turn {
        match self.core.state.current() {
            Some(proc) => if proc.status.up() {
                self
            } else {
                self.opened(Some(Modal::RemoveProc(proc.id)))
            },
            None => self,
        }
    }

    #[verifier::opaque]
    pub open spec fn renamed(self, name: Seq<char>) -> Turn {
        match self.core.state.current() {
            Some(proc) => self.with_core(
                self.core.sent(
                    EffectModel::SetLabel(
                        proc.id,
                        unique_name(self.core.state.procs, name, Some(proc.id)),
                    ),
                ),
            ).rendered(),
            None => self,
        }
    }

    #[verifier::opaque]
    pub open spec fn copying(self) -> Turn {
        match self.core.state.current() {
            Some(_) => self.told(TaskOpModel::Screen(TaskScreenCmd::CopyEnter)).focused(Scope::Term),
            None => self,
        }
    }
}

/// What an action that is no batch does.
pub open spec fn single_step(t: Turn, config: Config, action: Action) -> Turn {
    let state = t.core.state;
    match action {
        Action::Batch { .. } => t,
        Action::QuitOrAsk => t.opened(Some(Modal::Quit)),
        Action::Quit => t.with_core(t.core.quitting()).rendered(),
        Action::ForceQuit => t.force_quit(),
        Action::Detach { client_id } => t.with_core(t.core.without_client(client_id)).rendered(),
        Action::ToggleFocus => t.focused(state.scope.toggled()),
        Action::FocusProcs => t.focused(Scope::Procs),
        Action::FocusTerm => t.focused(Scope::Term),
        Action::Zoom => t.focused(Scope::TermZoom),
        Action::ShowCommandsMenu => t.opened(Some(Modal::CommandsMenu)),
        Action::NextProc => t.with_state(state.next_row()).rendered(),
        Action::PrevProc => t.with_state(state.prev_row()).rendered(),
        Action::SelectProc { index } => t.with_state(
            state.with_focus(index as int, None).selecting(index),
        ).rendered(),
        Action::ToggleProcChildren => t.with_state(
            state.toggled(state.list.selected as int),
        ).rendered(),
        Action::StartProc => t.told(TaskOpModel::Start),
        Action::TermProc => t.told(TaskOpModel::Stop),
        Action::KillProc => t.told(TaskOpModel::Kill),
        Action::RestartProc => t.rerun(),
        Action::RestartAll => t.restarted_all(Down::Stop),
        Action::ForceRestartProc => t.restarted(Down::Kill),
        Action::ForceRestartAll => t.restarted_all(Down::Kill),
        Action::ScrollUpLines { n } => t.scrolled(lines(n)),
        Action::ScrollDownLines { n } => t.scrolled(negated(lines(n))),
        Action::ScrollUp => t.half_scrolled(true),
        Action::ScrollDown => t.half_scrolled(false),
        Action::ShowAddProc => t.opened(Some(Modal::AddProc)),
        Action::AddProc { cmd, name } => t.added(
            config,
            cmd@,
            match name {
                Some(n) => n@,
                None => cmd@,
            },
        ),
        Action::DuplicateProc => t.duplicated(),
        Action::ShowRemoveProc => t.asked_removal(),
        Action::RemoveProc { id } => t.with_core(
            t.core.sent(EffectModel::RemoveTask(id)),
        ).rendered(),
        Action::CloseCurrentModal => t.opened(None),
        Action::ShowRenameProc => t.opened(Some(Modal::RenameProc)),
        Action::RenameProc { name } => t.renamed(name@),
        Action::CopyModeEnter => t.copying(),
        Action::CopyModeLeave => t.told(TaskOpModel::Screen(TaskScreenCmd::CopyLeave)),
        Action::CopyModeMove { dir } => t.told(
            TaskOpModel::Screen(TaskScreenCmd::CopyMove { dir: copy_move(dir) }),
        ),
        Action::CopyModeEnd => t.told(TaskOpModel::Screen(TaskScreenCmd::CopyBeginSelection)),
        Action::CopyModeCopy => t.told(TaskOpModel::Screen(TaskScreenCmd::CopyYank)),
        Action::ToggleKeymapWindow => t.with_state(
            StateModel { hide_keymap: !state.hide_keymap, ..state },
        ).rendered(),
        Action::SendKey { key } => t.told(TaskOpModel::Input(key)),
    }
}

pub open spec fn cmds_of(action: Action) -> Seq<Action> {
    match action {
        Action::Batch { cmds } => cmds@,
        _ => Seq::empty(),
    }
}

/// What an action does; a batch does what its parts do, one after the other,
/// up to one that ends the main loop.
pub open spec fn step(t: Turn, config: Config, action: Action) -> Turn
    decreases action, 1int, 0int,
{
    if action is Batch {
        batch_step(t, config, action, cmds_of(action).len() as int)
    } else {
        single_step(t, config, action)
    }
}

/// What the first `n` parts of a batch do.
pub open spec fn batch_step(t: Turn, config: Config, action: Action, n: int) -> Turn
    decreases action, 0int, n,
{
    if n <= 0 || n > cmds_of(action).len() || !(action is Batch) {
        t
    } else {
        let before = batch_step(t, config, action, n - 1);
        if n > 1 && before.act is ForceQuit {
            before
        } else {
            step(before, config, action->cmds@[n - 1])
        }
    }
}

} // verus!
