//! The main loop of the console, but for its waiting and sending.

use crate::config::config::Config;
use crate::config::proc::{setting, DEFAULT_SCROLLBACK};
use crate::console::action::Action;
use crate::console::app::{sizes_of, turn, Core, LoopAction};
use crate::console::deps::{
    ids_view, proc_deps, proc_names, resolve_proc_deps, resolved_deps, DepsError, DepsProblem,
};
use crate::console::effect::{effects_view, Effect, EffectModel, TaskOp, TaskOpModel};
use crate::console::input::{
    server_message_in_range, server_step, unexpected, ServerMessage, UnexpectedMessage,
};
use crate::console::keymap::Keymap;
use crate::console::list::ListState;
use crate::console::names::{proc_path, segment_of};
use crate::console::notify::{
    notified, refreshed, screen_notified, term_area_of, FramedScreenNotify, TaskInfo, TaskNotify,
};
use crate::console::proc::view::ProcModel;
use crate::console::state::{DashboardState, Scope, State, StateModel};
use crate::console::turn::{
    id_after, spawn_effect, step, CoreModel, Turn,
};
use crate::kernel::context::TaskContext;
use crate::kernel::screen_cmd::{TaskScreenCmd, Winsize};
use crate::kernel::task::TaskId;
use crate::term::grid::{Grid, GridView};
use crate::term::rect::Size;
use crate::term::screen::VtTable;
use vstd::hash_set::StringHashSet;
use vstd::prelude::*;

verus! {

/// The size of the screen before a client tells its own.
pub const INITIAL_WIDTH: u16 = 160;

pub const INITIAL_HEIGHT: u16 = 50;

/// The console with its configuration.
pub struct App {
    pub config: Config,
    pub keymap: Keymap,
    pub core: Core,
}

/// The id `n` after another one.
pub open spec fn nth_id(first: usize, n: nat) -> usize
    decreases n,
{
    if n == 0 {
        first
    } else {
        id_after(nth_id(first, (n - 1) as nat))
    }
}

pub open spec fn ids_from(first: usize, n: nat) -> Seq<TaskId> {
    Seq::new(n, |i: int| TaskId(nth_id(first, i as nat)))
}

/// The path segments that the first `n` configured processes use.
pub open spec fn segments_upto(config: Config, ids: Seq<TaskId>, n: nat) -> Set<Seq<char>>
    decreases n,
{
    if n == 0 {
        Set::empty()
    } else {
        let before = segments_upto(config, ids, (n - 1) as nat);
        before.insert(segment_of(config.procs@[n - 1].path@, ids[n - 1], before))
    }
}

/// The requests to run the first `n` configured processes.
pub open spec fn spawns_upto(
    config: Config,
    ids: Seq<TaskId>,
    deps: Seq<Seq<TaskId>>,
    n: nat,
) -> Seq<EffectModel>
    decreases n,
{
    if n == 0 {
        Seq::empty()
    } else {
        let cfg = config.procs@[n - 1]@;
        let seg = segment_of(cfg.path, ids[n - 1], segments_upto(config, ids, (n - 1) as nat));
        spawns_upto(config, ids, deps, (n - 1) as nat).push(
            spawn_effect(config, cfg, ids[n - 1], Some(seq!['/'] + seg), deps[n - 1]),
        )
    }
}

/// Every configured process gets an id and is run, unless their dependencies
/// cannot be resolved.
pub open spec fn started(core: CoreModel, config: Config) -> CoreModel {
    let n = config.procs@.len();
    let ids = ids_from(core.next_id, n);
    let counted = CoreModel { next_id: nth_id(core.next_id, n), ..core };
    match resolved_deps(proc_names(config.procs@), proc_deps(config.procs@), ids) {
        Ok(deps) => counted.sent_all(spawns_upto(config, ids, deps, n)),
        Err(_) => counted,
    }
}

pub open spec fn start_problem(core: CoreModel, config: Config) -> Option<DepsProblem> {
    match resolved_deps(
        proc_names(config.procs@),
        proc_deps(config.procs@),
        ids_from(core.next_id, config.procs@.len()),
    ) {
        Ok(_) => None,
        Err(e) => Some(e),
    }
}

/// The message that tells a task the size of its screen.
pub open spec fn resize_effect(core: CoreModel, proc: ProcModel, size: Size) -> EffectModel {
    EffectModel::Task(
        proc.id,
        TaskOpModel::Screen(
            TaskScreenCmd::Resize {
                size: Winsize::of_cells(size.width, size.height),
                observer_id: core.task_id,
            },
        ),
    )
}

pub open spec fn resizes(core: CoreModel, size: Size) -> Seq<EffectModel> {
    core.state.procs.map_values(|p: ProcModel| resize_effect(core, p, size))
}

/// The size of the screen of a process.
pub open spec fn term_size(core: CoreModel, config: Config) -> Size {
    let area = term_area_of(core, config);
    Size { width: area.width, height: area.height }
}

/// What the main loop does after it handled what came in.
#[derive(Clone, Copy, Debug, PartialEq, Eq, Structural)]
pub enum Next {
    /// The loop ends.
    Leave,
    /// The loop goes on, and draws first if there is something new to see.
    Stay { render: bool },
}

pub open spec fn next_of(t: Turn) -> Next {
    if t.core.state.quitting && t.core.state.all_down() {
        Next::Leave
    } else {
        match t.act {
            LoopAction::Render => Next::Stay { render: true },
            LoopAction::Skip => Next::Stay { render: false },
            LoopAction::ForceQuit => Next::Leave,
        }
    }
}

/// A console that shows nothing yet.
pub open spec fn initial_core(config: Config, pc: TaskContext, vts: VtTable) -> CoreModel {
    CoreModel {
        state: StateModel {
            client: None,
            scope: Scope::Procs,
            procs: Seq::empty(),
            list: ListState::initial(),
            hide_keymap: !config.show_tips,
            quitting: false,
            dashboard: DashboardState::initial(),
        },
        modal: None,
        task_id: pc.task_id,
        next_id: pc.next_id,
        vt_sizes: sizes_of(vts@),
        screen_size: Size { width: INITIAL_WIDTH, height: INITIAL_HEIGHT },
        grid: GridView::blank(
            Size { width: INITIAL_WIDTH, height: INITIAL_HEIGHT },
            setting(config.proc_defaults.scrollback_len, DEFAULT_SCROLLBACK),
        ),
        clients: Seq::empty(),
        last_click: None,
        out: Seq::empty(),
    }
}

impl Core {
    /// A console that shows nothing yet.
    pub fn new(config: &Config, pc: TaskContext, vts: VtTable) -> (r: Self)
        ensures
            r.wf(),
            r.vts == vts,
            r@ == initial_core(*config, pc, vts),
    {
        let size = Size { width: INITIAL_WIDTH, height: INITIAL_HEIGHT };
        let r = Core {
            state: State::new(!config.show_tips),
            grid: Grid::new(size, config.proc_defaults.scrollback_len()),
            modal: None,
            pc,
            vts,
            screen_size: size,
            clients: Vec::new(),
            last_proc_click: None,
            out: Vec::new(),
        };
        proof {
            assert(effects_view(r.out@) =~= Seq::empty());
        }
        r
    }

    /// Takes an id for each of `n` processes.
    fn take_ids(&mut self, n: usize) -> (r: Vec<TaskId>)
        ensures
            r@ == ids_from(old(self)@.next_id, n as nat),
            final(self)@ == (CoreModel {
                next_id: nth_id(old(self)@.next_id, n as nat),
                ..old(self)@
            }),
            *final(self) == (Core { pc: final(self).pc, ..*old(self) }),
    {
        let ghost first = self@.next_id;
        let mut ids: Vec<TaskId> = Vec::new();
        let mut i: usize = 0;
        while i < n
            invariant
                i <= n,
                first == old(self)@.next_id,
                ids@.len() == i,
                forall|k: int| 0 <= k < i ==> #[trigger] ids@[k] == TaskId(nth_id(first, k as nat)),
                self@ == (CoreModel { next_id: nth_id(first, i as nat), ..old(self)@ }),
                *self == (Core { pc: self.pc, ..*old(self) }),
            decreases n - i,
        {
            let id = self.take_id();
            ids.push(id);
            i += 1;
        }
        proof {
            assert(ids@ =~= ids_from(first, n as nat));
        }
        ids
    }

    /// Runs the configured processes.
    pub fn start_procs(&mut self, config: &Config) -> (r: Result<(), DepsError>)
        requires
            old(self).wf(),
            config.wf(),
        ensures
            final(self).wf(),
            final(self)@ == started(old(self)@, *config),
            match r {
                Ok(()) => start_problem(old(self)@, *config) is None,
                Err(e) => start_problem(old(self)@, *config) == Some(e@),
            },
            final(self).vts == old(self).vts,
    {
        let n: usize = config.procs.len();
        let ghost first = self@.next_id;
        let ids = self.take_ids(n);
        let ghost counted = self@;
        let deps = match resolve_proc_deps(config.procs.as_slice(), ids.as_slice()) {
            Ok(deps) => deps,
            Err(e) => {
                return Err(e);
            },
        };
        let ghost want = ids_view(deps@);
        let mut used = StringHashSet::new();
        let mut i: usize = 0;
        proof {
            assert(want.len() == proc_deps(config.procs@).len());
            assert(counted.sent_all(spawns_upto(*config, ids@, want, 0)) =~= counted);
        }
        while i < n
            invariant
                self.wf(),
                config.wf(),
                n == config.procs@.len(),
                i <= n,
                ids@.len() == n,
                deps@.len() == n,
                want == ids_view(deps@),
                used@ == segments_upto(*config, ids@, i as nat),
                self@ == counted.sent_all(spawns_upto(*config, ids@, want, i as nat)),
                self.vts == old(self).vts,
            decreases n - i,
        {
            let id = ids[i];
            let path = proc_path(config.procs[i].path.as_str(), id, &mut used);
            let mut own: Vec<TaskId> = Vec::new();
            let mut k: usize = 0;
            while k < deps[i].len()
                invariant
                    i < deps@.len(),
                    k <= deps@[i as int]@.len(),
                    own@ == deps@[i as int]@.take(k as int),
                decreases deps@[i as int]@.len() - k,
            {
                own.push(deps[i][k]);
                proof {
                    let d = deps@[i as int]@;
                    assert(d.take(k + 1) =~= d.take(k as int).push(d[k as int]));
                }
                k += 1;
            }
            proof {
                assert(own@ =~= want[i as int]);
            }
            let ghost before = self@;
            let cfg = config.procs[i].clone();
            self.spawn_proc(config, cfg, id, path, own);
            proof {
                assert(self@ =~= counted.sent_all(
                    spawns_upto(*config, ids@, want, (i + 1) as nat),
                ));
            }
            i += 1;
        }
        Ok(())
    }

    /// Tells the processes the size of their screens, if it changed, and
    /// returns it.
    pub fn sync_term_size(&mut self, config: &Config, last: Size) -> (r: Size)
        requires
            old(self).wf(),
            config.wf(),
        ensures
            final(self).wf(),
            r == term_size(old(self)@, *config),
            final(self)@ == (if r == last {
                old(self)@
            } else {
                old(self)@.sent_all(resizes(old(self)@, r))
            }),
            final(self).vts == old(self).vts,
    {
        let size = self.get_layout(config).term_area().size();
        if size == last {
            return size;
        }
        let ghost before = self@;
        let ghost all = resizes(before, size);
        let observer_id = self.pc.task_id;
        let mut i: usize = 0;
        proof {
            assert(before.sent_all(all.take(0)) =~= before);
        }
        while i < self.state.procs.len()
            invariant
                self.same_but_out(*old(self)),
                i <= self.state.procs@.len(),
                before == old(self)@,
                observer_id == before.task_id,
                all == resizes(before, size),
                self@ == before.sent_all(all.take(i as int)),
            decreases self.state.procs@.len() - i,
        {
            let id = self.state.procs[i].id();
            self.send(
                Effect::Task(
                    id,
                    TaskOp::Screen(
                        TaskScreenCmd::Resize {
                            size: Winsize::cells(size.width, size.height),
                            observer_id,
                        },
                    ),
                ),
            );
            proof {
                assert(before.state.procs[i as int] == self.state.procs@[i as int]@);
                assert(all.take(i + 1) =~= all.take(i as int).push(all[i as int]));
                assert(before.sent_all(all.take(i + 1)) =~= before.sent_all(
                    all.take(i as int),
                ).sent(all[i as int]));
            }
            i += 1;
        }
        proof {
            assert(all.take(i as int) =~= all);
        }
        size
    }

    /// What the main loop does next.
    pub fn next(&self, act: LoopAction) -> (r: Next)
        ensures
            r == next_of(turn(*self, act)),
    {
        if self.state.quitting && self.state.all_procs_down() {
            return Next::Leave;
        }
        match act {
            LoopAction::Render => Next::Stay { render: true },
            LoopAction::Skip => Next::Stay { render: false },
            LoopAction::ForceQuit => Next::Leave,
        }
    }
}

impl App {
    pub open spec fn wf(self) -> bool {
        self.config.wf() && self.core.wf()
    }

    /// A console that shows nothing yet.
    pub fn new(config: Config, keymap: Keymap, pc: TaskContext, vts: VtTable) -> (r: Self)
        requires
            config.wf(),
        ensures
            r.wf(),
            r.config == config,
            r.keymap == keymap,
            r.core@ == initial_core(config, pc, vts),
            r.core.vts == vts,
    {
        let core = Core::new(&config, pc, vts);
        App { config, keymap, core }
    }

    /// What is done first of all, if that is configured.
    pub fn initial_action(&mut self) -> (r: Option<Action>)
        requires
            old(self).wf(),
        ensures
            final(self).wf(),
            r == old(self).config.on_init,
            final(self).config == (Config { on_init: None, ..old(self).config }),
            final(self).keymap == old(self).keymap,
            final(self).core == old(self).core,
    {
        self.config.on_init.take()
    }

    /// Everything but the core is as it was.
    pub open spec fn same_settings(self, before: App) -> bool {
        self.config == before.config && self.keymap == before.keymap
    }

    pub fn handle_event(&mut self, act: &mut LoopAction, action: &Action)
        requires
            old(self).wf(),
        ensures
            final(self).wf(),
            final(self).same_settings(*old(self)),
            turn(final(self).core, *final(act)) == step(
                turn(old(self).core, *old(act)),
                old(self).config,
                *action,
            ),
            final(self).core.vts == old(self).core.vts,
    {
        self.core.handle_event(act, &self.config, action);
    }

    pub fn handle_notification(
        &mut self,
        act: &mut LoopAction,
        from: TaskId,
        notify: TaskNotify,
        now: u64,
    )
        requires
            old(self).wf(),
        ensures
            final(self).wf(),
            final(self).same_settings(*old(self)),
            turn(final(self).core, *final(act)) == notified(
                turn(old(self).core, *old(act)),
                old(self).config,
                from,
                notify,
                now,
            ),
            final(self).core.keeps_vts(old(self).core),
    {
        self.core.handle_notification(act, &self.config, from, notify, now);
    }

    pub fn handle_screen_notify(&mut self, act: &mut LoopAction, notify: FramedScreenNotify)
        requires
            old(self).wf(),
        ensures
            final(self).wf(),
            final(self).same_settings(*old(self)),
            turn(final(self).core, *final(act)) == screen_notified(
                turn(old(self).core, *old(act)),
                notify,
            ),
            final(self).core.vts == old(self).core.vts,
    {
        self.core.handle_screen_notify(act, notify);
    }

    pub fn handle_server_message(
        &mut self,
        act: &mut LoopAction,
        msg: ServerMessage,
        handled: bool,
        now: u64,
    ) -> (r: Result<(), UnexpectedMessage>)
        requires
            old(self).wf(),
            server_message_in_range(msg),
        ensures
            final(self).wf(),
            final(self).same_settings(*old(self)),
            turn(final(self).core, *final(act)) == server_step(
                turn(old(self).core, *old(act)),
                old(self).config,
                old(self).keymap,
                msg,
                handled,
                now,
            ),
            r is Err <==> (msg matches ServerMessage::ClientMessage { msg, .. } && unexpected(
                msg,
            ) is Some),
            r matches Err(e) ==> (msg matches ServerMessage::ClientMessage { msg, .. }
                && unexpected(msg) == Some(e)),
            final(self).core.vts == old(self).core.vts,
    {
        self.core.handle_server_message(act, &self.config, &self.keymap, msg, handled, now)
    }

    pub fn refresh_procs(&mut self, list: &Vec<TaskInfo>, now: u64)
        requires
            old(self).wf(),
        ensures
            final(self).wf(),
            final(self).same_settings(*old(self)),
            final(self).core@ == refreshed(old(self).core@, old(self).config, list@, now),
            final(self).core.keeps_vts(old(self).core),
    {
        self.core.refresh_procs(&self.config, list, now);
    }

    pub fn start_procs(&mut self) -> (r: Result<(), DepsError>)
        requires
            old(self).wf(),
        ensures
            final(self).wf(),
            final(self).same_settings(*old(self)),
            final(self).core@ == started(old(self).core@, old(self).config),
            match r {
                Ok(()) => start_problem(old(self).core@, old(self).config) is None,
                Err(e) => start_problem(old(self).core@, old(self).config) == Some(e@),
            },
            final(self).core.vts == old(self).core.vts,
    {
        self.core.start_procs(&self.config)
    }

    /// Hands out what was asked of the rest of the system.
    pub fn take_effects(&mut self) -> (r: Vec<Effect>)
        requires
            old(self).wf(),
        ensures
            final(self).wf(),
            final(self).same_settings(*old(self)),
            effects_view(r@) == old(self).core@.out,
            final(self).core@ == (CoreModel { out: Seq::empty(), ..old(self).core@ }),
            final(self).core.vts == old(self).core.vts,
    {
        let mut out: Vec<Effect> = Vec::new();
        std::mem::swap(&mut out, &mut self.core.out);
        proof {
            assert(effects_view(self.core.out@) =~= Seq::empty());
        }
        out
    }
}

} // verus!
