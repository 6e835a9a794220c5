//! The lifecycle of a process in the classic interface.
//!
//! The process handles one event at a time. Spawning it and running a hook
//! take time: it then waits for the outcome before anything else.

use crate::config::health::{
    check_views, HealthCheckDef, HealthCheckModel, HookEvent, HookSet, HookSetModel,
};
use crate::config::proc::StopSignal;
use crate::kernel::screen_cmd::TaskScreenCmd;
use crate::kernel::task::{TaskId, TaskStatus};
use crate::mprocs::proc::hooks::{conclude_hook, hook_outcome, HookResult};
use crate::mprocs::proc::msg::{ProcEvent, ProcMsg};
use crate::task::health::{AggregateOutcome, HealthEvent, HealthModel, HealthRunner};
use crate::task::hook_map::HookMap;
use crate::task::machine::{health_view, TaskReport};
use crate::task::proc_task::Signal;
use crate::term::key::Key;
use crate::term::mouse::{MouseEvent, MouseProtocolMode};
use crate::term::rect::Size;
use vstd::prelude::*;

verus! {

/// A process that was spawned.
#[derive(Clone, Copy, Debug, PartialEq, Eq, Structural)]
pub struct Inst {
    pub pid: u32,
    pub exit_code: Option<u32>,
    pub stdout_eof: bool,
}

#[derive(Clone, Copy, Debug, PartialEq, Eq, Structural)]
pub enum ProcState {
    Absent,
    Present(Inst),
}

impl ProcState {
    /// Still running, or with output that was not read to its end.
    pub open spec fn up(self) -> bool {
        match self {
            ProcState::Present(inst) => inst.exit_code is None || !inst.stdout_eof,
            ProcState::Absent => false,
        }
    }

    pub open spec fn code(self) -> Option<u32> {
        match self {
            ProcState::Present(inst) => inst.exit_code,
            ProcState::Absent => None,
        }
    }
}

/// What the outcome of the hook that runs now is for.
#[derive(Clone, Copy, Debug, PartialEq, Eq, Structural)]
pub enum HookUse {
    Started,
    /// The started hook failed.
    FailedStart,
    Running,
    /// The running hook failed.
    FailedRunning,
    Unhealthy,
    /// The process exited with this code.
    Stopped(u32),
    /// The hook is run by hand.
    Rerun(HookEvent),
}

#[derive(Clone, Copy, Debug, PartialEq, Eq, Structural)]
pub enum Phase {
    Idle,
    Spawning,
    Hook(HookUse),
}

pub enum Event {
    Start,
    Stop,
    Kill,
    Msg(ProcMsg),
    Screen(TaskScreenCmd),
    Internal(ProcEvent),
    /// Output of the process; none is the end of it.
    Read(usize),
    ReadError,
    Health(HealthEvent),
    /// The process was spawned under this id, or could not be.
    Spawned(Option<u32>),
    HookFinished(HookResult),
}

pub enum Action {
    Report(TaskReport),
    /// A report on behalf of the task of a hook.
    ReportFor(TaskId, TaskReport),
    Spawn,
    RunHook(HookEvent),
    StartChecks,
    StopChecks,
    Signal(Signal),
    /// Type the keys that stop the process.
    TypeStopKeys,
    /// Run the command that stops the process.
    RunStopCmd,
    Kill,
    /// Let the process know that it exited.
    Reap,
    Screen(TaskScreenCmd),
    SendKey(Key),
    SendMouse(MouseEvent),
    ScrollUp(usize),
    ScrollDown(usize),
    /// The view goes back to the end of the output.
    ScrollToEnd,
    /// Bytes for the process.
    Write(Vec<u8>),
    ShowOutput(usize),
    RerunCheck(usize),
}

/// The exit code that is reported when output ended and none is known.
pub const CODE_AFTER_END: u32 = 199;

/// The exit code that is reported when reading failed and none is known.
pub const CODE_AFTER_READ_ERROR: u32 = 198;

pub struct Proc {
    pub id: TaskId,
    pub size: Size,
    pub stop_signal: StopSignal,
    pub healthchecks: Vec<HealthCheckDef>,
    pub hooks: HookSet,
    pub hook_task_ids: HookMap<TaskId>,
    pub inst: ProcState,
    pub phase: Phase,
    pub health: Option<HealthRunner>,
    /// The task was reported as started for this process.
    pub reported_running: bool,
}

pub struct ProcModel {
    pub id: TaskId,
    pub size: Size,
    pub stop_signal: StopSignal,
    pub healthchecks: Seq<HealthCheckModel>,
    pub hooks: HookSetModel,
    pub hook_task_ids: HookMap<TaskId>,
    pub inst: ProcState,
    pub phase: Phase,
    pub health: Option<HealthModel>,
    pub reported_running: bool,
}

impl View for Proc {
    type V = ProcModel;

    open spec fn view(&self) -> ProcModel {
        ProcModel {
            id: self.id,
            size: self.size,
            stop_signal: self.stop_signal,
            healthchecks: check_views(self.healthchecks@),
            hooks: self.hooks@,
            hook_task_ids: self.hook_task_ids,
            inst: self.inst,
            phase: self.phase,
            health: health_view(self.health),
            reported_running: self.reported_running,
        }
    }
}

/// A state and the actions that lead to it.
pub struct Step {
    pub state: ProcModel,
    pub actions: Seq<Action>,
}

impl Step {
    /// The step with `actions` in front.
    pub open spec fn after(self, actions: Seq<Action>) -> Step {
        Step { state: self.state, actions: actions + self.actions }
    }
}

pub open spec fn report(r: TaskReport) -> Action {
    Action::Report(r)
}

pub open spec fn status(s: TaskStatus) -> Action {
    Action::Report(TaskReport::TaskStatusChanged(s))
}

/// One action, or none.
pub open spec fn only_if(cond: bool, action: Action) -> Seq<Action> {
    if cond {
        seq![action]
    } else {
        Seq::empty()
    }
}

impl ProcModel {
    pub open spec fn acts(self, actions: Seq<Action>) -> Step {
        Step { state: self, actions }
    }

    pub open spec fn event_of(u: HookUse) -> HookEvent {
        match u {
            HookUse::Started => HookEvent::Started,
            HookUse::FailedStart => HookEvent::Failed,
            HookUse::Running => HookEvent::Running,
            HookUse::FailedRunning => HookEvent::Failed,
            HookUse::Unhealthy => HookEvent::Unhealthy,
            HookUse::Stopped(_) => HookEvent::Stopped,
            HookUse::Rerun(event) => event,
        }
    }

    pub open spec fn hook_report(self, event: HookEvent, r: TaskReport) -> Seq<Action> {
        match self.hook_task_ids.at(event) {
            Some(id) => seq![Action::ReportFor(id, r)],
            None => Seq::empty(),
        }
    }

    pub open spec fn has_hook(self, u: HookUse) -> bool {
        self.hooks.at(ProcModel::event_of(u)) is Some
    }

    /// The process waits for a hook.
    #[verifier::opaque]
    pub open spec fn waits_for(self, u: HookUse) -> Step {
        ProcModel { phase: Phase::Hook(u), ..self }.acts(
            self.hook_report(ProcModel::event_of(u), TaskReport::TaskStarted).push(
                Action::RunHook(ProcModel::event_of(u)),
            ),
        )
    }

    /// The exit code of the process is noted.
    pub open spec fn noted_exit(self, code: u32) -> Step {
        match self.inst {
            ProcState::Absent => self.acts(Seq::empty()),
            ProcState::Present(inst) => ProcModel {
                inst: ProcState::Present(Inst { exit_code: Some(code), ..inst }),
                ..self
            }.acts(seq![Action::Reap]),
        }
    }

    /// The process exited: it is over unless there is output left to read.
    pub open spec fn over(self, code: u32) -> Step {
        let noted = self.noted_exit(code);
        noted.state.acts(
            noted.actions + only_if(
                !noted.state.inst.up(),
                report(TaskReport::TaskStopped(code)),
            ),
        )
    }

    /// A new process takes the place of one that is over.
    pub open spec fn starts(self) -> Step {
        if self.inst.up() {
            self.acts(Seq::empty())
        } else {
            ProcModel { inst: ProcState::Absent, phase: Phase::Spawning, ..self }.acts(
                seq![Action::Spawn],
            )
        }
    }

    /// What follows when a hook that decides nothing is over.
    #[verifier::opaque]
    pub open spec fn concluded(self, u: HookUse) -> Step {
        let idle = ProcModel { phase: Phase::Idle, ..self };
        match u {
            HookUse::FailedStart => idle.acts(only_if(self.inst.up(), Action::Kill)),
            HookUse::FailedRunning => idle.acts(seq![status(TaskStatus::Unhealthy)]),
            HookUse::Stopped(code) => idle.over(code),
            _ => idle.acts(Seq::empty()),
        }
    }

    /// Runs the hook of a use whose outcome decides nothing.
    #[verifier::opaque]
    pub open spec fn notifies(self, u: HookUse) -> Step {
        if self.has_hook(u) {
            self.waits_for(u)
        } else {
            self.concluded(u)
        }
    }

    /// The started hook is over. A process without checks is ready now.
    #[verifier::opaque]
    pub open spec fn started(self, ok: bool) -> Step {
        let idle = ProcModel { phase: Phase::Idle, ..self };
        if !ok {
            self.notifies(HookUse::FailedStart)
        } else if self.healthchecks.len() > 0 {
            idle.acts(seq![status(TaskStatus::Starting)])
        } else if self.has_hook(HookUse::Running) {
            self.waits_for(HookUse::Running)
        } else {
            self.running(true)
        }
    }

    /// The running hook is over.
    #[verifier::opaque]
    pub open spec fn running(self, ok: bool) -> Step {
        let idle = ProcModel { phase: Phase::Idle, ..self };
        if !ok {
            self.notifies(HookUse::FailedRunning)
        } else if self.reported_running {
            idle.acts(seq![status(TaskStatus::Running)])
        } else {
            ProcModel { reported_running: true, ..idle }.acts(
                seq![report(TaskReport::TaskStarted)],
            )
        }
    }

    /// What follows when a hook is over.
    #[verifier::opaque]
    pub open spec fn resumes(self, u: HookUse, ok: bool) -> Step {
        match u {
            HookUse::Started => self.started(ok),
            HookUse::Running => self.running(ok),
            _ => self.concluded(u),
        }
    }

    /// Runs the hook of a use whose outcome matters.
    #[verifier::opaque]
    pub open spec fn consults(self, u: HookUse) -> Step {
        if self.has_hook(u) {
            self.waits_for(u)
        } else {
            self.resumes(u, true)
        }
    }

    /// The hook that ran is over.
    pub open spec fn hook_finished(self, u: HookUse, res: HookResult) -> Step {
        let async_ = match self.hooks.at(ProcModel::event_of(u)) {
            Some(def) => def.async_,
            None => false,
        };
        let (ok, code) = hook_outcome(res, async_);
        self.resumes(u, ok).after(
            self.hook_report(ProcModel::event_of(u), TaskReport::TaskStopped(code)),
        )
    }

    /// The process was spawned, or could not be.
    pub open spec fn spawned(self, pid: Option<u32>) -> Step {
        let idle = ProcModel { phase: Phase::Idle, ..self };
        match pid {
            None => ProcModel { inst: ProcState::Absent, health: None, ..idle }.acts(
                only_if(self.health is Some, Action::StopChecks),
            ),
            Some(pid) => {
                let fresh = ProcModel {
                    inst: ProcState::Present(Inst { pid, exit_code: None, stdout_eof: false }),
                    reported_running: false,
                    health: if self.healthchecks.len() > 0 {
                        Some(HealthModel::fresh(self.healthchecks))
                    } else {
                        None
                    },
                    ..idle
                };
                fresh.acts(
                    only_if(self.health is Some, Action::StopChecks) + only_if(
                        self.healthchecks.len() > 0,
                        Action::StartChecks,
                    ),
                )
            },
        }
    }

    pub open spec fn stops(self) -> Seq<Action> {
        match self.stop_signal {
            StopSignal::SIGINT => only_if(
                self.inst is Present,
                Action::Signal(Signal::Interrupt),
            ),
            StopSignal::SIGTERM => only_if(
                self.inst is Present,
                Action::Signal(Signal::Terminate),
            ),
            StopSignal::SIGKILL => only_if(self.inst is Present, Action::Signal(Signal::Kill)),
            StopSignal::SendKeys(_) => only_if(self.inst.up(), Action::TypeStopKeys),
            StopSignal::HardKill => only_if(self.inst.up(), Action::Kill),
            StopSignal::Cmd(_) => seq![Action::RunStopCmd],
        }
    }

    pub open spec fn told(self, msg: ProcMsg) -> Step {
        match msg {
            ProcMsg::SendKey(key) => self.acts(only_if(self.inst.up(), Action::SendKey(key))),
            ProcMsg::SendMouse(event) => self.acts(
                only_if(self.inst is Present, Action::SendMouse(event)),
            ),
            ProcMsg::ScrollUp => self.acts(
                seq![Action::ScrollUp((self.size.height / 2) as usize)],
            ),
            ProcMsg::ScrollDown => self.acts(
                seq![Action::ScrollDown((self.size.height / 2) as usize)],
            ),
            ProcMsg::ScrollUpLines { n } => self.acts(seq![Action::ScrollUp(n)]),
            ProcMsg::ScrollDownLines { n } => self.acts(seq![Action::ScrollDown(n)]),
            ProcMsg::RerunHook(event) => self.notifies(HookUse::Rerun(event)),
            ProcMsg::RerunCheck(i) => self.acts(
                only_if(i < self.healthchecks.len(), Action::RerunCheck(i)),
            ),
        }
    }

    pub open spec fn exited(self, code: u32) -> Step {
        ProcModel { health: None, ..self }.notifies(HookUse::Stopped(code)).after(
            only_if(self.health is Some, Action::StopChecks),
        )
    }

    /// The output of the process has ended.
    pub open spec fn ended(self, unknown: u32) -> Step {
        match self.inst {
            ProcState::Absent => self.acts(Seq::empty()),
            ProcState::Present(inst) => {
                let next = ProcModel {
                    inst: ProcState::Present(Inst { stdout_eof: true, ..inst }),
                    ..self
                };
                next.acts(
                    only_if(
                        !next.inst.up(),
                        report(
                            TaskReport::TaskStopped(
                                match inst.exit_code {
                                    Some(code) => code,
                                    None => unknown,
                                },
                            ),
                        ),
                    ),
                )
            },
        }
    }

    pub open spec fn checked(self, e: HealthEvent) -> Step {
        match self.health {
            None => self.acts(Seq::empty()),
            Some(h) => {
                let (next, outcome) = h.after(e);
                ProcModel { health: Some(next), ..self }.health_changed(outcome)
            },
        }
    }

    pub open spec fn health_changed(self, outcome: AggregateOutcome) -> Step {
        match outcome {
            AggregateOutcome::BecameHealthy => self.consults(HookUse::Running),
            AggregateOutcome::BecameUnhealthy => self.notifies(HookUse::Unhealthy).after(
                seq![status(TaskStatus::Unhealthy)],
            ),
            AggregateOutcome::Noop => self.acts(Seq::empty()),
        }
    }

    pub open spec fn responds_idle(self, event: Event) -> Step {
        match event {
            Event::Start => self.starts(),
            Event::Stop => self.acts(self.stops()),
            Event::Kill => self.acts(only_if(self.inst.up(), Action::Kill)),
            Event::Msg(msg) => self.told(msg),
            Event::Screen(cmd) => self.acts(seq![Action::Screen(cmd)]),
            Event::Internal(ProcEvent::Exited(code)) => self.exited(code),
            Event::Internal(ProcEvent::Started) => self.consults(HookUse::Started),
            Event::Read(n) => if n == 0 {
                self.ended(CODE_AFTER_END)
            } else {
                self.acts(only_if(self.inst is Present, Action::ShowOutput(n)))
            },
            Event::ReadError => self.ended(CODE_AFTER_READ_ERROR),
            Event::Health(e) => self.checked(e),
            _ => self.acts(Seq::empty()),
        }
    }

    /// What the process does in response to an event.
    pub open spec fn step(self, event: Event) -> Step {
        match (self.phase, event) {
            (Phase::Spawning, Event::Spawned(pid)) => self.spawned(pid),
            (Phase::Hook(u), Event::HookFinished(res)) => self.hook_finished(u, res),
            (Phase::Idle, event) => self.responds_idle(event),
            _ => self.acts(Seq::empty()),
        }
    }
}

/// `step` was taken: its actions were appended and its state reached.
pub open spec fn took(
    before: Seq<Action>,
    after: Seq<Action>,
    state: ProcModel,
    step: Step,
) -> bool {
    after == before + step.actions && state == step.state
}

fn push_if(cond: bool, action: Action, out: &mut Vec<Action>)
    ensures
        final(out)@ == old(out)@ + only_if(cond, action),
{
    if cond {
        out.push(action);
    }
    proof {
        assert(out@ =~= old(out)@ + only_if(cond, action));
    }
}

impl Proc {
    /// A process record; the process is spawned at once if that is wanted.
    pub fn new(
        id: TaskId,
        size: Size,
        stop_signal: StopSignal,
        healthchecks: Vec<HealthCheckDef>,
        hooks: HookSet,
        hook_task_ids: HookMap<TaskId>,
        autostart: bool,
    ) -> (r: (Self, Vec<Action>))
        ensures
            r.0@ == (ProcModel {
                id,
                size,
                stop_signal,
                healthchecks: check_views(healthchecks@),
                hooks: hooks@,
                hook_task_ids,
                inst: ProcState::Absent,
                phase: if autostart {
                    Phase::Spawning
                } else {
                    Phase::Idle
                },
                health: None,
                reported_running: false,
            }),
            r.1@ == only_if(autostart, Action::Spawn),
    {
        let proc = Proc {
            id,
            size,
            stop_signal,
            healthchecks,
            hooks,
            hook_task_ids,
            inst: ProcState::Absent,
            phase: if autostart {
                Phase::Spawning
            } else {
                Phase::Idle
            },
            health: None,
            reported_running: false,
        };
        let mut out: Vec<Action> = Vec::new();
        push_if(autostart, Action::Spawn, &mut out);
        proof {
            assert(out@ =~= only_if(autostart, Action::Spawn));
        }
        (proc, out)
    }

    pub fn has_healthchecks(&self) -> (r: bool)
        ensures
            r == (self@.healthchecks.len() > 0),
    {
        self.healthchecks.len() > 0
    }

    /// The supervisor of the checks, if the process that runs now has one.
    pub fn take_next_health_outcome(&mut self) -> (r: Option<&mut HealthRunner>)
        ensures
            match r {
                Some(h) => {
                    &&& old(self).health == Some(*h)
                    &&& *final(self) == (Proc { health: Some(*final(h)), ..*old(self) })
                },
                None => old(self).health is None && *final(self) == *old(self),
            },
    {
        match &mut self.health {
            Some(h) => Some(h),
            None => None,
        }
    }

    pub fn is_up(&self) -> (r: bool)
        ensures
            r == self@.inst.up(),
    {
        match self.inst {
            ProcState::Present(inst) => inst.exit_code.is_none() || !inst.stdout_eof,
            ProcState::Absent => false,
        }
    }

    pub fn exit_code(&self) -> (r: Option<u32>)
        ensures
            r == self@.inst.code(),
    {
        match self.inst {
            ProcState::Present(inst) => inst.exit_code,
            ProcState::Absent => None,
        }
    }

    /// The terminal was resized.
    pub fn resize(&mut self, size: Size)
        ensures
            final(self)@ == (ProcModel { size, ..old(self)@ }),
    {
        self.size = size;
    }

    fn is_present(&self) -> (r: bool)
        ensures
            r == (self@.inst is Present),
    {
        match self.inst {
            ProcState::Present(_) => true,
            ProcState::Absent => false,
        }
    }

    fn event_of(u: HookUse) -> (r: HookEvent)
        ensures
            r == ProcModel::event_of(u),
    {
        match u {
            HookUse::Started => HookEvent::Started,
            HookUse::FailedStart | HookUse::FailedRunning => HookEvent::Failed,
            HookUse::Running => HookEvent::Running,
            HookUse::Unhealthy => HookEvent::Unhealthy,
            HookUse::Stopped(_) => HookEvent::Stopped,
            HookUse::Rerun(event) => event,
        }
    }

    fn report_hook(&self, event: HookEvent, r: TaskReport, out: &mut Vec<Action>)
        ensures
            final(out)@ == old(out)@ + self@.hook_report(event, r),
    {
        match self.hook_task_ids.get(event) {
            Some(id) => {
                out.push(Action::ReportFor(id, r));
            },
            None => {},
        }
        proof {
            assert(out@ =~= old(out)@ + self@.hook_report(event, r));
        }
    }

    fn wait_for(&mut self, u: HookUse, out: &mut Vec<Action>)
        ensures
            took(old(out)@, final(out)@, final(self)@, old(self)@.waits_for(u)),
    {
        proof {
            reveal(ProcModel::waits_for);
        }
        let event = Proc::event_of(u);
        self.report_hook(event, TaskReport::TaskStarted, out);
        out.push(Action::RunHook(event));
        self.phase = Phase::Hook(u);
        proof {
            assert(out@ =~= old(out)@ + old(self)@.waits_for(u).actions);
        }
    }

    fn has_hook(&self, u: HookUse) -> (r: bool)
        ensures
            r == self@.has_hook(u),
    {
        self.hooks.get(Proc::event_of(u)).is_some()
    }

    /// Notes the exit code of the process.
    pub fn handle_exited(&mut self, code: u32, out: &mut Vec<Action>)
        ensures
            took(old(out)@, final(out)@, final(self)@, old(self)@.noted_exit(code)),
    {
        match self.inst {
            ProcState::Absent => {},
            ProcState::Present(inst) => {
                let mut inst = inst;
                inst.exit_code = Some(code);
                self.inst = ProcState::Present(inst);
                out.push(Action::Reap);
            },
        }
        proof {
            assert(out@ =~= old(out)@ + old(self)@.noted_exit(code).actions);
        }
    }

    fn conclude(&mut self, u: HookUse, out: &mut Vec<Action>)
        ensures
            took(old(out)@, final(out)@, final(self)@, old(self)@.concluded(u)),
    {
        proof {
            reveal(ProcModel::concluded);
        }
        self.phase = Phase::Idle;
        match u {
            HookUse::FailedStart => {
                self.kill(out);
            },
            HookUse::FailedRunning => {
                out.push(Action::Report(TaskReport::TaskStatusChanged(TaskStatus::Unhealthy)));
            },
            HookUse::Stopped(code) => {
                self.handle_exited(code, out);
                push_if(!self.is_up(), Action::Report(TaskReport::TaskStopped(code)), out);
            },
            _ => {},
        }
        proof {
            assert(out@ =~= old(out)@ + old(self)@.concluded(u).actions);
        }
    }

    fn notify(&mut self, u: HookUse, out: &mut Vec<Action>)
        ensures
            took(old(out)@, final(out)@, final(self)@, old(self)@.notifies(u)),
    {
        proof {
            reveal(ProcModel::notifies);
        }
        if self.has_hook(u) {
            self.wait_for(u, out);
        } else {
            self.conclude(u, out);
        }
    }

    fn on_started(&mut self, ok: bool, out: &mut Vec<Action>)
        ensures
            took(old(out)@, final(out)@, final(self)@, old(self)@.started(ok)),
    {
        proof {
            reveal(ProcModel::started);
        }
        if !ok {
            self.notify(HookUse::FailedStart, out);
            return;
        }
        if !self.has_healthchecks() {
            if self.has_hook(HookUse::Running) {
                self.wait_for(HookUse::Running, out);
            } else {
                self.on_running(true, out);
            }
            return;
        }
        self.phase = Phase::Idle;
        out.push(Action::Report(TaskReport::TaskStatusChanged(TaskStatus::Starting)));
        proof {
            assert(out@ =~= old(out)@ + old(self)@.started(ok).actions);
        }
    }

    fn on_running(&mut self, ok: bool, out: &mut Vec<Action>)
        ensures
            took(old(out)@, final(out)@, final(self)@, old(self)@.running(ok)),
    {
        proof {
            reveal(ProcModel::running);
        }
        if !ok {
            self.notify(HookUse::FailedRunning, out);
            return;
        }
        self.phase = Phase::Idle;
        if self.reported_running {
            out.push(Action::Report(TaskReport::TaskStatusChanged(TaskStatus::Running)));
        } else {
            out.push(Action::Report(TaskReport::TaskStarted));
            self.reported_running = true;
        }
        proof {
            assert(out@ =~= old(out)@ + old(self)@.running(ok).actions);
        }
    }

    fn resume(&mut self, u: HookUse, ok: bool, out: &mut Vec<Action>)
        ensures
            took(old(out)@, final(out)@, final(self)@, old(self)@.resumes(u, ok)),
    {
        proof {
            reveal(ProcModel::resumes);
        }
        match u {
            HookUse::Started => self.on_started(ok, out),
            HookUse::Running => self.on_running(ok, out),
            _ => self.conclude(u, out),
        }
    }

    fn consult(&mut self, u: HookUse, out: &mut Vec<Action>)
        ensures
            took(old(out)@, final(out)@, final(self)@, old(self)@.consults(u)),
    {
        proof {
            reveal(ProcModel::consults);
        }
        if self.has_hook(u) {
            self.wait_for(u, out);
        } else {
            self.resume(u, true, out);
        }
    }

    fn on_hook_finished(&mut self, u: HookUse, res: HookResult, out: &mut Vec<Action>)
        ensures
            took(old(out)@, final(out)@, final(self)@, old(self)@.hook_finished(u, res)),
    {
        let event = Proc::event_of(u);
        let async_ = match self.hooks.get(event) {
            Some(def) => def.async_,
            None => false,
        };
        let (ok, code) = conclude_hook(&res, async_);
        self.report_hook(event, TaskReport::TaskStopped(code), out);
        self.resume(u, ok, out);
        proof {
            assert(out@ =~= old(out)@ + old(self)@.hook_finished(u, res).actions);
        }
    }

    fn on_spawned(&mut self, pid: Option<u32>, out: &mut Vec<Action>)
        ensures
            took(old(out)@, final(out)@, final(self)@, old(self)@.spawned(pid)),
    {
        self.phase = Phase::Idle;
        push_if(self.health.is_some(), Action::StopChecks, out);
        match pid {
            None => {
                self.inst = ProcState::Absent;
                self.health = None;
            },
            Some(pid) => {
                self.inst = ProcState::Present(Inst { pid, exit_code: None, stdout_eof: false });
                self.reset_health_state(out);
            },
        }
        proof {
            assert(out@ =~= old(out)@ + old(self)@.spawned(pid).actions);
        }
    }

    /// Forgets the health of the process before this one.
    fn reset_health_state(&mut self, out: &mut Vec<Action>)
        ensures
            final(self)@ == (ProcModel {
                reported_running: false,
                health: if old(self)@.healthchecks.len() > 0 {
                    Some(HealthModel::fresh(old(self)@.healthchecks))
                } else {
                    None
                },
                ..old(self)@
            }),
            final(out)@ == old(out)@ + only_if(
                old(self)@.healthchecks.len() > 0,
                Action::StartChecks,
            ),
    {
        self.reported_running = false;
        push_if(self.has_healthchecks(), Action::StartChecks, out);
        if self.has_healthchecks() {
            self.health = Some(HealthRunner::new(self.healthchecks.as_slice()));
        } else {
            self.health = None;
        }
    }

    /// Spawns the process unless it is up.
    pub fn start(&mut self, out: &mut Vec<Action>)
        ensures
            took(old(out)@, final(out)@, final(self)@, old(self)@.starts()),
    {
        if !self.is_up() {
            self.inst = ProcState::Absent;
            self.phase = Phase::Spawning;
            out.push(Action::Spawn);
        }
        proof {
            assert(out@ =~= old(out)@ + old(self)@.starts().actions);
        }
    }

    pub fn kill(&self, out: &mut Vec<Action>)
        ensures
            final(out)@ == old(out)@ + only_if(self@.inst.up(), Action::Kill),
    {
        push_if(self.is_up(), Action::Kill, out);
    }

    /// Stops the process the way it is configured.
    pub fn stop(&self, out: &mut Vec<Action>)
        ensures
            final(out)@ == old(out)@ + self@.stops(),
    {
        match &self.stop_signal {
            StopSignal::SIGINT => push_if(
                self.is_present(),
                Action::Signal(Signal::Interrupt),
                out,
            ),
            StopSignal::SIGTERM => push_if(
                self.is_present(),
                Action::Signal(Signal::Terminate),
                out,
            ),
            StopSignal::SIGKILL => push_if(self.is_present(), Action::Signal(Signal::Kill), out),
            StopSignal::SendKeys(_) => push_if(self.is_up(), Action::TypeStopKeys, out),
            StopSignal::HardKill => self.kill(out),
            StopSignal::Cmd(_) => push_if(true, Action::RunStopCmd, out),
        }
    }

    pub fn send_key(&self, key: Key, out: &mut Vec<Action>)
        ensures
            final(out)@ == old(out)@ + only_if(self@.inst.up(), Action::SendKey(key)),
    {
        push_if(self.is_up(), Action::SendKey(key), out);
    }

    /// Sends bytes to a process that is up; a view that is scrolled up goes
    /// back to the end first.
    pub fn write_all(&self, scrollback: usize, bytes: Vec<u8>, out: &mut Vec<Action>)
        ensures
            final(out)@ == old(out)@ + (if self@.inst.up() {
                only_if(scrollback > 0, Action::ScrollToEnd).push(Action::Write(bytes))
            } else {
                Seq::empty()
            }),
    {
        if self.is_up() {
            push_if(scrollback > 0, Action::ScrollToEnd, out);
            out.push(Action::Write(bytes));
        }
        proof {
            assert(out@ =~= old(out)@ + (if self@.inst.up() {
                only_if(scrollback > 0, Action::ScrollToEnd).push(Action::Write(bytes))
            } else {
                Seq::empty()
            }));
        }
    }

    pub fn handle_mouse(&self, event: MouseEvent, out: &mut Vec<Action>)
        ensures
            final(out)@ == old(out)@ + only_if(self@.inst is Present, Action::SendMouse(event)),
    {
        push_if(self.is_present(), Action::SendMouse(event), out);
    }

    pub fn scroll_up_lines(&self, n: usize, out: &mut Vec<Action>)
        ensures
            final(out)@ == old(out)@.push(Action::ScrollUp(n)),
    {
        out.push(Action::ScrollUp(n));
    }

    pub fn scroll_down_lines(&self, n: usize, out: &mut Vec<Action>)
        ensures
            final(out)@ == old(out)@.push(Action::ScrollDown(n)),
    {
        out.push(Action::ScrollDown(n));
    }

    pub fn scroll_half_screen_up(&self, out: &mut Vec<Action>)
        ensures
            final(out)@ == old(out)@.push(Action::ScrollUp((self@.size.height / 2) as usize)),
    {
        self.scroll_up_lines((self.size.height / 2) as usize, out);
    }

    pub fn scroll_half_screen_down(&self, out: &mut Vec<Action>)
        ensures
            final(out)@ == old(out)@.push(Action::ScrollDown((self@.size.height / 2) as usize)),
    {
        self.scroll_down_lines((self.size.height / 2) as usize, out);
    }

    pub fn handle_msg(&mut self, msg: ProcMsg, out: &mut Vec<Action>)
        ensures
            took(old(out)@, final(out)@, final(self)@, old(self)@.told(msg)),
    {
        match msg {
            ProcMsg::SendKey(key) => self.send_key(key, out),
            ProcMsg::SendMouse(event) => self.handle_mouse(event, out),
            ProcMsg::ScrollUp => self.scroll_half_screen_up(out),
            ProcMsg::ScrollDown => self.scroll_half_screen_down(out),
            ProcMsg::ScrollUpLines { n } => self.scroll_up_lines(n, out),
            ProcMsg::ScrollDownLines { n } => self.scroll_down_lines(n, out),
            ProcMsg::RerunHook(event) => self.notify(HookUse::Rerun(event), out),
            ProcMsg::RerunCheck(i) => push_if(
                i < self.healthchecks.len(),
                Action::RerunCheck(i),
                out,
            ),
        }
        proof {
            assert(out@ =~= old(out)@ + old(self)@.told(msg).actions);
        }
    }

    fn on_exited(&mut self, code: u32, out: &mut Vec<Action>)
        ensures
            took(old(out)@, final(out)@, final(self)@, old(self)@.exited(code)),
    {
        push_if(self.health.is_some(), Action::StopChecks, out);
        self.health = None;
        self.notify(HookUse::Stopped(code), out);
        proof {
            assert(out@ =~= old(out)@ + old(self)@.exited(code).actions);
        }
    }

    fn on_end(&mut self, unknown: u32, out: &mut Vec<Action>)
        ensures
            took(old(out)@, final(out)@, final(self)@, old(self)@.ended(unknown)),
    {
        match self.inst {
            ProcState::Absent => {
                proof {
                    assert(out@ =~= old(out)@ + Seq::<Action>::empty());
                }
            },
            ProcState::Present(inst) => {
                let mut inst = inst;
                inst.stdout_eof = true;
                self.inst = ProcState::Present(inst);
                let code = match self.exit_code() {
                    Some(code) => code,
                    None => unknown,
                };
                push_if(!self.is_up(), Action::Report(TaskReport::TaskStopped(code)), out);
            },
        }
    }

    fn on_checked(&mut self, e: HealthEvent, out: &mut Vec<Action>)
        ensures
            took(old(out)@, final(out)@, final(self)@, old(self)@.checked(e)),
    {
        match self.health.take() {
            None => {
                proof {
                    assert(out@ =~= old(out)@ + Seq::<Action>::empty());
                }
            },
            Some(runner) => {
                let mut runner = runner;
                let outcome = runner.apply(e);
                self.health = Some(runner);
                self.on_health(outcome, out);
            },
        }
    }

    fn on_health(&mut self, outcome: AggregateOutcome, out: &mut Vec<Action>)
        ensures
            took(old(out)@, final(out)@, final(self)@, old(self)@.health_changed(outcome)),
    {
        match outcome {
            AggregateOutcome::BecameHealthy => self.consult(HookUse::Running, out),
            AggregateOutcome::BecameUnhealthy => {
                out.push(Action::Report(TaskReport::TaskStatusChanged(TaskStatus::Unhealthy)));
                self.notify(HookUse::Unhealthy, out);
            },
            AggregateOutcome::Noop => {},
        }
        proof {
            assert(out@ =~= old(out)@ + old(self)@.health_changed(outcome).actions);
        }
    }

    fn respond_idle(&mut self, event: Event, out: &mut Vec<Action>)
        ensures
            took(old(out)@, final(out)@, final(self)@, old(self)@.responds_idle(event)),
    {
        match event {
            Event::Start => self.start(out),
            Event::Stop => self.stop(out),
            Event::Kill => self.kill(out),
            Event::Msg(msg) => self.handle_msg(msg, out),
            Event::Screen(cmd) => push_if(true, Action::Screen(cmd), out),
            Event::Internal(ProcEvent::Exited(code)) => self.on_exited(code, out),
            Event::Internal(ProcEvent::Started) => self.consult(HookUse::Started, out),
            Event::Read(n) => {
                if n == 0 {
                    self.on_end(CODE_AFTER_END, out);
                } else {
                    push_if(self.is_present(), Action::ShowOutput(n), out);
                }
            },
            Event::ReadError => self.on_end(CODE_AFTER_READ_ERROR, out),
            Event::Health(e) => self.on_checked(e, out),
            _ => {
                proof {
                    assert(out@ =~= old(out)@ + Seq::<Action>::empty());
                }
            },
        }
    }

    fn respond(&mut self, event: Event, out: &mut Vec<Action>)
        ensures
            took(old(out)@, final(out)@, final(self)@, old(self)@.step(event)),
    {
        match (self.phase, event) {
            (Phase::Spawning, Event::Spawned(pid)) => self.on_spawned(pid, out),
            (Phase::Hook(u), Event::HookFinished(res)) => self.on_hook_finished(u, res, out),
            (Phase::Idle, event) => self.respond_idle(event, out),
            _ => {
                proof {
                    assert(out@ =~= old(out)@ + Seq::<Action>::empty());
                }
            },
        }
    }

    /// Handles an event: what to do about it, in order.
    pub fn handle(&mut self, event: Event) -> (actions: Vec<Action>)
        ensures
            took(Seq::empty(), actions@, final(self)@, old(self)@.step(event)),
    {
        let mut out: Vec<Action> = Vec::new();
        self.respond(event, &mut out);
        out
    }
}

/// What is sent to a program for a mouse event: it is told only of the kinds
/// that it asked for.
pub fn mouse_is_sent(mode: MouseProtocolMode, event: &MouseEvent) -> (r: bool)
    ensures
        r == mode.reports(event.kind),
{
    mode.wants(event.kind)
}

} // verus!
