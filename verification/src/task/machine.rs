//! The lifecycle of a process task: what it does in response to commands, to
//! the exit and the output of its process, and to its health checks and hooks.
//!
//! The task handles one event at a time. Starting the process and running a
//! hook take time: the task then waits for the outcome before anything else.

use crate::config::health::{
    check_views, HealthCheckDef, HealthCheckModel, HookEvent, HookSet, HookSetModel,
};
use crate::config::vars::Vars;
use crate::kernel::screen_cmd::TaskScreenCmd;
use crate::kernel::task::{TaskId, TaskStatus};
use crate::task::health::{
    plan_checks, AggregateOutcome, CheckPlan, HealthEvent, HealthModel,
    HealthRunner,
};
use crate::task::hook_map::HookMap;
use crate::task::hooks::{hook_verdict, judge_hook, HookResult, HOOK_IO_ERROR};
use crate::term::key::Key;
use crate::term::screen::SharedVt;
use vstd::prelude::*;

verus! {

/// A request to run a hook or a check by hand.
#[derive(Clone, Copy, Debug, PartialEq, Eq, Structural)]
pub enum ProcMsg {
    RerunHook(HookEvent),
    RerunCheck(usize),
}

/// What the system is told about a task.
#[derive(Clone, Copy, Debug, PartialEq, Eq, Structural)]
pub enum TaskReport {
    TaskStarted,
    TaskStopped(u32),
    TaskStatusChanged(TaskStatus),
}

/// What the outcome of the hook that runs now is for.
#[derive(Clone, Copy, Debug, PartialEq, Eq, Structural)]
pub enum HookUse {
    /// The process was spawned.
    Started,
    /// The started hook failed.
    FailedStart,
    /// The process is ready: it has no checks, or all of them pass.
    Running,
    /// The running hook failed.
    FailedRunning,
    Unhealthy,
    /// The process exited.
    Stopped,
}

/// What the task waits for.
#[derive(Clone, Copy, Debug, PartialEq, Eq, Structural)]
pub enum Phase {
    /// The next event.
    Idle,
    /// The process that is being spawned.
    Spawning,
    /// The hook that runs.
    Hook(HookUse),
}

pub enum Event {
    Start,
    Stop,
    Kill,
    Exited(u32),
    Screen(TaskScreenCmd),
    Input(Key),
    Msg(ProcMsg),
    Duplicate(Option<String>),
    /// Output of the process; none is the end of it.
    Read(usize),
    ReadError,
    Health(HealthEvent),
    /// The process was spawned under this id, or could not be.
    Spawned(Option<u32>),
    HookFinished(HookResult),
}

pub enum Action {
    Report(TaskReport),
    /// A report on behalf of the task of a hook.
    ReportFor(TaskId, TaskReport),
    SpawnProcess,
    UpdateLog(u32),
    RunHook(HookEvent),
    StartChecks,
    StopChecks,
    /// Stop the process the way it is configured.
    StopProcess,
    KillProcess,
    /// Let the process know that it exited.
    ReapProcess,
    DropProcess,
    Screen(TaskScreenCmd),
    SendKey(Key),
    ShowOutput(usize),
    RerunHook(HookEvent),
    RerunCheck(usize),
    Duplicate(Option<String>),
}

/// The exit code that is reported when a process could not be spawned.
pub const SPAWN_FAILED: u32 = 255;

pub struct ProcTask {
    pub hooks: HookSet,
    pub hook_task_ids: HookMap<TaskId>,
    pub healthchecks: Vec<HealthCheckDef>,
    pub oneshot: bool,
    pub phase: Phase,
    /// There is a process.
    pub process: bool,
    /// Its output has ended.
    pub stdout_eof: bool,
    pub exit_code: Option<u32>,
    pub health: Option<HealthRunner>,
    /// The task was reported as started for this process.
    pub reported_running: bool,
}

pub struct TaskModel {
    pub hooks: HookSetModel,
    pub hook_task_ids: HookMap<TaskId>,
    pub healthchecks: Seq<HealthCheckModel>,
    pub oneshot: bool,
    pub phase: Phase,
    pub process: bool,
    pub stdout_eof: bool,
    pub exit_code: Option<u32>,
    pub health: Option<HealthModel>,
    pub reported_running: bool,
}

pub open spec fn health_view(health: Option<HealthRunner>) -> Option<HealthModel> {
    match health {
        Some(h) => Some(h@),
        None => None,
    }
}

impl View for ProcTask {
    type V = TaskModel;

    open spec fn view(&self) -> TaskModel {
        TaskModel {
            hooks: self.hooks@,
            hook_task_ids: self.hook_task_ids,
            healthchecks: check_views(self.healthchecks@),
            oneshot: self.oneshot,
            phase: self.phase,
            process: self.process,
            stdout_eof: self.stdout_eof,
            exit_code: self.exit_code,
            health: health_view(self.health),
            reported_running: self.reported_running,
        }
    }
}

/// A state and the actions that lead to it.
pub struct Step {
    pub state: TaskModel,
    pub actions: Seq<Action>,
}

pub open spec fn report(r: TaskReport) -> Action {
    Action::Report(r)
}

pub open spec fn status(s: TaskStatus) -> Action {
    Action::Report(TaskReport::TaskStatusChanged(s))
}

impl TaskModel {
    /// A report about the task of a hook, if it has one.
    pub open spec fn hook_report(self, event: HookEvent, r: TaskReport) -> Seq<Action> {
        match self.hook_task_ids.at(event) {
            Some(id) => seq![Action::ReportFor(id, r)],
            None => Seq::empty(),
        }
    }

    pub open spec fn acts(self, actions: Seq<Action>) -> Step {
        Step { state: self, actions }
    }

    /// The event of a hook use.
    pub open spec fn event_of(u: HookUse) -> HookEvent {
        match u {
            HookUse::Started => HookEvent::Started,
            HookUse::FailedStart => HookEvent::Failed,
            HookUse::Running => HookEvent::Running,
            HookUse::FailedRunning => HookEvent::Failed,
            HookUse::Unhealthy => HookEvent::Unhealthy,
            HookUse::Stopped => HookEvent::Stopped,
        }
    }

    /// The task waits for a hook.
    #[verifier::opaque]
    pub open spec fn waits_for(self, u: HookUse) -> Step {
        TaskModel { phase: Phase::Hook(u), ..self }.acts(
            self.hook_report(TaskModel::event_of(u), TaskReport::TaskStarted).push(
                Action::RunHook(TaskModel::event_of(u)),
            ),
        )
    }

    pub open spec fn has_hook(self, u: HookUse) -> bool {
        self.hooks.at(TaskModel::event_of(u)) is Some
    }

    /// What follows when a hook that decides nothing is over.
    #[verifier::opaque]
    pub open spec fn concluded(self, u: HookUse) -> Step {
        let idle = TaskModel { phase: Phase::Idle, ..self };
        match u {
            HookUse::FailedStart => idle.acts(
                if self.process {
                    seq![Action::KillProcess]
                } else {
                    Seq::empty()
                },
            ),
            HookUse::FailedRunning => idle.acts(seq![status(TaskStatus::Unhealthy)]),
            HookUse::Stopped => idle.acts(
                if self.process {
                    seq![Action::ReapProcess]
                } else {
                    Seq::empty()
                },
            ),
            _ => idle.acts(Seq::empty()),
        }
    }

    /// Runs the hook of a use whose outcome decides nothing.
    #[verifier::opaque]
    pub open spec fn notifies(self, u: HookUse) -> Step {
        if self.has_hook(u) {
            self.waits_for(u)
        } else {
            self.concluded(u)
        }
    }

    /// The started hook is over. A one-shot is never ready before it is over,
    /// so it is not checked; any other process without checks is ready now.
    #[verifier::opaque]
    pub open spec fn started(self, ok: bool) -> Step {
        let idle = TaskModel { phase: Phase::Idle, ..self };
        if !ok {
            self.notifies(HookUse::FailedStart)
        } else if self.oneshot {
            idle.acts(seq![status(TaskStatus::Starting)])
        } else if self.healthchecks.len() > 0 {
            TaskModel { health: Some(HealthModel::fresh(self.healthchecks)), ..idle }.acts(
                seq![status(TaskStatus::Starting), Action::StartChecks],
            )
        } else if self.has_hook(HookUse::Running) {
            self.waits_for(HookUse::Running)
        } else {
            self.running(true)
        }
    }

    /// The running hook is over.
    #[verifier::opaque]
    pub open spec fn running(self, ok: bool) -> Step {
        let idle = TaskModel { phase: Phase::Idle, ..self };
        if !ok {
            self.notifies(HookUse::FailedRunning)
        } else if self.reported_running {
            idle.acts(seq![status(TaskStatus::Running)])
        } else {
            TaskModel { reported_running: true, ..idle }.acts(
                seq![report(TaskReport::TaskStarted)],
            )
        }
    }

    /// Runs the hook of a use whose outcome matters.
    #[verifier::opaque]
    pub open spec fn consults(self, u: HookUse) -> Step {
        if self.has_hook(u) {
            self.waits_for(u)
        } else {
            self.resumes(u, true)
        }
    }

    /// What follows when a hook is over.
    #[verifier::opaque]
    pub open spec fn resumes(self, u: HookUse, ok: bool) -> Step {
        match u {
            HookUse::Started => self.started(ok),
            HookUse::Running => self.running(ok),
            _ => self.concluded(u),
        }
    }

    /// The checks are given up.
    pub open spec fn unchecked(self) -> Step {
        TaskModel { health: None, ..self }.acts(
            if self.health is Some {
                seq![Action::StopChecks]
            } else {
                Seq::empty()
            },
        )
    }

    /// What the health of the process has changed to.
    pub open spec fn health_changed(self, outcome: AggregateOutcome) -> Step {
        match outcome {
            AggregateOutcome::BecameHealthy => self.consults(HookUse::Running),
            AggregateOutcome::BecameUnhealthy => {
                let next = self.notifies(HookUse::Unhealthy);
                next.after(seq![status(TaskStatus::Unhealthy)])
            },
            AggregateOutcome::Noop => self.acts(Seq::empty()),
        }
    }

    /// The process was spawned, or could not be.
    pub open spec fn spawned(self, pid: Option<u32>) -> Step {
        let idle = TaskModel { phase: Phase::Idle, ..self };
        match pid {
            None => idle.acts(seq![report(TaskReport::TaskStopped(SPAWN_FAILED))]),
            Some(pid) => {
                let fresh = TaskModel {
                    process: true,
                    exit_code: None,
                    stdout_eof: false,
                    reported_running: false,
                    ..idle
                };
                fresh.consults(HookUse::Started).after(seq![Action::UpdateLog(pid)])
            },
        }
    }

    /// The hook that ran is over.
    pub open spec fn hook_finished(self, u: HookUse, res: HookResult) -> Step {
        let (ok, code) = hook_verdict(res, HOOK_IO_ERROR);
        self.resumes(u, ok).after(
            self.hook_report(TaskModel::event_of(u), TaskReport::TaskStopped(code)),
        )
    }

    /// The process is to end, at once or the way it is configured.
    pub open spec fn halts(self, at_once: bool) -> Step {
        self.unchecked().then_acts(
            if !self.process {
                Seq::empty()
            } else if at_once {
                seq![Action::KillProcess]
            } else {
                seq![Action::StopProcess]
            },
        )
    }

    /// The process exited.
    pub open spec fn exited(self, code: u32) -> Step {
        let gone = TaskModel { exit_code: Some(code), reported_running: false, ..self }.unchecked();
        gone.state.notifies(HookUse::Stopped).after(gone.actions)
    }

    /// A check has a result.
    pub open spec fn checked(self, e: HealthEvent) -> Step {
        match self.health {
            None => self.acts(Seq::empty()),
            Some(h) => {
                let (next, outcome) = h.after(e);
                TaskModel { health: Some(next), ..self }.health_changed(outcome)
            },
        }
    }

    /// A request that changes nothing about the task.
    pub open spec fn served(self, event: Event) -> Seq<Action> {
        match event {
            Event::Screen(cmd) => seq![Action::Screen(cmd)],
            Event::Input(key) => if self.process {
                seq![Action::SendKey(key)]
            } else {
                Seq::empty()
            },
            Event::Msg(ProcMsg::RerunHook(e)) => if self.hooks.at(e) is Some {
                seq![Action::RerunHook(e)]
            } else {
                Seq::empty()
            },
            Event::Msg(ProcMsg::RerunCheck(i)) => if i < self.healthchecks.len() {
                seq![Action::RerunCheck(i)]
            } else {
                Seq::empty()
            },
            Event::Duplicate(label) => seq![Action::Duplicate(label)],
            _ => Seq::empty(),
        }
    }

    /// What the task does in response to an event that it was waiting for.
    pub open spec fn responds_idle(self, event: Event) -> Step {
        match event {
            Event::Start => if self.process {
                self.acts(Seq::empty())
            } else {
                TaskModel { phase: Phase::Spawning, ..self }.acts(seq![Action::SpawnProcess])
            },
            Event::Stop => self.halts(false),
            Event::Kill => self.halts(true),
            Event::Exited(code) => self.exited(code),
            Event::Read(n) => if n == 0 {
                TaskModel { stdout_eof: true, ..self }.acts(Seq::empty())
            } else {
                self.acts(seq![Action::ShowOutput(n)])
            },
            Event::ReadError => TaskModel { stdout_eof: true, ..self }.acts(Seq::empty()),
            Event::Health(e) => self.checked(e),
            _ => self.acts(self.served(event)),
        }
    }

    /// What the task does in response to an event, apart from noticing that
    /// its process is gone.
    pub open spec fn responds(self, event: Event) -> Step {
        match (self.phase, event) {
            (Phase::Spawning, Event::Spawned(pid)) => self.spawned(pid),
            (Phase::Hook(u), Event::HookFinished(res)) => self.hook_finished(u, res),
            (Phase::Idle, event) => self.responds_idle(event),
            _ => self.acts(Seq::empty()),
        }
    }

    /// The process is over: it exited and its output has ended.
    pub open spec fn is_over(self) -> bool {
        self.phase is Idle && self.process && self.stdout_eof && self.exit_code is Some
    }

    /// How the end of the process is reported: a one-shot that exited with
    /// zero is completed.
    pub open spec fn end_report(self) -> TaskReport {
        if self.oneshot && self.exit_code == Some(0u32) {
            TaskReport::TaskStatusChanged(TaskStatus::Completed)
        } else {
            TaskReport::TaskStopped(self.exit_code->0)
        }
    }

    /// Lets go of a process that is over.
    pub open spec fn settled(self) -> Step {
        if self.is_over() {
            TaskModel { process: false, ..self }.acts(
                seq![Action::DropProcess, report(self.end_report())],
            )
        } else {
            self.acts(Seq::empty())
        }
    }

    /// What the task does in response to an event.
    pub open spec fn step(self, event: Event) -> Step {
        let next = self.responds(event);
        next.state.settled().after(next.actions)
    }
}

impl Step {
    /// The step with `actions` in front.
    pub open spec fn after(self, actions: Seq<Action>) -> Step {
        Step { state: self.state, actions: actions + self.actions }
    }

    pub open spec fn then_acts(self, actions: Seq<Action>) -> Step {
        Step { state: self.state, actions: self.actions + actions }
    }
}

/// `step` was taken: its actions were appended and its state reached.
pub open spec fn took(
    before: Seq<Action>,
    after: Seq<Action>,
    state: TaskModel,
    step: Step,
) -> bool {
    after == before + step.actions && state == step.state
}

impl ProcTask {
    /// A task whose process was not started yet.
    pub fn new(
        hooks: HookSet,
        hook_task_ids: HookMap<TaskId>,
        healthchecks: Vec<HealthCheckDef>,
        oneshot: bool,
    ) -> (r: Self)
        ensures
            r@ == (TaskModel {
                hooks: hooks@,
                hook_task_ids,
                healthchecks: check_views(healthchecks@),
                oneshot,
                phase: Phase::Idle,
                process: false,
                stdout_eof: false,
                exit_code: None,
                health: None,
                reported_running: false,
            }),
    {
        ProcTask {
            hooks,
            hook_task_ids,
            healthchecks,
            oneshot,
            phase: Phase::Idle,
            process: false,
            stdout_eof: false,
            exit_code: None,
            health: None,
            reported_running: false,
        }
    }

    fn event_of(u: HookUse) -> (r: HookEvent)
        ensures
            r == TaskModel::event_of(u),
    {
        match u {
            HookUse::Started => HookEvent::Started,
            HookUse::FailedStart | HookUse::FailedRunning => HookEvent::Failed,
            HookUse::Running => HookEvent::Running,
            HookUse::Unhealthy => HookEvent::Unhealthy,
            HookUse::Stopped => HookEvent::Stopped,
        }
    }

    fn report_hook(&self, event: HookEvent, r: TaskReport, out: &mut Vec<Action>)
        ensures
            final(out)@ == old(out)@ + self@.hook_report(event, r),
    {
        match self.hook_task_ids.get(event) {
            Some(id) => {
                out.push(Action::ReportFor(id, r));
            },
            None => {},
        }
        proof {
            assert(out@ =~= old(out)@ + self@.hook_report(event, r));
        }
    }

    fn wait_for(&mut self, u: HookUse, out: &mut Vec<Action>)
        ensures
            took(old(out)@, final(out)@, final(self)@, old(self)@.waits_for(u)),
    {
        proof {
            reveal(TaskModel::waits_for);
        }
        let event = ProcTask::event_of(u);
        self.report_hook(event, TaskReport::TaskStarted, out);
        out.push(Action::RunHook(event));
        self.phase = Phase::Hook(u);
        proof {
            assert(out@ =~= old(out)@ + old(self)@.waits_for(u).actions);
        }
    }

    fn has_hook(&self, u: HookUse) -> (r: bool)
        ensures
            r == self@.has_hook(u),
    {
        self.hooks.get(ProcTask::event_of(u)).is_some()
    }

    fn conclude(&mut self, u: HookUse, out: &mut Vec<Action>)
        ensures
            took(old(out)@, final(out)@, final(self)@, old(self)@.concluded(u)),
    {
        proof {
            reveal(TaskModel::concluded);
        }
        self.phase = Phase::Idle;
        match u {
            HookUse::FailedStart => {
                if self.process {
                    out.push(Action::KillProcess);
                }
            },
            HookUse::FailedRunning => {
                out.push(Action::Report(TaskReport::TaskStatusChanged(TaskStatus::Unhealthy)));
            },
            HookUse::Stopped => {
                if self.process {
                    out.push(Action::ReapProcess);
                }
            },
            _ => {},
        }
        proof {
            assert(out@ =~= old(out)@ + old(self)@.concluded(u).actions);
        }
    }

    fn notify(&mut self, u: HookUse, out: &mut Vec<Action>)
        ensures
            took(old(out)@, final(out)@, final(self)@, old(self)@.notifies(u)),
    {
        proof {
            reveal(TaskModel::notifies);
        }
        if self.has_hook(u) {
            self.wait_for(u, out);
        } else {
            self.conclude(u, out);
        }
    }

    fn on_started(&mut self, ok: bool, out: &mut Vec<Action>)
        ensures
            took(old(out)@, final(out)@, final(self)@, old(self)@.started(ok)),
    {
        proof {
            reveal(TaskModel::started);
        }
        if !ok {
            self.notify(HookUse::FailedStart, out);
            return;
        }
        if !self.oneshot && self.healthchecks.len() == 0 {
            if self.has_hook(HookUse::Running) {
                self.wait_for(HookUse::Running, out);
            } else {
                self.on_running(true, out);
            }
            return;
        }
        self.phase = Phase::Idle;
        out.push(Action::Report(TaskReport::TaskStatusChanged(TaskStatus::Starting)));
        if !self.oneshot {
            out.push(Action::StartChecks);
            self.health = Some(HealthRunner::new(self.healthchecks.as_slice()));
        }
        proof {
            assert(out@ =~= old(out)@ + old(self)@.started(ok).actions);
        }
    }

    fn on_running(&mut self, ok: bool, out: &mut Vec<Action>)
        ensures
            took(old(out)@, final(out)@, final(self)@, old(self)@.running(ok)),
    {
        proof {
            reveal(TaskModel::running);
        }
        if !ok {
            self.notify(HookUse::FailedRunning, out);
            return;
        }
        self.phase = Phase::Idle;
        if self.reported_running {
            out.push(Action::Report(TaskReport::TaskStatusChanged(TaskStatus::Running)));
        } else {
            out.push(Action::Report(TaskReport::TaskStarted));
            self.reported_running = true;
        }
        proof {
            assert(out@ =~= old(out)@ + old(self)@.running(ok).actions);
        }
    }

    fn resume(&mut self, u: HookUse, ok: bool, out: &mut Vec<Action>)
        ensures
            took(old(out)@, final(out)@, final(self)@, old(self)@.resumes(u, ok)),
    {
        proof {
            reveal(TaskModel::resumes);
        }
        match u {
            HookUse::Started => self.on_started(ok, out),
            HookUse::Running => self.on_running(ok, out),
            _ => self.conclude(u, out),
        }
    }

    fn consult(&mut self, u: HookUse, out: &mut Vec<Action>)
        ensures
            took(old(out)@, final(out)@, final(self)@, old(self)@.consults(u)),
    {
        proof {
            reveal(TaskModel::consults);
        }
        if self.has_hook(u) {
            self.wait_for(u, out);
        } else {
            self.resume(u, true, out);
        }
    }

    fn stop_checks(&mut self, out: &mut Vec<Action>)
        ensures
            took(old(out)@, final(out)@, final(self)@, old(self)@.unchecked()),
    {
        if self.health.is_some() {
            out.push(Action::StopChecks);
        }
        self.health = None;
        proof {
            assert(out@ =~= old(out)@ + old(self)@.unchecked().actions);
        }
    }

    fn on_health(&mut self, outcome: AggregateOutcome, out: &mut Vec<Action>)
        ensures
            took(old(out)@, final(out)@, final(self)@, old(self)@.health_changed(outcome)),
    {
        match outcome {
            AggregateOutcome::BecameHealthy => {
                self.consult(HookUse::Running, out);
            },
            AggregateOutcome::BecameUnhealthy => {
                out.push(Action::Report(TaskReport::TaskStatusChanged(TaskStatus::Unhealthy)));
                self.notify(HookUse::Unhealthy, out);
            },
            AggregateOutcome::Noop => {},
        }
        proof {
            assert(out@ =~= old(out)@ + old(self)@.health_changed(outcome).actions);
        }
    }

    fn on_spawned(&mut self, pid: Option<u32>, out: &mut Vec<Action>)
        ensures
            took(old(out)@, final(out)@, final(self)@, old(self)@.spawned(pid)),
    {
        self.phase = Phase::Idle;
        match pid {
            None => {
                out.push(Action::Report(TaskReport::TaskStopped(SPAWN_FAILED)));
            },
            Some(pid) => {
                self.process = true;
                self.exit_code = None;
                self.stdout_eof = false;
                self.reported_running = false;
                out.push(Action::UpdateLog(pid));
                self.consult(HookUse::Started, out);
            },
        }
        proof {
            assert(out@ =~= old(out)@ + old(self)@.spawned(pid).actions);
        }
    }

    fn on_hook_finished(&mut self, u: HookUse, res: HookResult, out: &mut Vec<Action>)
        ensures
            took(old(out)@, final(out)@, final(self)@, old(self)@.hook_finished(u, res)),
    {
        let (ok, code) = judge_hook(&res, HOOK_IO_ERROR);
        self.report_hook(ProcTask::event_of(u), TaskReport::TaskStopped(code), out);
        self.resume(u, ok, out);
        proof {
            assert(out@ =~= old(out)@ + old(self)@.hook_finished(u, res).actions);
        }
    }

    fn halt(&mut self, at_once: bool, out: &mut Vec<Action>)
        ensures
            took(old(out)@, final(out)@, final(self)@, old(self)@.halts(at_once)),
    {
        self.stop_checks(out);
        if self.process {
            if at_once {
                out.push(Action::KillProcess);
            } else {
                out.push(Action::StopProcess);
            }
        }
        proof {
            assert(out@ =~= old(out)@ + old(self)@.halts(at_once).actions);
        }
    }

    fn on_exited(&mut self, code: u32, out: &mut Vec<Action>)
        ensures
            took(old(out)@, final(out)@, final(self)@, old(self)@.exited(code)),
    {
        self.exit_code = Some(code);
        self.reported_running = false;
        self.stop_checks(out);
        self.notify(HookUse::Stopped, out);
        proof {
            assert(out@ =~= old(out)@ + old(self)@.exited(code).actions);
        }
    }

    fn on_checked(&mut self, e: HealthEvent, out: &mut Vec<Action>)
        ensures
            took(old(out)@, final(out)@, final(self)@, old(self)@.checked(e)),
    {
        match self.health.take() {
            None => {
                proof {
                    assert(out@ =~= old(out)@ + old(self)@.checked(e).actions);
                }
            },
            Some(runner) => {
                let mut runner = runner;
                let outcome = runner.apply(e);
                self.health = Some(runner);
                self.on_health(outcome, out);
            },
        }
    }

    fn serve(&self, event: Event, out: &mut Vec<Action>)
        ensures
            final(out)@ == old(out)@ + self@.served(event),
    {
        match event {
            Event::Screen(cmd) => {
                out.push(Action::Screen(cmd));
            },
            Event::Input(key) => {
                if self.process {
                    out.push(Action::SendKey(key));
                }
            },
            Event::Msg(ProcMsg::RerunHook(e)) => {
                if self.hooks.get(e).is_some() {
                    out.push(Action::RerunHook(e));
                }
            },
            Event::Msg(ProcMsg::RerunCheck(i)) => {
                if i < self.healthchecks.len() {
                    out.push(Action::RerunCheck(i));
                }
            },
            Event::Duplicate(label) => {
                out.push(Action::Duplicate(label));
            },
            _ => {},
        }
        proof {
            assert(out@ =~= old(out)@ + self@.served(event));
        }
    }

    fn respond_idle(&mut self, event: Event, out: &mut Vec<Action>)
        ensures
            took(old(out)@, final(out)@, final(self)@, old(self)@.responds_idle(event)),
    {
        match event {
            Event::Start => {
                if !self.process {
                    out.push(Action::SpawnProcess);
                    self.phase = Phase::Spawning;
                }
                proof {
                    assert(out@ =~= old(out)@ + old(self)@.responds_idle(event).actions);
                }
            },
            Event::Stop => self.halt(false, out),
            Event::Kill => self.halt(true, out),
            Event::Exited(code) => self.on_exited(code, out),
            Event::Read(n) => {
                if n == 0 {
                    self.stdout_eof = true;
                } else {
                    out.push(Action::ShowOutput(n));
                }
                proof {
                    assert(out@ =~= old(out)@ + old(self)@.responds_idle(event).actions);
                }
            },
            Event::ReadError => {
                self.stdout_eof = true;
                proof {
                    assert(out@ =~= old(out)@ + Seq::<Action>::empty());
                }
            },
            Event::Health(e) => self.on_checked(e, out),
            event => self.serve(event, out),
        }
    }

    fn respond(&mut self, event: Event, out: &mut Vec<Action>)
        ensures
            took(old(out)@, final(out)@, final(self)@, old(self)@.responds(event)),
    {
        match (self.phase, event) {
            (Phase::Spawning, Event::Spawned(pid)) => self.on_spawned(pid, out),
            (Phase::Hook(u), Event::HookFinished(res)) => self.on_hook_finished(u, res, out),
            (Phase::Idle, event) => self.respond_idle(event, out),
            _ => {
                proof {
                    assert(out@ =~= old(out)@ + Seq::<Action>::empty());
                }
            },
        }
    }

    /// Handles an event: what to do about it, in order.
    pub fn handle(&mut self, event: Event) -> (actions: Vec<Action>)
        ensures
            took(Seq::empty(), actions@, final(self)@, old(self)@.step(event)),
    {
        let ghost want = self@.step(event);
        let mut out: Vec<Action> = Vec::new();
        self.respond(event, &mut out);
        match (self.phase, self.exit_code) {
            (Phase::Idle, Some(code)) => {
                if self.stdout_eof && self.process {
                    self.process = false;
                    out.push(Action::DropProcess);
                    if self.oneshot && code == 0 {
                        out.push(
                            Action::Report(TaskReport::TaskStatusChanged(TaskStatus::Completed)),
                        );
                    } else {
                        out.push(Action::Report(TaskReport::TaskStopped(code)));
                    }
                }
            },
            _ => {},
        }
        proof {
            assert(out@ =~= Seq::empty() + want.actions);
        }
        out
    }

    /// The checks to run for a process that was just spawned.
    pub fn check_plans(
        &self,
        vars: &Vars,
        out_vts: &[Option<SharedVt>],
        check_task_ids: &[Option<TaskId>],
    ) -> (r: Vec<CheckPlan>)
        requires
            vars.wf(),
        ensures
            r@.len() == self@.healthchecks.len(),
            forall|i: int|
                0 <= i < r@.len() ==> (#[trigger] r@[i]).follows(
                    i,
                    self@.healthchecks[i],
                    vars@,
                    out_vts@,
                    check_task_ids@,
                ),
    {
        plan_checks(self.healthchecks.as_slice(), vars, out_vts, check_task_ids)
    }
}

} // verus!
