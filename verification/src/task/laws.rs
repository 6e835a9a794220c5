//! What holds of every process task, whatever happens to it.

use crate::config::health::HookEvent;
use crate::kernel::task::TaskStatus;
use crate::task::health::{health_invariant_is_kept, HealthEvent, HealthModel};
use crate::task::hooks::{hook_verdict, HookResult, HOOK_IO_ERROR};
use crate::task::machine::{
    report, status, Action, Event, HookUse, Phase, TaskModel, TaskReport, SPAWN_FAILED,
};
use vstd::prelude::*;

verus! {

/// Whether one of the actions is the report `r`.
pub open spec fn reports(actions: Seq<Action>, r: TaskReport) -> bool {
    exists|i: int| 0 <= i < actions.len() && #[trigger] actions[i] == Action::Report(r)
}

impl TaskModel {
    /// There are results of checks only where there are checks. A one-shot is
    /// not checked and has no running hook.
    pub open spec fn wf(self) -> bool {
        &&& self.health matches Some(h) ==> h.wf() && h.checks.len() == self.healthchecks.len()
            && self.healthchecks.len() > 0
        &&& self.oneshot ==> self.health is None && self.phase != Phase::Hook(HookUse::Running)
        &&& self.phase is Spawning ==> !self.process
    }

    /// A process that is ready as soon as it is started.
    pub open spec fn ready_at_once(self) -> bool {
        !self.oneshot && self.healthchecks.len() == 0 && !self.has_hook(HookUse::Running)
    }

    /// The event tells that the process is ready for what depends on it: it
    /// was started, all its checks pass, and the running hook, if there is
    /// one, succeeded.
    pub open spec fn becomes_ready(self, event: Event) -> bool {
        match event {
            Event::Spawned(pid) => self.phase is Spawning && pid is Some && !self.has_hook(
                HookUse::Started,
            ) && self.ready_at_once(),
            Event::Health(e) => self.phase is Idle && !self.has_hook(HookUse::Running)
                && self.health is Some && self.health->0.after(e).1 is BecameHealthy,
            Event::HookFinished(res) => res is Ok && (self.phase == Phase::Hook(HookUse::Running)
                || self.phase == Phase::Hook(HookUse::Started) && self.ready_at_once()),
            _ => false,
        }
    }
}

proof fn lemma_hooks_keep_wf(s: TaskModel, u: HookUse, ok: bool)
    requires
        s.wf(),
        !(s.phase is Spawning),
        u is Running ==> !s.oneshot,
    ensures
        s.notifies(u).state.wf(),
        s.resumes(u, ok).state.wf(),
        s.consults(u).state.wf(),
{
    reveal(TaskModel::waits_for);
    reveal(TaskModel::concluded);
    reveal(TaskModel::notifies);
    reveal(TaskModel::started);
    reveal(TaskModel::running);
    reveal(TaskModel::consults);
    reveal(TaskModel::resumes);
    assert(s.waits_for(u).state.wf());
    assert(s.concluded(u).state.wf());
    assert(s.waits_for(HookUse::FailedStart).state.wf());
    assert(s.concluded(HookUse::FailedStart).state.wf());
    assert(s.waits_for(HookUse::FailedRunning).state.wf());
    assert(s.concluded(HookUse::FailedRunning).state.wf());
    assert(s.running(true).state.wf());
    assert(s.started(true).state.wf()) by {
        let fresh = HealthModel::fresh(s.healthchecks);
        if s.healthchecks.len() > 0 {
            assert(fresh.checks[0].state is Starting);
            assert(fresh.wf());
        }
    }
}

proof fn lemma_response_keeps_wf(s: TaskModel, event: Event)
    requires
        s.wf(),
    ensures
        s.responds(event).state.wf(),
{
    match (s.phase, event) {
        (Phase::Spawning, Event::Spawned(pid)) => {
            let fresh = TaskModel {
                process: true,
                exit_code: None,
                stdout_eof: false,
                reported_running: false,
                phase: Phase::Idle,
                ..s
            };
            assert(fresh.wf());
            lemma_hooks_keep_wf(fresh, HookUse::Started, true);
        },
        (Phase::Hook(u), Event::HookFinished(res)) => {
            lemma_hooks_keep_wf(s, u, hook_verdict(res, HOOK_IO_ERROR).0);
        },
        (Phase::Idle, Event::Exited(code)) => {
            let gone = TaskModel { exit_code: Some(code), reported_running: false, ..s }.unchecked();
            assert(gone.state.wf());
            lemma_hooks_keep_wf(gone.state, HookUse::Stopped, true);
        },
        (Phase::Idle, Event::Health(e)) => {
            if s.health is Some {
                health_invariant_is_kept(s.health->0, e);
                let next = TaskModel { health: Some(s.health->0.after(e).0), ..s };
                assert(next.wf());
                lemma_hooks_keep_wf(next, HookUse::Running, true);
                lemma_hooks_keep_wf(next, HookUse::Unhealthy, true);
            }
        },
        _ => {},
    }
}

/// A task stays well-formed whatever happens.
pub proof fn task_invariant_is_kept(s: TaskModel, event: Event)
    requires
        s.wf(),
    ensures
        s.step(event).state.wf(),
{
    lemma_response_keeps_wf(s, event);
}

spec fn is_start(action: Action) -> bool {
    action == Action::Report(TaskReport::TaskStarted)
}

spec fn no_start(actions: Seq<Action>) -> bool {
    forall|i: int| 0 <= i < actions.len() ==> !is_start(#[trigger] actions[i])
}

proof fn lemma_starts_in_hooks(s: TaskModel, u: HookUse, ok: bool)
    ensures
        no_start(s.notifies(u).actions),
        no_start(s.waits_for(u).actions),
        u is Started && !(ok && s.ready_at_once()) ==> no_start(s.resumes(u, ok).actions),
        u is Started && (s.has_hook(u) || !s.ready_at_once()) ==> no_start(s.consults(u).actions),
        u is Running && !ok ==> no_start(s.resumes(u, ok).actions),
        u is Running && s.has_hook(u) ==> no_start(s.consults(u).actions),
        !(u is Started) && !(u is Running) ==> no_start(s.resumes(u, ok).actions),
{
    reveal(TaskModel::waits_for);
    reveal(TaskModel::concluded);
    reveal(TaskModel::notifies);
    reveal(TaskModel::started);
    reveal(TaskModel::running);
    reveal(TaskModel::consults);
    reveal(TaskModel::resumes);
    assert(no_start(s.waits_for(u).actions));
    assert(no_start(s.concluded(u).actions));
    assert(no_start(s.waits_for(HookUse::FailedStart).actions));
    assert(no_start(s.concluded(HookUse::FailedStart).actions));
    assert(no_start(s.waits_for(HookUse::FailedRunning).actions));
    assert(no_start(s.concluded(HookUse::FailedRunning).actions));
    assert(no_start(s.waits_for(HookUse::Running).actions));
    if !s.ready_at_once() {
        assert(no_start(s.started(true).actions));
    }
}

proof fn lemma_starts_in_response(s: TaskModel, event: Event)
    requires
        s.wf(),
    ensures
        no_start(s.responds(event).actions) || (s.becomes_ready(event) && !s.oneshot),
{
    match (s.phase, event) {
        (Phase::Spawning, Event::Spawned(pid)) => {
            if pid is Some {
                let fresh = TaskModel {
                    process: true,
                    exit_code: None,
                    stdout_eof: false,
                    reported_running: false,
                    phase: Phase::Idle,
                    ..s
                };
                lemma_starts_in_hooks(fresh, HookUse::Started, true);
            }
        },
        (Phase::Hook(u), Event::HookFinished(res)) => {
            lemma_starts_in_hooks(s, u, hook_verdict(res, HOOK_IO_ERROR).0);
        },
        (Phase::Idle, Event::Exited(code)) => {
            let gone = TaskModel { exit_code: Some(code), reported_running: false, ..s }.unchecked();
            lemma_starts_in_hooks(gone.state, HookUse::Stopped, true);
        },
        (Phase::Idle, Event::Health(e)) => {
            if s.health is Some {
                let next = TaskModel { health: Some(s.health->0.after(e).0), ..s };
                lemma_starts_in_hooks(next, HookUse::Running, true);
                lemma_starts_in_hooks(next, HookUse::Unhealthy, true);
            }
        },
        _ => {},
    }
}

/// A process is reported as started only when it is ready: all its health
/// checks pass, and the running hook, if there is one, was run and succeeded.
pub proof fn started_only_when_ready(s: TaskModel, event: Event)
    requires
        s.wf(),
        reports(s.step(event).actions, TaskReport::TaskStarted),
    ensures
        s.becomes_ready(event),
        s.has_hook(HookUse::Running) ==> s.phase == Phase::Hook(HookUse::Running) && (
        event matches Event::HookFinished(res) && res is Ok),
{
    lemma_starts_in_response(s, event);
    let first = s.responds(event).actions;
    let next = s.responds(event).state;
    let actions = s.step(event).actions;
    assert(actions == first + next.settled().actions);
    let i = choose|i: int|
        0 <= i < actions.len() && #[trigger] actions[i] == Action::Report(TaskReport::TaskStarted);
    assert(is_start(actions[i]));
    if i < first.len() {
        assert(actions[i] == first[i]);
    } else {
        assert(actions[i] == next.settled().actions[i - first.len()]);
    }
}

/// A running hook that fails keeps the process from being reported as started
/// or running again; it is unhealthy once the failed hook, if there is one,
/// is over.
pub proof fn failed_running_hook_holds_back(s: TaskModel, res: HookResult)
    requires
        s.wf(),
        s.phase == Phase::Hook(HookUse::Running),
        res is Err,
    ensures
        !reports(s.step(Event::HookFinished(res)).actions, TaskReport::TaskStarted),
        !reports(
            s.step(Event::HookFinished(res)).actions,
            TaskReport::TaskStatusChanged(TaskStatus::Running),
        ),
        !s.has_hook(HookUse::FailedRunning) ==> reports(
            s.step(Event::HookFinished(res)).actions,
            TaskReport::TaskStatusChanged(TaskStatus::Unhealthy),
        ),
        s.has_hook(HookUse::FailedRunning) ==> s.step(Event::HookFinished(res)).state.phase
            == Phase::Hook(HookUse::FailedRunning),
{
    reveal(TaskModel::waits_for);
    reveal(TaskModel::concluded);
    reveal(TaskModel::notifies);
    reveal(TaskModel::started);
    reveal(TaskModel::running);
    reveal(TaskModel::consults);
    reveal(TaskModel::resumes);
    let st = s.step(Event::HookFinished(res));
    if !s.has_hook(HookUse::FailedRunning) {
        let n = s.hook_report(
            HookEvent::Running,
            TaskReport::TaskStopped(hook_verdict(res, HOOK_IO_ERROR).1),
        ).len() as int;
        assert(st.actions[n] == status(TaskStatus::Unhealthy));
    }
}

/// Whether an action reports the end of a process.
pub open spec fn is_end(action: Action) -> bool {
    ||| action matches Action::Report(TaskReport::TaskStopped(_))
    ||| action == Action::Report(TaskReport::TaskStatusChanged(TaskStatus::Completed))
}

pub open spec fn no_end(actions: Seq<Action>) -> bool {
    forall|i: int| 0 <= i < actions.len() ==> !is_end(#[trigger] actions[i])
}

proof fn lemma_no_end_in_hooks(s: TaskModel, u: HookUse, ok: bool)
    ensures
        no_end(s.notifies(u).actions),
        no_end(s.resumes(u, ok).actions),
        no_end(s.consults(u).actions),
{
    reveal(TaskModel::waits_for);
    reveal(TaskModel::concluded);
    reveal(TaskModel::notifies);
    reveal(TaskModel::started);
    reveal(TaskModel::running);
    reveal(TaskModel::consults);
    reveal(TaskModel::resumes);
    assert(no_end(s.waits_for(u).actions));
    assert(no_end(s.concluded(u).actions));
    assert(no_end(s.waits_for(HookUse::FailedStart).actions));
    assert(no_end(s.concluded(HookUse::FailedStart).actions));
    assert(no_end(s.waits_for(HookUse::FailedRunning).actions));
    assert(no_end(s.concluded(HookUse::FailedRunning).actions));
    assert(no_end(s.started(true).actions));
    assert(no_end(s.running(true).actions));
}

pub proof fn lemma_no_end_in_response(s: TaskModel, event: Event)
    ensures
        no_end(s.responds(event).actions) || (s.phase is Spawning && event == Event::Spawned(
            None,
        ) && s.responds(event).actions == seq![report(TaskReport::TaskStopped(SPAWN_FAILED))]),
{
    match (s.phase, event) {
        (Phase::Spawning, Event::Spawned(pid)) => {
            if pid is Some {
                let fresh = TaskModel {
                    process: true,
                    exit_code: None,
                    stdout_eof: false,
                    reported_running: false,
                    phase: Phase::Idle,
                    ..s
                };
                lemma_no_end_in_hooks(fresh, HookUse::Started, true);
            }
        },
        (Phase::Hook(u), Event::HookFinished(res)) => {
            lemma_no_end_in_hooks(s, u, hook_verdict(res, HOOK_IO_ERROR).0);
        },
        (Phase::Idle, Event::Exited(code)) => {
            let gone = TaskModel { exit_code: Some(code), reported_running: false, ..s }.unchecked();
            lemma_no_end_in_hooks(gone.state, HookUse::Stopped, true);
        },
        (Phase::Idle, Event::Health(e)) => {
            if s.health is Some {
                let next = TaskModel { health: Some(s.health->0.after(e).0), ..s };
                lemma_no_end_in_hooks(next, HookUse::Running, true);
                lemma_no_end_in_hooks(next, HookUse::Unhealthy, true);
            }
        },
        _ => {},
    }
}

/// The end of a process is reported only once it exited and its output has
/// ended, with its exit code, and the task then has no process; or when it
/// could not be spawned.
pub proof fn stop_is_reported_at_the_end(s: TaskModel, event: Event, code: u32)
    requires
        reports(s.step(event).actions, TaskReport::TaskStopped(code)),
    ensures
        ({
            let next = s.responds(event).state;
            ||| s.phase is Spawning && event == Event::Spawned(None) && code == SPAWN_FAILED
            ||| next.is_over() && next.exit_code == Some(code) && !s.step(event).state.process
        }),
{
    lemma_no_end_in_response(s, event);
    let first = s.responds(event).actions;
    let next = s.responds(event).state;
    let actions = s.step(event).actions;
    assert(actions == first + next.settled().actions);
    let i = choose|i: int|
        0 <= i < actions.len() && #[trigger] actions[i] == Action::Report(
            TaskReport::TaskStopped(code),
        );
    assert(is_end(actions[i]));
    if i < first.len() {
        assert(actions[i] == first[i]);
    } else {
        assert(actions[i] == next.settled().actions[i - first.len()]);
    }
}

/// The running hook of a process without health checks runs as soon as the
/// process is started, before anything is reported of it.
pub proof fn running_hook_needs_no_checks(s: TaskModel, event: Event)
    requires
        s.phase is Spawning && (event matches Event::Spawned(pid) && pid is Some) && !s.has_hook(
            HookUse::Started,
        ) || s.phase == Phase::Hook(HookUse::Started) && (event matches Event::HookFinished(res)
            && res is Ok),
        s.healthchecks.len() == 0,
        !s.oneshot,
        s.has_hook(HookUse::Running),
    ensures
        s.step(event).state.phase == Phase::Hook(HookUse::Running),
        s.step(event).actions.last() == Action::RunHook(HookEvent::Running),
        !reports(s.step(event).actions, TaskReport::TaskStarted),
{
    reveal(TaskModel::waits_for);
    reveal(TaskModel::started);
    reveal(TaskModel::consults);
    reveal(TaskModel::resumes);
    let st = s.step(event);
    assert(st.actions =~= s.responds(event).actions);
}

/// A one-shot is never reported as started.
pub proof fn one_shot_is_never_started(s: TaskModel, event: Event)
    requires
        s.wf(),
        s.oneshot,
    ensures
        !reports(s.step(event).actions, TaskReport::TaskStarted),
{
    lemma_starts_in_response(s, event);
    let first = s.responds(event).actions;
    let next = s.responds(event).state;
    let actions = s.step(event).actions;
    assert(actions == first + next.settled().actions);
    assert forall|i: int| 0 <= i < actions.len() implies #[trigger] actions[i] != Action::Report(
        TaskReport::TaskStarted,
    ) by {
        if i < first.len() {
            assert(actions[i] == first[i]);
            assert(!is_start(first[i]));
        } else {
            assert(actions[i] == next.settled().actions[i - first.len()]);
        }
    }
}

/// The settings of a task are those of another.
pub open spec fn same_settings(a: TaskModel, b: TaskModel) -> bool {
    &&& a.hooks == b.hooks
    &&& a.hook_task_ids == b.hook_task_ids
    &&& a.healthchecks == b.healthchecks
    &&& a.oneshot == b.oneshot
}

proof fn lemma_hooks_keep_settings(s: TaskModel, u: HookUse, ok: bool)
    ensures
        same_settings(s.notifies(u).state, s),
        same_settings(s.resumes(u, ok).state, s),
        same_settings(s.consults(u).state, s),
{
    reveal(TaskModel::waits_for);
    reveal(TaskModel::concluded);
    reveal(TaskModel::notifies);
    reveal(TaskModel::started);
    reveal(TaskModel::running);
    reveal(TaskModel::consults);
    reveal(TaskModel::resumes);
}

/// Nothing that happens changes the settings of a task.
pub proof fn settings_are_kept(s: TaskModel, event: Event)
    ensures
        same_settings(s.responds(event).state, s),
        same_settings(s.step(event).state, s),
{
    match (s.phase, event) {
        (Phase::Spawning, Event::Spawned(pid)) => {
            let fresh = TaskModel {
                process: true,
                exit_code: None,
                stdout_eof: false,
                reported_running: false,
                phase: Phase::Idle,
                ..s
            };
            lemma_hooks_keep_settings(fresh, HookUse::Started, true);
        },
        (Phase::Hook(u), Event::HookFinished(res)) => {
            lemma_hooks_keep_settings(s, u, hook_verdict(res, HOOK_IO_ERROR).0);
        },
        (Phase::Idle, Event::Exited(code)) => {
            let gone = TaskModel { exit_code: Some(code), reported_running: false, ..s }.unchecked();
            lemma_hooks_keep_settings(gone.state, HookUse::Stopped, true);
        },
        (Phase::Idle, Event::Health(e)) => {
            if s.health is Some {
                let next = TaskModel { health: Some(s.health->0.after(e).0), ..s };
                lemma_hooks_keep_settings(next, HookUse::Running, true);
                lemma_hooks_keep_settings(next, HookUse::Unhealthy, true);
            }
        },
        _ => {},
    }
}

/// When its process is over, a one-shot is reported as completed if it exited
/// with zero, and as stopped otherwise.
pub proof fn one_shot_completes_on_zero(s: TaskModel, event: Event)
    requires
        s.oneshot,
        s.responds(event).state.is_over(),
    ensures
        ({
            let next = s.responds(event).state;
            s.step(event).actions.last() == report(
                if next.exit_code == Some(0u32) {
                    TaskReport::TaskStatusChanged(TaskStatus::Completed)
                } else {
                    TaskReport::TaskStopped(next.exit_code->0)
                },
            )
        }),
{
    settings_are_kept(s, event);
}

/// After a stop or a kill no result of a check has any effect.
pub proof fn stopped_task_ignores_checks(s: TaskModel, kill: bool, e: HealthEvent)
    requires
        s.phase is Idle,
        !s.is_over(),
    ensures
        ({
            let next = s.step(
                if kill {
                    Event::Kill
                } else {
                    Event::Stop
                },
            ).state;
            next.step(Event::Health(e)) == next.acts(Seq::empty())
        }),
{
    let next = s.step(
        if kill {
            Event::Kill
        } else {
            Event::Stop
        },
    ).state;
    assert(next.step(Event::Health(e)).actions =~= Seq::empty());
}

/// While it waits for its process or for a hook, a task does nothing else.
pub proof fn waiting_task_does_nothing_else(s: TaskModel, event: Event)
    requires
        !(s.phase is Idle),
        !(event is Spawned),
        !(event is HookFinished),
    ensures
        s.step(event) == s.acts(Seq::empty()),
{
    assert(s.step(event).actions =~= Seq::empty());
}

} // verus!
