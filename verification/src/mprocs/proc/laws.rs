//! What holds of every process of the classic interface, whatever happens to
//! it.

use crate::config::health::HookEvent;
use crate::kernel::task::TaskStatus;
use crate::mprocs::proc::hooks::{hook_outcome, HookResult};
use crate::mprocs::proc::msg::{ProcEvent, ProcMsg};
use crate::mprocs::proc::proc::{
    status, Action, Event, HookUse, Phase, ProcModel,
};
use crate::task::health::{health_invariant_is_kept, HealthModel};
use crate::task::machine::TaskReport;
use vstd::prelude::*;

verus! {

/// Whether one of the actions is the report `r`.
pub open spec fn reports(actions: Seq<Action>, r: TaskReport) -> bool {
    exists|i: int| 0 <= i < actions.len() && #[trigger] actions[i] == Action::Report(r)
}

pub open spec fn async_hook(s: ProcModel, u: HookUse) -> bool {
    match s.hooks.at(ProcModel::event_of(u)) {
        Some(def) => def.async_,
        None => false,
    }
}

impl ProcModel {
    /// There are results of checks only where there are checks.
    pub open spec fn wf(self) -> bool {
        &&& self.health matches Some(h) ==> h.wf() && h.checks.len() == self.healthchecks.len()
            && self.healthchecks.len() > 0
    }

    /// A process that is ready as soon as it is started.
    pub open spec fn ready_at_once(self) -> bool {
        self.healthchecks.len() == 0 && !self.has_hook(HookUse::Running)
    }

    /// The event tells that the process is ready for what depends on it: it
    /// was started, all its checks pass, and the running hook, if there is one
    /// that is waited for, succeeded.
    pub open spec fn becomes_ready(self, event: Event) -> bool {
        match event {
            Event::Health(e) => self.phase is Idle && !self.has_hook(HookUse::Running)
                && self.health is Some && self.health->0.after(e).1 is BecameHealthy,
            Event::Internal(ProcEvent::Started) => self.phase is Idle && !self.has_hook(
                HookUse::Started,
            ) && self.ready_at_once(),
            Event::HookFinished(res) => {
                ||| self.phase == Phase::Hook(HookUse::Running) && (res is Ok || async_hook(
                    self,
                    HookUse::Running,
                ))
                ||| self.phase == Phase::Hook(HookUse::Started) && self.ready_at_once() && (
                res is Ok || async_hook(self, HookUse::Started))
            },
            _ => false,
        }
    }
}

proof fn lemma_hooks_keep_wf(s: ProcModel, u: HookUse, ok: bool)
    requires
        s.wf(),
    ensures
        s.notifies(u).state.wf(),
        s.resumes(u, ok).state.wf(),
        s.consults(u).state.wf(),
{
    reveal(ProcModel::waits_for);
    reveal(ProcModel::concluded);
    reveal(ProcModel::notifies);
    reveal(ProcModel::started);
    reveal(ProcModel::running);
    reveal(ProcModel::consults);
    reveal(ProcModel::resumes);
    assert(s.waits_for(u).state.wf());
    assert(s.concluded(u).state.wf());
    assert(s.waits_for(HookUse::FailedStart).state.wf());
    assert(s.concluded(HookUse::FailedStart).state.wf());
    assert(s.waits_for(HookUse::FailedRunning).state.wf());
    assert(s.concluded(HookUse::FailedRunning).state.wf());
}

/// A process record stays well-formed whatever happens.
pub proof fn proc_invariant_is_kept(s: ProcModel, event: Event)
    requires
        s.wf(),
    ensures
        s.step(event).state.wf(),
{
    match (s.phase, event) {
        (Phase::Spawning, Event::Spawned(pid)) => {
            let fresh = HealthModel::fresh(s.healthchecks);
            if s.healthchecks.len() > 0 {
                assert(fresh.checks[0].state is Starting);
                assert(fresh.wf());
            }
        },
        (Phase::Hook(u), Event::HookFinished(res)) => {
            lemma_hooks_keep_wf(s, u, hook_outcome(res, async_hook(s, u)).0);
        },
        (Phase::Idle, Event::Internal(ProcEvent::Exited(code))) => {
            lemma_hooks_keep_wf(ProcModel { health: None, ..s }, HookUse::Stopped(code), true);
        },
        (Phase::Idle, Event::Internal(ProcEvent::Started)) => {
            lemma_hooks_keep_wf(s, HookUse::Started, true);
        },
        (Phase::Idle, Event::Msg(ProcMsg::RerunHook(e))) => {
            lemma_hooks_keep_wf(s, HookUse::Rerun(e), true);
        },
        (Phase::Idle, Event::Health(e)) => {
            if s.health is Some {
                health_invariant_is_kept(s.health->0, e);
                let next = ProcModel { health: Some(s.health->0.after(e).0), ..s };
                lemma_hooks_keep_wf(next, HookUse::Running, true);
                lemma_hooks_keep_wf(next, HookUse::Unhealthy, true);
            }
        },
        _ => {},
    }
}

spec fn is_start(action: Action) -> bool {
    action == Action::Report(TaskReport::TaskStarted)
}

spec fn no_start(actions: Seq<Action>) -> bool {
    forall|i: int| 0 <= i < actions.len() ==> !is_start(#[trigger] actions[i])
}

proof fn lemma_starts_in_hooks(s: ProcModel, u: HookUse, ok: bool)
    ensures
        no_start(s.notifies(u).actions),
        !(u is Running) && !(u is Started) ==> no_start(s.resumes(u, ok).actions),
        u is Started && !(ok && s.ready_at_once()) ==> no_start(s.resumes(u, ok).actions),
        u is Started && (s.has_hook(u) || !s.ready_at_once()) ==> no_start(s.consults(u).actions),
        u is Running && !ok ==> no_start(s.resumes(u, ok).actions),
        u is Running && s.has_hook(u) ==> no_start(s.consults(u).actions),
{
    reveal(ProcModel::waits_for);
    reveal(ProcModel::concluded);
    reveal(ProcModel::notifies);
    reveal(ProcModel::started);
    reveal(ProcModel::running);
    reveal(ProcModel::consults);
    reveal(ProcModel::resumes);
    assert(no_start(s.waits_for(u).actions));
    assert(no_start(s.concluded(u).actions));
    assert(no_start(s.waits_for(HookUse::FailedStart).actions));
    assert(no_start(s.concluded(HookUse::FailedStart).actions));
    assert(no_start(s.waits_for(HookUse::FailedRunning).actions));
    assert(no_start(s.concluded(HookUse::FailedRunning).actions));
    assert(no_start(s.waits_for(HookUse::Running).actions));
    if !s.ready_at_once() {
        assert(no_start(s.started(true).actions));
    }
}

proof fn lemma_starts(s: ProcModel, event: Event)
    requires
        s.wf(),
    ensures
        no_start(s.step(event).actions) || s.becomes_ready(event),
{
    match (s.phase, event) {
        (Phase::Hook(u), Event::HookFinished(res)) => {
            lemma_starts_in_hooks(s, u, hook_outcome(res, async_hook(s, u)).0);
        },
        (Phase::Idle, Event::Internal(ProcEvent::Exited(code))) => {
            lemma_starts_in_hooks(ProcModel { health: None, ..s }, HookUse::Stopped(code), true);
        },
        (Phase::Idle, Event::Internal(ProcEvent::Started)) => {
            lemma_starts_in_hooks(s, HookUse::Started, true);
        },
        (Phase::Idle, Event::Msg(ProcMsg::RerunHook(e))) => {
            lemma_starts_in_hooks(s, HookUse::Rerun(e), true);
        },
        (Phase::Idle, Event::Health(e)) => {
            if s.health is Some {
                let next = ProcModel { health: Some(s.health->0.after(e).0), ..s };
                lemma_starts_in_hooks(next, HookUse::Running, true);
                lemma_starts_in_hooks(next, HookUse::Unhealthy, true);
            }
        },
        _ => {},
    }
}

/// A process is reported as started only when it is ready: all its health
/// checks pass, and the running hook, if there is one, was run and succeeded
/// unless nobody waits for it.
pub proof fn started_only_when_ready(s: ProcModel, event: Event)
    requires
        s.wf(),
        reports(s.step(event).actions, TaskReport::TaskStarted),
    ensures
        s.becomes_ready(event),
        s.has_hook(HookUse::Running) ==> s.phase == Phase::Hook(HookUse::Running)
            && event is HookFinished,
{
    lemma_starts(s, event);
    let actions = s.step(event).actions;
    let i = choose|i: int|
        0 <= i < actions.len() && #[trigger] actions[i] == Action::Report(TaskReport::TaskStarted);
    assert(is_start(actions[i]));
}

/// The running hook of a process without health checks runs as soon as the
/// process is started, before anything is reported of it.
pub proof fn running_hook_needs_no_checks(s: ProcModel, event: Event)
    requires
        s.phase is Idle && event == Event::Internal(ProcEvent::Started) && !s.has_hook(
            HookUse::Started,
        ) || s.phase == Phase::Hook(HookUse::Started) && (event matches Event::HookFinished(res)
            && res is Ok),
        s.healthchecks.len() == 0,
        s.has_hook(HookUse::Running),
    ensures
        s.step(event).state.phase == Phase::Hook(HookUse::Running),
        s.step(event).actions.last() == Action::RunHook(HookEvent::Running),
        !reports(s.step(event).actions, TaskReport::TaskStarted),
{
    reveal(ProcModel::waits_for);
    reveal(ProcModel::started);
    reveal(ProcModel::consults);
    reveal(ProcModel::resumes);
}

/// A hook that nobody waits for never holds a transition up.
pub proof fn async_hook_never_holds_up(res: HookResult)
    ensures
        hook_outcome(res, true).0,
{
}

/// A running hook that is waited for and fails keeps the process from being
/// reported as started or running again; it is unhealthy once the failed
/// hook, if there is one, is over.
pub proof fn failed_running_hook_holds_back(s: ProcModel, res: HookResult)
    requires
        s.phase == Phase::Hook(HookUse::Running),
        res is Err,
        !async_hook(s, HookUse::Running),
    ensures
        !reports(s.step(Event::HookFinished(res)).actions, TaskReport::TaskStarted),
        !reports(
            s.step(Event::HookFinished(res)).actions,
            TaskReport::TaskStatusChanged(TaskStatus::Running),
        ),
        !s.has_hook(HookUse::FailedRunning) ==> reports(
            s.step(Event::HookFinished(res)).actions,
            TaskReport::TaskStatusChanged(TaskStatus::Unhealthy),
        ),
{
    reveal(ProcModel::waits_for);
    reveal(ProcModel::concluded);
    reveal(ProcModel::notifies);
    reveal(ProcModel::running);
    reveal(ProcModel::resumes);
    let st = s.step(Event::HookFinished(res));
    let code = hook_outcome(res, false).1;
    let n = s.hook_report(ProcModel::event_of(HookUse::Running), TaskReport::TaskStopped(code));
    if !s.has_hook(HookUse::FailedRunning) {
        assert(st.actions[n.len() as int] == status(TaskStatus::Unhealthy));
    }
}

/// The action reports the end of the process.
pub open spec fn is_stop(action: Action) -> bool {
    action matches Action::Report(TaskReport::TaskStopped(_))
}

pub open spec fn no_stop(actions: Seq<Action>) -> bool {
    forall|i: int| 0 <= i < actions.len() ==> !is_stop(#[trigger] actions[i])
}

/// A reported end is that of a process that is over, with its exit code.
pub open spec fn stop_is_true(state: ProcModel, action: Action) -> bool {
    match action {
        Action::Report(TaskReport::TaskStopped(code)) => !state.inst.up() && (state.inst is Present
            ==> state.inst.code() == Some(code)),
        _ => true,
    }
}

pub open spec fn stops_are_true(state: ProcModel, actions: Seq<Action>) -> bool {
    forall|i: int| 0 <= i < actions.len() ==> stop_is_true(state, #[trigger] actions[i])
}

proof fn lemma_stops_in_hooks(s: ProcModel, u: HookUse, ok: bool)
    ensures
        stops_are_true(s.notifies(u).state, s.notifies(u).actions),
        stops_are_true(s.resumes(u, ok).state, s.resumes(u, ok).actions),
        stops_are_true(s.consults(u).state, s.consults(u).actions),
{
    reveal(ProcModel::waits_for);
    reveal(ProcModel::concluded);
    reveal(ProcModel::notifies);
    reveal(ProcModel::started);
    reveal(ProcModel::running);
    reveal(ProcModel::consults);
    reveal(ProcModel::resumes);
    assert(no_stop(s.waits_for(u).actions));
    assert(stops_are_true(s.concluded(u).state, s.concluded(u).actions));
    assert(no_stop(s.waits_for(HookUse::FailedStart).actions));
    assert(no_stop(s.concluded(HookUse::FailedStart).actions));
    assert(no_stop(s.waits_for(HookUse::FailedRunning).actions));
    assert(no_stop(s.concluded(HookUse::FailedRunning).actions));
    assert(no_stop(s.started(true).actions));
    assert(no_stop(s.running(true).actions));
    assert forall|a: Seq<Action>, m: ProcModel| #[trigger] no_stop(a) implies
        #[trigger] stops_are_true(m, a) by {
        assert forall|i: int| 0 <= i < a.len() implies stop_is_true(m, #[trigger] a[i]) by {
            assert(!is_stop(a[i]));
        }
    }
}

proof fn lemma_stops_after(m: ProcModel, first: Seq<Action>, rest: Seq<Action>)
    requires
        no_stop(first),
        stops_are_true(m, rest),
    ensures
        stops_are_true(m, first + rest),
{
    let all = first + rest;
    assert forall|i: int| 0 <= i < all.len() implies stop_is_true(m, #[trigger] all[i]) by {
        if i < first.len() {
            assert(!is_stop(first[i]));
        } else {
            assert(stop_is_true(m, rest[i - first.len()]));
        }
    }
}

/// The end of a process is reported only when it exited and its output was
/// read to its end, and with its exit code.
pub proof fn stop_is_reported_at_the_end(s: ProcModel, event: Event)
    ensures
        stops_are_true(s.step(event).state, s.step(event).actions),
{
    match (s.phase, event) {
        (Phase::Hook(u), Event::HookFinished(res)) => {
            let (ok, code) = hook_outcome(res, async_hook(s, u));
            lemma_stops_in_hooks(s, u, ok);
            lemma_stops_after(
                s.resumes(u, ok).state,
                s.hook_report(ProcModel::event_of(u), TaskReport::TaskStopped(code)),
                s.resumes(u, ok).actions,
            );
        },
        (Phase::Idle, Event::Internal(ProcEvent::Exited(code))) => {
            let gone = ProcModel { health: None, ..s };
            lemma_stops_in_hooks(gone, HookUse::Stopped(code), true);
            lemma_stops_after(
                gone.notifies(HookUse::Stopped(code)).state,
                crate::mprocs::proc::proc::only_if(s.health is Some, Action::StopChecks),
                gone.notifies(HookUse::Stopped(code)).actions,
            );
        },
        (Phase::Idle, Event::Internal(ProcEvent::Started)) => {
            lemma_stops_in_hooks(s, HookUse::Started, true);
        },
        (Phase::Idle, Event::Msg(ProcMsg::RerunHook(e))) => {
            lemma_stops_in_hooks(s, HookUse::Rerun(e), true);
        },
        (Phase::Idle, Event::Health(e)) => {
            if s.health is Some {
                let next = ProcModel { health: Some(s.health->0.after(e).0), ..s };
                lemma_stops_in_hooks(next, HookUse::Running, true);
                lemma_stops_in_hooks(next, HookUse::Unhealthy, true);
                lemma_stops_after(
                    next.notifies(HookUse::Unhealthy).state,
                    seq![status(TaskStatus::Unhealthy)],
                    next.notifies(HookUse::Unhealthy).actions,
                );
            }
        },
        _ => {},
    }
}

} // verus!
