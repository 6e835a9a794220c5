//! What a process of the classic interface owes to each event.

use crate::config::health::HookEvent;
use crate::config::proc::StopSignal;
use crate::kernel::screen_cmd::TaskScreenCmd;
use crate::kernel::task::TaskStatus;
use crate::mprocs::proc::hooks::{HookError, HookResult};
use crate::mprocs::proc::msg::{ProcEvent, ProcMsg};
use crate::mprocs::proc::proc::{Action, Event, HookUse, Inst, Phase, ProcModel, ProcState};
use crate::task::health::{HealthEvent, HealthModel};
use crate::task::machine::TaskReport;
use crate::task::proc_task::Signal;
use crate::term::key::Key;
use crate::term::mouse::MouseEvent;
use vstd::prelude::*;

verus! {

/// The process runs, or not all of its output was read.
pub open spec fn is_up(s: ProcModel) -> bool {
    s.inst matches ProcState::Present(inst) && !(inst.exit_code is Some && inst.stdout_eof)
}

/// A hook is what the process waits for now: its task is told to have started
/// and the hook is run.
pub open spec fn runs_hook(
    s: ProcModel,
    next: ProcModel,
    actions: Seq<Action>,
    u: HookUse,
    event: HookEvent,
) -> bool {
    &&& next.phase == Phase::Hook(u)
    &&& match s.hook_task_ids.at(event) {
        Some(id) => actions == seq![
            Action::ReportFor(id, TaskReport::TaskStarted),
            Action::RunHook(event),
        ],
        None => actions == seq![Action::RunHook(event)],
    }
}

/// The code that is reported for a hook: zero if it succeeded, its exit code
/// if it has one, or one that says that it could not be run.
pub open spec fn code_of(res: HookResult, code: u32) -> bool {
    match res {
        Ok(()) => code == 0,
        Err(HookError::ExitCode(c)) => c >= 0 ==> code == c,
        Err(HookError::IoError(_)) => code == 254,
    }
}

/// The hook is over: its task is told to have stopped.
pub open spec fn hook_is_over(
    s: ProcModel,
    event: HookEvent,
    res: HookResult,
    actions: Seq<Action>,
) -> bool {
    match s.hook_task_ids.at(event) {
        Some(id) => {
            &&& actions.len() > 0
            &&& actions[0] matches Action::ReportFor(to, TaskReport::TaskStopped(code)) && to == id
                && code_of(res, code)
        },
        None => true,
    }
}

pub open spec fn after_hook(s: ProcModel, event: HookEvent, actions: Seq<Action>) -> Seq<Action> {
    match s.hook_task_ids.at(event) {
        Some(_) => actions.skip(1),
        None => actions,
    }
}

/// The hook succeeded, or nobody waits for it.
pub open spec fn counts_as_success(
    hook: Option<crate::config::health::HookModel>,
    res: HookResult,
) -> bool {
    res is Ok || (hook matches Some(def) && def.async_)
}

proof fn lemma_waits(s: ProcModel, u: HookUse, event: HookEvent)
    requires
        ProcModel::event_of(u) == event,
    ensures
        runs_hook(s, s.waits_for(u).state, s.waits_for(u).actions, u, event),
        s.waits_for(u).state == (ProcModel { phase: Phase::Hook(u), ..s }),
{
    reveal(ProcModel::waits_for);
    match s.hook_task_ids.at(event) {
        Some(id) => {
            assert(s.waits_for(u).actions =~= seq![
                Action::ReportFor(id, TaskReport::TaskStarted),
                Action::RunHook(event),
            ]);
        },
        None => {
            assert(s.waits_for(u).actions =~= seq![Action::RunHook(event)]);
        },
    }
}

/// A process that is not up is spawned when it is started; one that is up
/// goes on as it is.
pub proof fn start_spawns_once(s: ProcModel)
    requires
        s.phase is Idle,
    ensures
        is_up(s) ==> s.step(Event::Start) == s.acts(Seq::empty()),
        !is_up(s) ==> s.step(Event::Start).actions == seq![Action::Spawn] && s.step(
            Event::Start,
        ).state.phase is Spawning && s.step(Event::Start).state.inst is Absent,
{
}

/// A process that was spawned is a new one, and its checks are started anew.
pub proof fn spawned_process_is_new(s: ProcModel, pid: u32)
    requires
        s.phase is Spawning,
    ensures
        ({
            let st = s.step(Event::Spawned(Some(pid)));
            &&& st.state.inst == ProcState::Present(
                Inst { pid, exit_code: None, stdout_eof: false },
            )
            &&& st.state.phase is Idle && !st.state.reported_running
            &&& st.state.health == (if s.healthchecks.len() > 0 {
                Some(HealthModel::fresh(s.healthchecks))
            } else {
                None
            })
            &&& st.actions.contains(Action::StopChecks) <==> s.health is Some
            &&& st.actions.contains(Action::StartChecks) <==> s.healthchecks.len() > 0
            &&& forall|i: int|
                0 <= i < st.actions.len() ==> (#[trigger] st.actions[i]) is StopChecks
                    || st.actions[i] is StartChecks
        }),
        s.step(Event::Spawned(None)).state.inst is Absent,
        s.step(Event::Spawned(None)).state.phase is Idle,
        s.step(Event::Spawned(None)).state.health is None,
{
    let st = s.step(Event::Spawned(Some(pid)));
    if s.health is Some {
        assert(st.actions[0] is StopChecks);
        if s.healthchecks.len() > 0 {
            assert(st.actions[1] is StartChecks);
        }
    } else if s.healthchecks.len() > 0 {
        assert(st.actions[0] is StartChecks);
    }
}

/// What follows when a process was started and no hook stands in the way.
pub open spec fn goes_on(s: ProcModel, next: ProcModel, actions: Seq<Action>) -> bool {
    if s.healthchecks.len() > 0 {
        &&& actions == seq![Action::Report(TaskReport::TaskStatusChanged(TaskStatus::Starting))]
        &&& next.phase is Idle
    } else if s.hooks.running is Some {
        runs_hook(s, next, actions, HookUse::Running, HookEvent::Running)
    } else {
        is_running(s, next, actions)
    }
}

/// The process is reported as started, or as running again.
pub open spec fn is_running(s: ProcModel, next: ProcModel, actions: Seq<Action>) -> bool {
    &&& actions == seq![
        if s.reported_running {
            Action::Report(TaskReport::TaskStatusChanged(TaskStatus::Running))
        } else {
            Action::Report(TaskReport::TaskStarted)
        },
    ]
    &&& next.phase is Idle && next.reported_running
}

/// A process that was started has its started hook run first.
pub proof fn started_process_goes_on(s: ProcModel)
    requires
        s.phase is Idle,
    ensures
        ({
            let st = s.step(Event::Internal(ProcEvent::Started));
            &&& st.state.inst == s.inst
            &&& if s.hooks.started is Some {
                runs_hook(s, st.state, st.actions, HookUse::Started, HookEvent::Started)
            } else {
                goes_on(s, st.state, st.actions)
            }
        }),
{
    reveal(ProcModel::started);
    reveal(ProcModel::running);
    reveal(ProcModel::consults);
    reveal(ProcModel::resumes);
    lemma_waits(s, HookUse::Started, HookEvent::Started);
    lemma_waits(s, HookUse::Running, HookEvent::Running);
}

/// After its started hook a process goes on. If the hook is waited for and
/// failed the process is killed, after the failed hook if there is one.
pub proof fn started_hook_decides(s: ProcModel, res: HookResult)
    requires
        s.phase == Phase::Hook(HookUse::Started),
        is_up(s),
    ensures
        ({
            let st = s.step(Event::HookFinished(res));
            let rest = after_hook(s, HookEvent::Started, st.actions);
            &&& hook_is_over(s, HookEvent::Started, res, st.actions)
            &&& st.state.inst == s.inst
            &&& if counts_as_success(s.hooks.started, res) {
                goes_on(s, st.state, rest)
            } else if s.hooks.failed is Some {
                runs_hook(s, st.state, rest, HookUse::FailedStart, HookEvent::Failed)
            } else {
                rest == seq![Action::Kill] && st.state.phase is Idle
            }
        }),
{
    reveal(ProcModel::concluded);
    reveal(ProcModel::notifies);
    reveal(ProcModel::started);
    reveal(ProcModel::running);
    reveal(ProcModel::resumes);
    lemma_waits(s, HookUse::Running, HookEvent::Running);
    lemma_waits(s, HookUse::FailedStart, HookEvent::Failed);
    let st = s.step(Event::HookFinished(res));
    assert(after_hook(s, HookEvent::Started, st.actions) =~= s.resumes(
        HookUse::Started,
        counts_as_success(s.hooks.started, res),
    ).actions);
}

/// A running hook that succeeds, or is not waited for, has the process
/// reported as started or as running again; otherwise it is unhealthy, which
/// is reported after the failed hook if there is one.
pub proof fn running_hook_decides(s: ProcModel, res: HookResult)
    requires
        s.phase == Phase::Hook(HookUse::Running),
    ensures
        ({
            let st = s.step(Event::HookFinished(res));
            let rest = after_hook(s, HookEvent::Running, st.actions);
            &&& hook_is_over(s, HookEvent::Running, res, st.actions)
            &&& st.state.inst == s.inst
            &&& if counts_as_success(s.hooks.running, res) {
                is_running(s, st.state, rest)
            } else if s.hooks.failed is Some {
                runs_hook(s, st.state, rest, HookUse::FailedRunning, HookEvent::Failed)
            } else {
                &&& rest == seq![
                    Action::Report(TaskReport::TaskStatusChanged(TaskStatus::Unhealthy)),
                ]
                &&& st.state.phase is Idle
            }
        }),
{
    reveal(ProcModel::concluded);
    reveal(ProcModel::notifies);
    reveal(ProcModel::running);
    reveal(ProcModel::resumes);
    lemma_waits(s, HookUse::FailedRunning, HookEvent::Failed);
    let st = s.step(Event::HookFinished(res));
    assert(after_hook(s, HookEvent::Running, st.actions) =~= s.resumes(
        HookUse::Running,
        counts_as_success(s.hooks.running, res),
    ).actions);
}

/// When any other hook is over, the process that did not start is killed, the
/// one whose running hook failed is unhealthy, and the one that exited is let
/// know; a hook that was run by hand leads to nothing.
pub proof fn other_hooks_decide_nothing(s: ProcModel, u: HookUse, res: HookResult)
    requires
        s.phase == Phase::Hook(u),
        !(u is Started) && !(u is Running),
    ensures
        ({
            let st = s.step(Event::HookFinished(res));
            let event = match u {
                HookUse::FailedStart => HookEvent::Failed,
                HookUse::FailedRunning => HookEvent::Failed,
                HookUse::Unhealthy => HookEvent::Unhealthy,
                HookUse::Rerun(e) => e,
                _ => HookEvent::Stopped,
            };
            let rest = after_hook(s, event, st.actions);
            &&& hook_is_over(s, event, res, st.actions)
            &&& st.state.phase is Idle
            &&& u is FailedStart ==> rest == (if is_up(s) {
                seq![Action::Kill]
            } else {
                Seq::empty()
            })
            &&& u is FailedRunning ==> rest == seq![
                Action::Report(TaskReport::TaskStatusChanged(TaskStatus::Unhealthy)),
            ]
            &&& u is Unhealthy || u is Rerun ==> rest == Seq::<Action>::empty()
            &&& u matches HookUse::Stopped(code) ==> exit_is_noted(s, code, st.state, rest)
            &&& !(u is Stopped) ==> st.state.inst == s.inst
        }),
{
    reveal(ProcModel::concluded);
    reveal(ProcModel::resumes);
    let st = s.step(Event::HookFinished(res));
    let ok = crate::mprocs::proc::hooks::hook_outcome(
        res,
        crate::mprocs::proc::laws::async_hook(s, u),
    ).0;
    assert(after_hook(s, ProcModel::event_of(u), st.actions) =~= s.resumes(u, ok).actions);
    if let HookUse::Stopped(code) = u {
        let idle = ProcModel { phase: Phase::Idle, ..s };
        lemma_over(idle, code);
    }
}

/// The exit of the process is noted: it is let know, and is over if its output
/// has ended.
pub open spec fn exit_is_noted(
    s: ProcModel,
    code: u32,
    next: ProcModel,
    actions: Seq<Action>,
) -> bool {
    match s.inst {
        ProcState::Present(inst) => {
            &&& next.inst == ProcState::Present(Inst { exit_code: Some(code), ..inst })
            &&& actions == (if inst.stdout_eof {
                seq![Action::Reap, Action::Report(TaskReport::TaskStopped(code))]
            } else {
                seq![Action::Reap]
            })
        },
        ProcState::Absent => next.inst is Absent,
    }
}

proof fn lemma_over(s: ProcModel, code: u32)
    ensures
        exit_is_noted(s, code, s.over(code).state, s.over(code).actions),
{
    if let ProcState::Present(inst) = s.inst {
        if inst.stdout_eof {
            assert(s.over(code).actions =~= seq![
                Action::Reap,
                Action::Report(TaskReport::TaskStopped(code)),
            ]);
        } else {
            assert(s.over(code).actions =~= seq![Action::Reap]);
        }
    }
}

/// A process that exits is not checked any more. Its stopped hook is run
/// before its end is noted.
pub proof fn exit_is_noticed(s: ProcModel, code: u32)
    requires
        s.phase is Idle,
    ensures
        ({
            let st = s.step(Event::Internal(ProcEvent::Exited(code)));
            let checks = if s.health is Some {
                seq![Action::StopChecks]
            } else {
                Seq::empty()
            };
            let rest = st.actions.skip(checks.len() as int);
            &&& st.state.health is None
            &&& checks.is_prefix_of(st.actions)
            &&& if s.hooks.stopped is Some {
                runs_hook(s, st.state, rest, HookUse::Stopped(code), HookEvent::Stopped)
                    && st.state.inst == s.inst
            } else {
                exit_is_noted(s, code, st.state, rest) && st.state.phase is Idle
            }
        }),
{
    reveal(ProcModel::concluded);
    reveal(ProcModel::notifies);
    let st = s.step(Event::Internal(ProcEvent::Exited(code)));
    let gone = ProcModel { health: None, ..s };
    let rest = gone.notifies(HookUse::Stopped(code)).actions;
    lemma_waits(gone, HookUse::Stopped(code), HookEvent::Stopped);
    lemma_over(ProcModel { phase: Phase::Idle, ..gone }, code);
    let checks = if s.health is Some {
        seq![Action::StopChecks]
    } else {
        Seq::empty()
    };
    assert(st.actions =~= checks + rest);
    assert(st.actions.skip(checks.len() as int) =~= rest);
    assert(st.actions.subrange(0, checks.len() as int) =~= checks);
}

/// Output is shown; at its end a process that exited before is over, and is
/// reported with its code.
pub proof fn output_is_shown(s: ProcModel, n: usize, inst: Inst)
    requires
        s.phase is Idle,
        s.inst == ProcState::Present(inst),
    ensures
        n > 0 ==> s.step(Event::Read(n)) == s.acts(seq![Action::ShowOutput(n)]),
        ({
            let st = s.step(Event::Read(0));
            &&& st.state.inst == ProcState::Present(Inst { stdout_eof: true, ..inst })
            &&& st.actions == (match inst.exit_code {
                Some(code) => seq![Action::Report(TaskReport::TaskStopped(code))],
                None => Seq::empty(),
            })
            &&& s.step(Event::ReadError) == st
        }),
{
}

/// A process that becomes unhealthy is reported so at once, and then its
/// unhealthy hook is run; one that becomes healthy is reported as started, or
/// as running again, after its running hook.
pub proof fn health_is_reported(s: ProcModel, e: HealthEvent)
    requires
        s.phase is Idle,
        s.health is Some,
    ensures
        ({
            let st = s.step(Event::Health(e));
            let (h, outcome) = s.health->0.after(e);
            let unhealthy = Action::Report(TaskReport::TaskStatusChanged(TaskStatus::Unhealthy));
            &&& st.state.health == Some(h) && st.state.inst == s.inst
            &&& outcome is Noop ==> st.actions == Seq::<Action>::empty() && st.state.phase is Idle
            &&& outcome is BecameUnhealthy ==> {
                &&& st.actions.len() > 0 && st.actions[0] == unhealthy
                &&& s.hooks.unhealthy is None ==> st.actions == seq![unhealthy]
                    && st.state.phase is Idle
                &&& s.hooks.unhealthy is Some ==> runs_hook(
                    s,
                    st.state,
                    st.actions.skip(1),
                    HookUse::Unhealthy,
                    HookEvent::Unhealthy,
                )
            }
            &&& outcome is BecameHealthy && s.hooks.running is Some ==> runs_hook(
                s,
                st.state,
                st.actions,
                HookUse::Running,
                HookEvent::Running,
            )
            &&& outcome is BecameHealthy && s.hooks.running is None ==> is_running(
                s,
                st.state,
                st.actions,
            )
        }),
{
    reveal(ProcModel::concluded);
    reveal(ProcModel::notifies);
    reveal(ProcModel::running);
    reveal(ProcModel::consults);
    reveal(ProcModel::resumes);
    let st = s.step(Event::Health(e));
    let next = ProcModel { health: Some(s.health->0.after(e).0), ..s };
    lemma_waits(next, HookUse::Running, HookEvent::Running);
    lemma_waits(next, HookUse::Unhealthy, HookEvent::Unhealthy);
    if s.health->0.after(e).1 is BecameUnhealthy {
        assert(st.actions.skip(1) =~= next.notifies(HookUse::Unhealthy).actions);
        assert(st.actions =~= seq![
            Action::Report(TaskReport::TaskStatusChanged(TaskStatus::Unhealthy)),
        ] + next.notifies(HookUse::Unhealthy).actions);
    }
}

/// A process is stopped the way it is configured: by the signal that is named,
/// by keys, by a command, or at once.
pub proof fn process_is_stopped_as_configured(s: ProcModel)
    requires
        s.phase is Idle,
    ensures
        s.step(Event::Stop).state == s,
        s.step(Event::Kill) == s.acts(
            if is_up(s) {
                seq![Action::Kill]
            } else {
                Seq::empty()
            },
        ),
        ({
            let actions = s.step(Event::Stop).actions;
            match s.stop_signal {
                StopSignal::SIGINT => s.inst is Present ==> actions == seq![
                    Action::Signal(Signal::Interrupt),
                ],
                StopSignal::SIGTERM => s.inst is Present ==> actions == seq![
                    Action::Signal(Signal::Terminate),
                ],
                StopSignal::SIGKILL => s.inst is Present ==> actions == seq![
                    Action::Signal(Signal::Kill),
                ],
                StopSignal::SendKeys(_) => is_up(s) ==> actions == seq![Action::TypeStopKeys],
                StopSignal::HardKill => is_up(s) ==> actions == seq![Action::Kill],
                StopSignal::Cmd(_) => actions == seq![Action::RunStopCmd],
            }
        }),
        s.inst is Absent && !(s.stop_signal is Cmd) ==> s.step(Event::Stop).actions == Seq::<
            Action,
        >::empty(),
{
}

/// Requests are passed on: keys and the mouse to the process, hooks and checks
/// that there are, and the view is scrolled by half the screen or by lines.
pub proof fn requests_are_passed_on(
    s: ProcModel,
    cmd: TaskScreenCmd,
    key: Key,
    mouse: MouseEvent,
    event: HookEvent,
    i: usize,
)
    requires
        s.phase is Idle,
    ensures
        s.step(Event::Screen(cmd)) == s.acts(seq![Action::Screen(cmd)]),
        s.step(Event::Msg(ProcMsg::SendKey(key))) == s.acts(
            if is_up(s) {
                seq![Action::SendKey(key)]
            } else {
                Seq::empty()
            },
        ),
        s.step(Event::Msg(ProcMsg::SendMouse(mouse))) == s.acts(
            if s.inst is Present {
                seq![Action::SendMouse(mouse)]
            } else {
                Seq::empty()
            },
        ),
        s.step(Event::Msg(ProcMsg::ScrollUp)) == s.acts(
            seq![Action::ScrollUp((s.size.height / 2) as usize)],
        ),
        s.step(Event::Msg(ProcMsg::ScrollDown)) == s.acts(
            seq![Action::ScrollDown((s.size.height / 2) as usize)],
        ),
        s.step(Event::Msg(ProcMsg::ScrollUpLines { n: i })) == s.acts(seq![Action::ScrollUp(i)]),
        s.step(Event::Msg(ProcMsg::ScrollDownLines { n: i })) == s.acts(
            seq![Action::ScrollDown(i)],
        ),
        s.step(Event::Msg(ProcMsg::RerunCheck(i))) == s.acts(
            if i < s.healthchecks.len() {
                seq![Action::RerunCheck(i)]
            } else {
                Seq::empty()
            },
        ),
        ({
            let st = s.step(Event::Msg(ProcMsg::RerunHook(event)));
            if s.hooks.at(event) is Some {
                runs_hook(s, st.state, st.actions, HookUse::Rerun(event), event)
            } else {
                st == s.acts(Seq::empty())
            }
        }),
{
    reveal(ProcModel::concluded);
    reveal(ProcModel::notifies);
    lemma_waits(s, HookUse::Rerun(event), event);
}

} // verus!
