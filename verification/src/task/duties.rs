//! What a process task owes to each event.

use crate::config::health::HookEvent;
use crate::kernel::screen_cmd::TaskScreenCmd;
use crate::kernel::task::TaskStatus;
use crate::task::health::{HealthEvent, HealthModel};
use crate::task::hooks::{HookError, HookResult};
use crate::task::hook_map::HookMap;
use crate::task::machine::{Action, Event, HookUse, Phase, ProcMsg, TaskModel, TaskReport};
use crate::term::key::Key;
use vstd::prelude::*;

verus! {

/// There is nothing left to be noticed of a process that is over.
pub open spec fn settled(s: TaskModel) -> bool {
    !(s.phase is Idle && s.process && s.stdout_eof && s.exit_code is Some)
}

/// The hook of an event, if it has one, is what the task waits for now: its
/// task is told to have started and the hook is run.
pub open spec fn runs_hook(
    s: TaskModel,
    next: TaskModel,
    actions: Seq<Action>,
    u: HookUse,
    event: HookEvent,
) -> bool {
    &&& next.phase == Phase::Hook(u)
    &&& match s.hook_task_ids.at(event) {
        Some(id) => actions == seq![
            Action::ReportFor(id, TaskReport::TaskStarted),
            Action::RunHook(event),
        ],
        None => actions == seq![Action::RunHook(event)],
    }
}

/// The code that is reported for a hook: zero if it succeeded, its exit code
/// if it has one, or one that says that it could not be run.
pub open spec fn code_of(res: HookResult, code: u32) -> bool {
    match res {
        Ok(()) => code == 0,
        Err(HookError::ExitCode(c)) => if c >= 0 {
            code == c
        } else {
            code == c + 0x1_0000_0000
        },
        Err(HookError::IoError(_)) => code == 255,
    }
}

/// The hook that ran is reported as stopped, with its code.
pub open spec fn hook_is_over(
    s: TaskModel,
    event: HookEvent,
    res: HookResult,
    actions: Seq<Action>,
) -> bool {
    match s.hook_task_ids.at(event) {
        Some(id) => {
            &&& actions.len() > 0
            &&& actions[0] matches Action::ReportFor(to, TaskReport::TaskStopped(code)) && to == id
                && code_of(res, code)
        },
        None => true,
    }
}

/// The actions that follow the report about the hook that is over.
pub open spec fn after_hook(s: TaskModel, event: HookEvent, actions: Seq<Action>) -> Seq<Action> {
    match s.hook_task_ids.at(event) {
        Some(_) => actions.skip(1),
        None => actions,
    }
}


proof fn lemma_waits(s: TaskModel, u: HookUse, event: HookEvent)
    requires
        TaskModel::event_of(u) == event,
    ensures
        runs_hook(s, s.waits_for(u).state, s.waits_for(u).actions, u, event),
        s.waits_for(u).state == (TaskModel { phase: Phase::Hook(u), ..s }),
{
    reveal(TaskModel::waits_for);
    match s.hook_task_ids.at(event) {
        Some(id) => {
            assert(s.waits_for(u).actions =~= seq![
                Action::ReportFor(id, TaskReport::TaskStarted),
                Action::RunHook(event),
            ]);
        },
        None => {
            assert(s.waits_for(u).actions =~= seq![Action::RunHook(event)]);
        },
    }
}

/// A task without a process spawns one when it is started; one that has a
/// process goes on as it is.
pub proof fn start_spawns_once(s: TaskModel)
    requires
        s.phase is Idle,
        settled(s),
    ensures
        !s.process ==> s.step(Event::Start).actions == seq![Action::SpawnProcess]
            && s.step(Event::Start).state == (TaskModel { phase: Phase::Spawning, ..s }),
        s.process ==> s.step(Event::Start) == s.acts(Seq::empty()),
{
    assert(s.step(Event::Start).actions =~= s.responds(Event::Start).actions);
}

/// A process that could not be spawned has stopped, with a code that tells so.
pub proof fn failed_spawn_is_reported(s: TaskModel)
    requires
        s.phase is Spawning,
        !s.process,
    ensures
        s.step(Event::Spawned(None)).actions == seq![
            Action::Report(TaskReport::TaskStopped(255)),
        ],
        s.step(Event::Spawned(None)).state == (TaskModel { phase: Phase::Idle, ..s }),
{
    assert(s.step(Event::Spawned(None)).actions =~= s.responds(Event::Spawned(None)).actions);
}

/// What follows when a process was started and no hook stands in the way: a
/// one-shot is left to run, a process with checks is checked from now on, any
/// other is ready, which its running hook is told first.
pub open spec fn goes_on(s: TaskModel, next: TaskModel, actions: Seq<Action>) -> bool {
    let starting = Action::Report(TaskReport::TaskStatusChanged(TaskStatus::Starting));
    if s.oneshot {
        &&& actions == seq![starting]
        &&& next.phase is Idle && next.health == s.health
    } else if s.healthchecks.len() > 0 {
        &&& actions == seq![starting, Action::StartChecks]
        &&& next.phase is Idle && next.health == Some(HealthModel::fresh(s.healthchecks))
    } else if s.hooks.running is Some {
        runs_hook(s, next, actions, HookUse::Running, HookEvent::Running)
    } else {
        &&& actions == seq![
            if s.reported_running {
                Action::Report(TaskReport::TaskStatusChanged(TaskStatus::Running))
            } else {
                Action::Report(TaskReport::TaskStarted)
            },
        ]
        &&& next.phase is Idle && next.reported_running
    }
}

/// A process that was spawned is a new one, whose log is kept from now on. Its
/// started hook is run first.
pub proof fn spawned_process_starts(s: TaskModel, pid: u32)
    requires
        s.phase is Spawning,
    ensures
        ({
            let st = s.step(Event::Spawned(Some(pid)));
            let fresh = TaskModel { reported_running: false, ..s };
            &&& st.actions.len() > 0 && st.actions[0] == Action::UpdateLog(pid)
            &&& st.state.process && st.state.exit_code is None && !st.state.stdout_eof
            &&& if s.hooks.started is Some {
                runs_hook(s, st.state, st.actions.skip(1), HookUse::Started, HookEvent::Started)
                    && !st.state.reported_running
            } else {
                goes_on(fresh, st.state, st.actions.skip(1))
            }
        }),
{
    reveal(TaskModel::waits_for);
    reveal(TaskModel::started);
    reveal(TaskModel::running);
    reveal(TaskModel::consults);
    reveal(TaskModel::resumes);
    let st = s.step(Event::Spawned(Some(pid)));
    assert(st.actions =~= s.responds(Event::Spawned(Some(pid))).actions);
    let fresh = TaskModel {
        process: true,
        exit_code: None,
        stdout_eof: false,
        reported_running: false,
        phase: Phase::Idle,
        ..s
    };
    assert(st.actions.skip(1) =~= fresh.consults(HookUse::Started).actions);
    lemma_waits(fresh, HookUse::Started, HookEvent::Started);
    lemma_waits(fresh, HookUse::Running, HookEvent::Running);
}

/// After its started hook a process goes on. If the hook failed the process is
/// killed, after the failed hook if there is one, whatever that comes to.
pub proof fn started_hook_decides(s: TaskModel, res: HookResult)
    requires
        s.phase == Phase::Hook(HookUse::Started),
        s.process,
        s.exit_code is None,
    ensures
        ({
            let st = s.step(Event::HookFinished(res));
            let rest = after_hook(s, HookEvent::Started, st.actions);
            &&& hook_is_over(s, HookEvent::Started, res, st.actions)
            &&& st.state.process
            &&& if res is Ok {
                goes_on(s, st.state, rest)
            } else if s.hooks.failed is Some {
                runs_hook(s, st.state, rest, HookUse::FailedStart, HookEvent::Failed)
            } else {
                rest == seq![Action::KillProcess] && st.state.phase is Idle
            }
        }),
{
    reveal(TaskModel::waits_for);
    reveal(TaskModel::concluded);
    reveal(TaskModel::notifies);
    reveal(TaskModel::started);
    reveal(TaskModel::running);
    reveal(TaskModel::resumes);
    let st = s.step(Event::HookFinished(res));
    assert(st.actions =~= s.responds(Event::HookFinished(res)).actions);
    let ok = res is Ok;
    assert(after_hook(s, HookEvent::Started, st.actions) =~= s.resumes(
        HookUse::Started,
        ok,
    ).actions);
    lemma_waits(s, HookUse::Running, HookEvent::Running);
    lemma_waits(s, HookUse::FailedStart, HookEvent::Failed);
}

/// When the failed hook of a process that did not start is over, the process
/// is killed.
pub proof fn failed_start_kills(s: TaskModel, res: HookResult)
    requires
        s.phase == Phase::Hook(HookUse::FailedStart),
        settled(TaskModel { phase: Phase::Idle, ..s }),
    ensures
        ({
            let st = s.step(Event::HookFinished(res));
            &&& hook_is_over(s, HookEvent::Failed, res, st.actions)
            &&& after_hook(s, HookEvent::Failed, st.actions) == (if s.process {
                seq![Action::KillProcess]
            } else {
                Seq::empty()
            })
            &&& st.state == (TaskModel { phase: Phase::Idle, ..s })
        }),
{
    reveal(TaskModel::concluded);
    reveal(TaskModel::resumes);
    let st = s.step(Event::HookFinished(res));
    assert(st.actions =~= s.responds(Event::HookFinished(res)).actions);
    assert(after_hook(s, HookEvent::Failed, st.actions) =~= s.resumes(
        HookUse::FailedStart,
        res is Ok,
    ).actions);
}

/// A running hook that succeeds has the process reported as started, or as
/// running again if it was reported before. If it fails the process is
/// unhealthy, which is reported after the failed hook if there is one.
pub proof fn running_hook_decides(s: TaskModel, res: HookResult)
    requires
        s.phase == Phase::Hook(HookUse::Running),
        settled(TaskModel { phase: Phase::Idle, ..s }),
    ensures
        ({
            let st = s.step(Event::HookFinished(res));
            let rest = after_hook(s, HookEvent::Running, st.actions);
            let idle = TaskModel { phase: Phase::Idle, ..s };
            &&& hook_is_over(s, HookEvent::Running, res, st.actions)
            &&& if res is Ok {
                &&& rest == seq![
                    if s.reported_running {
                        Action::Report(TaskReport::TaskStatusChanged(TaskStatus::Running))
                    } else {
                        Action::Report(TaskReport::TaskStarted)
                    },
                ]
                &&& st.state == (TaskModel { reported_running: true, ..idle })
            } else if s.hooks.failed is Some {
                runs_hook(s, st.state, rest, HookUse::FailedRunning, HookEvent::Failed)
            } else {
                &&& rest == seq![
                    Action::Report(TaskReport::TaskStatusChanged(TaskStatus::Unhealthy)),
                ]
                &&& st.state == idle
            }
        }),
{
    reveal(TaskModel::concluded);
    reveal(TaskModel::notifies);
    reveal(TaskModel::running);
    reveal(TaskModel::resumes);
    let st = s.step(Event::HookFinished(res));
    lemma_waits(s, HookUse::FailedRunning, HookEvent::Failed);
    assert(st.actions =~= s.responds(Event::HookFinished(res)).actions);
    assert(after_hook(s, HookEvent::Running, st.actions) =~= s.resumes(
        HookUse::Running,
        res is Ok,
    ).actions);
}

/// When any other hook is over the task goes on: a process whose running hook
/// failed is unhealthy, one that exited is let go, and a process that became
/// unhealthy has been reported already.
pub proof fn other_hooks_decide_nothing(s: TaskModel, u: HookUse, res: HookResult)
    requires
        s.phase == Phase::Hook(u),
        u is FailedRunning || u is Unhealthy || u is Stopped,
        settled(TaskModel { phase: Phase::Idle, ..s }),
    ensures
        ({
            let st = s.step(Event::HookFinished(res));
            let event = match u {
                HookUse::FailedRunning => HookEvent::Failed,
                HookUse::Unhealthy => HookEvent::Unhealthy,
                _ => HookEvent::Stopped,
            };
            let rest = after_hook(s, event, st.actions);
            &&& hook_is_over(s, event, res, st.actions)
            &&& st.state == (TaskModel { phase: Phase::Idle, ..s })
            &&& u is FailedRunning ==> rest == seq![
                Action::Report(TaskReport::TaskStatusChanged(TaskStatus::Unhealthy)),
            ]
            &&& u is Unhealthy ==> rest == Seq::<Action>::empty()
            &&& u is Stopped ==> rest == (if s.process {
                seq![Action::ReapProcess]
            } else {
                Seq::empty()
            })
        }),
{
    reveal(TaskModel::concluded);
    reveal(TaskModel::resumes);
    let st = s.step(Event::HookFinished(res));
    assert(st.actions =~= s.responds(Event::HookFinished(res)).actions);
    assert(after_hook(s, TaskModel::event_of(u), st.actions) =~= s.resumes(u, res is Ok).actions);
}

/// A process that becomes unhealthy is reported so at once, and then its
/// unhealthy hook is run. One that becomes healthy is reported as started, or
/// as running again, after its running hook. A result that changes nothing
/// leads to nothing.
pub proof fn health_is_reported(s: TaskModel, e: HealthEvent)
    requires
        s.phase is Idle,
        settled(s),
        s.health is Some,
    ensures
        ({
            let st = s.step(Event::Health(e));
            let (h, outcome) = s.health->0.after(e);
            let unhealthy = Action::Report(TaskReport::TaskStatusChanged(TaskStatus::Unhealthy));
            &&& st.state.health == Some(h)
            &&& outcome is Noop ==> st.actions == Seq::<Action>::empty() && st.state.phase is Idle
            &&& outcome is BecameUnhealthy ==> {
                &&& st.actions.len() > 0 && st.actions[0] == unhealthy
                &&& s.hooks.unhealthy is None ==> st.actions == seq![unhealthy]
                    && st.state.phase is Idle
                &&& s.hooks.unhealthy is Some ==> runs_hook(
                    s,
                    st.state,
                    st.actions.skip(1),
                    HookUse::Unhealthy,
                    HookEvent::Unhealthy,
                )
            }
            &&& outcome is BecameHealthy && s.hooks.running is Some ==> runs_hook(
                s,
                st.state,
                st.actions,
                HookUse::Running,
                HookEvent::Running,
            )
            &&& outcome is BecameHealthy && s.hooks.running is None ==> {
                &&& st.actions == seq![
                    if s.reported_running {
                        Action::Report(TaskReport::TaskStatusChanged(TaskStatus::Running))
                    } else {
                        Action::Report(TaskReport::TaskStarted)
                    },
                ]
                &&& st.state.reported_running && st.state.phase is Idle
            }
        }),
{
    reveal(TaskModel::concluded);
    reveal(TaskModel::notifies);
    reveal(TaskModel::running);
    reveal(TaskModel::consults);
    reveal(TaskModel::resumes);
    let st = s.step(Event::Health(e));
    let next = TaskModel { health: Some(s.health->0.after(e).0), ..s };
    lemma_waits(next, HookUse::Running, HookEvent::Running);
    lemma_waits(next, HookUse::Unhealthy, HookEvent::Unhealthy);
    assert(st.actions =~= s.responds(Event::Health(e)).actions);
    if s.health->0.after(e).1 is BecameUnhealthy {
        assert(st.actions.skip(1) =~= next.notifies(HookUse::Unhealthy).actions);
        assert(st.actions =~= seq![
            Action::Report(TaskReport::TaskStatusChanged(TaskStatus::Unhealthy)),
        ] + next.notifies(HookUse::Unhealthy).actions);
    }
}

/// A process without checks takes no notice of their results.
pub proof fn unchecked_process_has_no_health(s: TaskModel, e: HealthEvent)
    requires
        s.phase is Idle,
        settled(s),
        s.health is None,
    ensures
        s.step(Event::Health(e)) == s.acts(Seq::empty()),
{
    assert(s.step(Event::Health(e)).actions =~= Seq::empty());
}

/// A process that exits is not checked any more; its code is kept. Its stopped
/// hook is run before it is let go.
pub proof fn exit_is_noticed(s: TaskModel, code: u32)
    requires
        s.phase is Idle,
        s.process,
        !s.stdout_eof,
    ensures
        ({
            let st = s.step(Event::Exited(code));
            let checks = if s.health is Some {
                seq![Action::StopChecks]
            } else {
                Seq::empty()
            };
            &&& st.state.exit_code == Some(code)
            &&& st.state.health is None && !st.state.reported_running && st.state.process
            &&& if s.hooks.stopped is Some {
                &&& checks.is_prefix_of(st.actions)
                &&& runs_hook(
                    s,
                    st.state,
                    st.actions.skip(checks.len() as int),
                    HookUse::Stopped,
                    HookEvent::Stopped,
                )
            } else {
                st.actions == checks + seq![Action::ReapProcess] && st.state.phase is Idle
            }
        }),
{
    reveal(TaskModel::concluded);
    reveal(TaskModel::notifies);
    let st = s.step(Event::Exited(code));
    let gone = TaskModel { exit_code: Some(code), reported_running: false, ..s }.unchecked();
    lemma_waits(gone.state, HookUse::Stopped, HookEvent::Stopped);
    let rest = gone.state.notifies(HookUse::Stopped).actions;
    assert(st.actions =~= gone.actions + rest);
    assert(st.actions.skip(gone.actions.len() as int) =~= rest);
    assert(st.actions.subrange(0, gone.actions.len() as int) =~= gone.actions);
    if s.health is Some {
        assert(gone.actions =~= seq![Action::StopChecks]);
    }
}

/// A process is stopped the way it is configured, or killed, as it is asked
/// for; its checks are given up first. A task without a process does nothing.
pub proof fn process_is_halted(s: TaskModel)
    requires
        s.phase is Idle,
        settled(s),
    ensures
        ({
            let checks = if s.health is Some {
                seq![Action::StopChecks]
            } else {
                Seq::empty()
            };
            let idle = TaskModel { health: None, ..s };
            &&& s.step(Event::Stop).state == idle
            &&& s.step(Event::Kill).state == idle
            &&& s.step(Event::Stop).actions == (if s.process {
                checks + seq![Action::StopProcess]
            } else {
                checks
            })
            &&& s.step(Event::Kill).actions == (if s.process {
                checks + seq![Action::KillProcess]
            } else {
                checks
            })
        }),
{
    let checks = if s.health is Some {
        seq![Action::StopChecks]
    } else {
        Seq::empty()
    };
    assert(s.step(Event::Stop).actions =~= (if s.process {
        checks + seq![Action::StopProcess]
    } else {
        checks
    }));
    assert(s.step(Event::Kill).actions =~= (if s.process {
        checks + seq![Action::KillProcess]
    } else {
        checks
    }));
}

/// Output is shown, and its end is kept in mind.
pub proof fn output_is_shown(s: TaskModel, n: usize)
    requires
        s.phase is Idle,
        settled(s),
    ensures
        n > 0 ==> s.step(Event::Read(n)) == s.acts(seq![Action::ShowOutput(n)]),
        s.exit_code is None ==> s.step(Event::Read(0)) == (TaskModel {
            stdout_eof: true,
            ..s
        }).acts(Seq::empty()),
        s.exit_code is None ==> s.step(Event::ReadError) == (TaskModel {
            stdout_eof: true,
            ..s
        }).acts(Seq::empty()),
{
    if n > 0 {
        assert(s.step(Event::Read(n)).actions =~= seq![Action::ShowOutput(n)]);
    }
    if s.exit_code is None {
        assert(s.step(Event::Read(0)).actions =~= Seq::empty());
        assert(s.step(Event::ReadError).actions =~= Seq::empty());
    }
}

/// A process that exited and whose output ends is let go and its end is
/// reported, and so is one whose output has ended and that exits.
pub proof fn end_is_noticed(s: TaskModel, code: u32)
    requires
        s.phase is Idle,
        s.process,
        s.exit_code == Some(code),
        !s.stdout_eof,
    ensures
        s.step(Event::Read(0)).actions == seq![
            Action::DropProcess,
            Action::Report(
                if s.oneshot && code == 0 {
                    TaskReport::TaskStatusChanged(TaskStatus::Completed)
                } else {
                    TaskReport::TaskStopped(code)
                },
            ),
        ],
        s.step(Event::ReadError).actions == s.step(Event::Read(0)).actions,
        !s.step(Event::Read(0)).state.process,
        !s.step(Event::ReadError).state.process,
{
    assert(s.step(Event::Read(0)).actions =~= seq![
        Action::DropProcess,
        Action::Report(
            if s.oneshot && code == 0 {
                TaskReport::TaskStatusChanged(TaskStatus::Completed)
            } else {
                TaskReport::TaskStopped(code)
            },
        ),
    ]);
    assert(s.step(Event::ReadError).actions =~= s.step(Event::Read(0)).actions);
}

/// Requests that change nothing about the task are passed on: to the screen,
/// to the process while there is one, to hooks and checks that there are.
pub proof fn requests_are_passed_on(
    s: TaskModel,
    cmd: TaskScreenCmd,
    key: Key,
    event: HookEvent,
    i: usize,
    label: Option<String>,
)
    requires
        s.phase is Idle,
        settled(s),
    ensures
        s.step(Event::Screen(cmd)) == s.acts(seq![Action::Screen(cmd)]),
        s.step(Event::Duplicate(label)) == s.acts(seq![Action::Duplicate(label)]),
        s.step(Event::Input(key)) == s.acts(
            if s.process {
                seq![Action::SendKey(key)]
            } else {
                Seq::empty()
            },
        ),
        s.step(Event::Msg(ProcMsg::RerunHook(event))) == s.acts(
            if s.hooks.at(event) is Some {
                seq![Action::RerunHook(event)]
            } else {
                Seq::empty()
            },
        ),
        s.step(Event::Msg(ProcMsg::RerunCheck(i))) == s.acts(
            if i < s.healthchecks.len() {
                seq![Action::RerunCheck(i)]
            } else {
                Seq::empty()
            },
        ),
{
    assert(s.step(Event::Screen(cmd)).actions =~= seq![Action::Screen(cmd)]);
    assert(s.step(Event::Duplicate(label)).actions =~= seq![Action::Duplicate(label)]);
    assert(s.step(Event::Input(key)).actions =~= s.served(Event::Input(key)));
    assert(s.step(Event::Msg(ProcMsg::RerunHook(event))).actions =~= s.served(
        Event::Msg(ProcMsg::RerunHook(event)),
    ));
    assert(s.step(Event::Msg(ProcMsg::RerunCheck(i))).actions =~= s.served(
        Event::Msg(ProcMsg::RerunCheck(i)),
    ));
}

/// The number of a hook's task is kept under its event.
pub proof fn hook_tasks_are_kept_by_event<T: Copy>(map: HookMap<T>, value: T)
    ensures
        map.at(HookEvent::Started) == map.started,
        map.at(HookEvent::Running) == map.running,
        map.at(HookEvent::Unhealthy) == map.unhealthy,
        map.at(HookEvent::Stopped) == map.stopped,
        map.at(HookEvent::Failed) == map.failed,
        forall|e: HookEvent, f: HookEvent|
            (#[trigger] map.with(e, value).at(f)) == (if e == f {
                Some(value)
            } else {
                map.at(f)
            }),
        forall|e: HookEvent| (#[trigger] HookMap::<T>::none().at(e)) is None,
{
}

} // verus!
