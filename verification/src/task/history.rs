//! What holds of a process task over any sequence of events.

use crate::task::hooks::{hook_verdict, HOOK_IO_ERROR};
use crate::task::laws::{
    is_end, lemma_no_end_in_response, no_end, settings_are_kept, task_invariant_is_kept,
};
use crate::task::machine::{
    report, Action, Event, HookUse, Phase, Step, TaskModel, TaskReport, SPAWN_FAILED,
};
use vstd::prelude::*;

verus! {

/// What a task does in response to events that come one after the other.
pub open spec fn run(s: TaskModel, events: Seq<Event>) -> Step
    decreases events.len(),
{
    if events.len() == 0 {
        s.acts(Seq::empty())
    } else {
        let before = run(s, events.drop_last());
        before.state.step(events.last()).after(before.actions)
    }
}

/// How many of the actions report the end of a process.
pub open spec fn ends(actions: Seq<Action>) -> nat
    decreases actions.len(),
{
    if actions.len() == 0 {
        0
    } else {
        ends(actions.drop_last()) + if is_end(actions.last()) {
            1nat
        } else {
            0
        }
    }
}

/// How many of the actions ask for a process to be spawned.
pub open spec fn spawns(actions: Seq<Action>) -> nat
    decreases actions.len(),
{
    if actions.len() == 0 {
        0
    } else {
        spawns(actions.drop_last()) + if actions.last() is SpawnProcess {
            1nat
        } else {
            0
        }
    }
}

/// Whether a process was asked for whose end was not reported yet.
pub open spec fn open_end(s: TaskModel) -> nat {
    if s.process || s.phase is Spawning {
        1
    } else {
        0
    }
}

spec fn no_spawn(actions: Seq<Action>) -> bool {
    forall|i: int| 0 <= i < actions.len() ==> !((#[trigger] actions[i]) is SpawnProcess)
}

proof fn lemma_counts_of_both(a: Seq<Action>, b: Seq<Action>)
    ensures
        ends(a + b) == ends(a) + ends(b),
        spawns(a + b) == spawns(a) + spawns(b),
    decreases b.len(),
{
    if b.len() == 0 {
        assert(a + b =~= a);
    } else {
        lemma_counts_of_both(a, b.drop_last());
        assert((a + b).drop_last() =~= a + b.drop_last());
        assert((a + b).last() == b.last());
    }
}

proof fn lemma_counts_of_none(a: Seq<Action>)
    ensures
        no_end(a) ==> ends(a) == 0,
        no_spawn(a) ==> spawns(a) == 0,
    decreases a.len(),
{
    if a.len() > 0 {
        let t = a.drop_last();
        assert(forall|i: int| 0 <= i < t.len() ==> #[trigger] t[i] == a[i]);
        lemma_counts_of_none(t);
        if no_end(a) {
            assert(no_end(t)) by {
                assert forall|i: int| 0 <= i < t.len() implies !is_end(#[trigger] t[i]) by {
                    assert(!is_end(a[i]));
                }
            }
            assert(!is_end(a[a.len() - 1]));
        }
        if no_spawn(a) {
            assert(no_spawn(t)) by {
                assert forall|i: int| 0 <= i < t.len() implies !(#[trigger] t[i] is SpawnProcess) by {
                    assert(!(a[i] is SpawnProcess));
                }
            }
            assert(!(a[a.len() - 1] is SpawnProcess));
        }
    }
}

proof fn lemma_hooks_keep_instance(s: TaskModel, u: HookUse, ok: bool)
    requires
        !(s.phase is Spawning),
    ensures
        same_instance(s.notifies(u).state, s),
        same_instance(s.resumes(u, ok).state, s),
        same_instance(s.consults(u).state, s),
        no_spawn(s.notifies(u).actions),
        no_spawn(s.resumes(u, ok).actions),
        no_spawn(s.consults(u).actions),
{
    reveal(TaskModel::waits_for);
    reveal(TaskModel::concluded);
    reveal(TaskModel::notifies);
    reveal(TaskModel::started);
    reveal(TaskModel::running);
    reveal(TaskModel::consults);
    reveal(TaskModel::resumes);
    assert(no_spawn(s.waits_for(u).actions));
    assert(no_spawn(s.concluded(u).actions));
    assert(no_spawn(s.waits_for(HookUse::FailedStart).actions));
    assert(no_spawn(s.concluded(HookUse::FailedStart).actions));
    assert(no_spawn(s.waits_for(HookUse::FailedRunning).actions));
    assert(no_spawn(s.concluded(HookUse::FailedRunning).actions));
    assert(no_spawn(s.waits_for(HookUse::Running).actions));
    assert(no_spawn(s.running(true).actions));
    assert(no_spawn(s.started(true).actions));
}

/// The process is the same one, as far as it has come, and none is asked for.
spec fn same_instance(a: TaskModel, b: TaskModel) -> bool {
    &&& a.process == b.process
    &&& a.exit_code == b.exit_code
    &&& a.stdout_eof == b.stdout_eof
    &&& !(a.phase is Spawning)
}

/// The event is the end of the output of a process.
pub open spec fn is_output_end(event: Event) -> bool {
    event is ReadError || event == Event::Read(0)
}

proof fn lemma_response(s: TaskModel, event: Event)
    requires
        s.wf(),
    ensures
        ({
            let r = s.responds(event);
            &&& ends(r.actions) + open_end(r.state) == spawns(r.actions) + open_end(s)
            &&& s.process ==> {
                &&& r.state.process
                &&& ends(r.actions) == 0
                &&& r.state.exit_code == s.exit_code || (event matches Event::Exited(code)
                    && r.state.exit_code == Some(code))
                &&& r.state.stdout_eof ==> s.stdout_eof || is_output_end(event)
            }
        }),
{
    let r = s.responds(event);
    lemma_no_end_in_response(s, event);
    lemma_counts_of_none(r.actions);
    lemma_counts_of_none(Seq::empty());
    match (s.phase, event) {
        (Phase::Spawning, Event::Spawned(pid)) => {
            if let Some(pid) = pid {
                let fresh = TaskModel {
                    process: true,
                    exit_code: None,
                    stdout_eof: false,
                    reported_running: false,
                    phase: Phase::Idle,
                    ..s
                };
                lemma_hooks_keep_instance(fresh, HookUse::Started, true);
            } else {
                let stop = report(TaskReport::TaskStopped(SPAWN_FAILED));
                assert(r.actions.drop_last() =~= Seq::empty());
                assert(r.actions.last() == stop);
            }
        },
        (Phase::Hook(u), Event::HookFinished(res)) => {
            lemma_hooks_keep_instance(s, u, hook_verdict(res, HOOK_IO_ERROR).0);
        },
        (Phase::Idle, Event::Exited(code)) => {
            let gone = TaskModel { exit_code: Some(code), reported_running: false, ..s }.unchecked();
            lemma_hooks_keep_instance(gone.state, HookUse::Stopped, true);
        },
        (Phase::Idle, Event::Health(e)) => {
            if s.health is Some {
                let next = TaskModel { health: Some(s.health->0.after(e).0), ..s };
                lemma_hooks_keep_instance(next, HookUse::Running, true);
                lemma_hooks_keep_instance(next, HookUse::Unhealthy, true);
            }
        },
        (Phase::Idle, Event::Start) => {
            if !s.process {
                assert(r.actions.drop_last() =~= Seq::empty());
                assert(r.actions.last() is SpawnProcess);
            }
        },
        _ => {},
    }
    if !(s.phase is Idle && event is Start && !s.process) {
        assert(no_spawn(r.actions));
    }
}

proof fn lemma_step(s: TaskModel, event: Event)
    requires
        s.wf(),
    ensures
        ({
            let next = s.responds(event).state;
            let st = s.step(event);
            &&& st.state.wf()
            &&& ends(st.actions) + open_end(st.state) == spawns(st.actions) + open_end(s)
            &&& s.process ==> ends(st.actions) == if next.is_over() {
                1nat
            } else {
                0
            }
            &&& !st.state.is_over()
        }),
{
    task_invariant_is_kept(s, event);
    lemma_response(s, event);
    let r = s.responds(event);
    let tail = r.state.settled().actions;
    lemma_counts_of_both(r.actions, tail);
    lemma_counts_of_none(tail);
    if r.state.is_over() {
        let drop = seq![Action::DropProcess];
        lemma_counts_of_none(drop);
        assert(tail.drop_last() =~= drop);
        assert(is_end(tail.last()));
        assert(!(tail.last() is SpawnProcess));
    }
}

/// Whatever happens, the ends that are reported are as many as the processes
/// that were asked for, but for the one that there is now or is being spawned:
/// no end is reported twice and none is left out.
pub proof fn every_process_ends_once(s: TaskModel, events: Seq<Event>)
    requires
        s.wf(),
    ensures
        run(s, events).state.wf(),
        ends(run(s, events).actions) + open_end(run(s, events).state) == spawns(
            run(s, events).actions,
        ) + open_end(s),
    decreases events.len(),
{
    if events.len() > 0 {
        let before = run(s, events.drop_last());
        every_process_ends_once(s, events.drop_last());
        lemma_step(before.state, events.last());
        lemma_counts_of_both(before.actions, before.state.step(events.last()).actions);
    }
}

proof fn lemma_instance(s: TaskModel, events: Seq<Event>)
    requires
        s.wf(),
        s.process,
        s.exit_code is None,
        !s.stdout_eof,
        forall|k: int|
            0 <= k < events.len() ==> (#[trigger] run(s, events.take(k))).state.process,
    ensures
        ({
            let r = run(s, events);
            &&& r.state.wf()
            &&& r.state.oneshot == s.oneshot
            &&& !r.state.is_over()
            &&& r.state.exit_code matches Some(code) ==> events.contains(Event::Exited(code))
            &&& r.state.stdout_eof ==> exists|j: int|
                0 <= j < events.len() && is_output_end(#[trigger] events[j])
            &&& if r.state.process {
                ends(r.actions) == 0
            } else {
                &&& ends(r.actions) == 1
                &&& r.state.exit_code is Some && r.state.stdout_eof
                &&& r.actions.last() == report(r.state.end_report())
            }
        }),
    decreases events.len(),
{
    if events.len() > 0 {
        let init = events.drop_last();
        let before = run(s, init);
        assert(init =~= events.take(events.len() - 1));
        assert forall|k: int| 0 <= k < init.len() implies (#[trigger] run(
            s,
            init.take(k),
        )).state.process by {
            assert(init.take(k) =~= events.take(k));
        }
        lemma_instance(s, init);
        let event = events.last();
        let m = before.state;
        assert(m.process);
        lemma_step(m, event);
        lemma_response(m, event);
        settings_are_kept(m, event);
        lemma_counts_of_both(before.actions, m.step(event).actions);
        let r = run(s, events);
        let next = m.responds(event).state;
        assert(events[events.len() - 1] == event);
        if let Some(code) = r.state.exit_code {
            if m.exit_code == Some(code) {
                let i = choose|i: int| 0 <= i < init.len() && init[i] == Event::Exited(code);
                assert(events[i] == Event::Exited(code));
            }
            assert(events.contains(Event::Exited(code)));
        }
        if r.state.stdout_eof {
            if m.stdout_eof {
                let j = choose|j: int| 0 <= j < init.len() && is_output_end(#[trigger] init[j]);
                assert(is_output_end(events[j]));
            } else {
                assert(is_output_end(events[events.len() - 1]));
            }
        }
        if next.is_over() {
            assert(r.actions.last() == report(next.end_report()));
        }
    }
}

/// The end of a process that is no one-shot is reported exactly once, when it
/// exited and its output has ended, and with its exit code: as long as the
/// process is there nothing is reported of its end, and what makes it go is
/// followed by the report.
pub proof fn stop_is_reported_once(s: TaskModel, events: Seq<Event>)
    requires
        s.wf(),
        !s.oneshot,
        s.process,
        s.exit_code is None,
        !s.stdout_eof,
        forall|k: int|
            0 <= k < events.len() ==> (#[trigger] run(s, events.take(k))).state.process,
    ensures
        ({
            let r = run(s, events);
            if r.state.process {
                &&& ends(r.actions) == 0
                &&& r.state.phase is Idle && r.state.stdout_eof ==> r.state.exit_code is None
            } else {
                let code = r.state.exit_code->0;
                &&& ends(r.actions) == 1
                &&& r.actions.last() == report(TaskReport::TaskStopped(code))
                &&& events.contains(Event::Exited(code))
                &&& exists|j: int| 0 <= j < events.len() && is_output_end(#[trigger] events[j])
            }
        }),
{
    lemma_instance(s, events);
}

} // verus!
