//! What holds of a process of the classic interface over any sequence of
//! events.

use crate::kernel::task::TaskStatus;
use crate::mprocs::proc::hooks::hook_outcome;
use crate::mprocs::proc::laws::{async_hook, is_stop, no_stop};
use crate::mprocs::proc::msg::{ProcEvent, ProcMsg};
use crate::mprocs::proc::proc::{
    only_if, report, status, Action, Event, HookUse, Phase, ProcModel, ProcState, Step,
};
use crate::task::machine::TaskReport;
use vstd::prelude::*;

verus! {

/// What a process does in response to events that come one after the other.
pub open spec fn run(s: ProcModel, events: Seq<Event>) -> Step
    decreases events.len(),
{
    if events.len() == 0 {
        s.acts(Seq::empty())
    } else {
        let before = run(s, events.drop_last());
        before.state.step(events.last()).after(before.actions)
    }
}

/// How many of the actions report the end of the process.
pub open spec fn stops(actions: Seq<Action>) -> nat
    decreases actions.len(),
{
    if actions.len() == 0 {
        0
    } else {
        stops(actions.drop_last()) + if is_stop(actions.last()) {
            1nat
        } else {
            0
        }
    }
}

proof fn lemma_stops_of_both(a: Seq<Action>, b: Seq<Action>)
    ensures
        stops(a + b) == stops(a) + stops(b),
    decreases b.len(),
{
    if b.len() == 0 {
        assert(a + b =~= a);
    } else {
        lemma_stops_of_both(a, b.drop_last());
        assert((a + b).drop_last() =~= a + b.drop_last());
        assert((a + b).last() == b.last());
    }
}

proof fn lemma_stops_of_none(a: Seq<Action>)
    requires
        no_stop(a),
    ensures
        stops(a) == 0,
    decreases a.len(),
{
    if a.len() > 0 {
        let t = a.drop_last();
        assert forall|i: int| 0 <= i < t.len() implies !is_stop(#[trigger] t[i]) by {
            assert(!is_stop(a[i]));
        }
        lemma_stops_of_none(t);
        assert(!is_stop(a[a.len() - 1]));
    }
}

/// The event is the end of the output of a process.
pub open spec fn is_output_end(event: Event) -> bool {
    event is ReadError || event == Event::Read(0)
}

/// The step ends with the report of the end, or has none.
spec fn ends_well(st: Step) -> bool {
    if st.state.inst.up() {
        no_stop(st.actions)
    } else {
        &&& st.actions.len() > 0
        &&& no_stop(st.actions.drop_last())
        &&& st.state.inst is Present
        &&& st.actions.last() == report(TaskReport::TaskStopped(st.state.inst.code()->0))
    }
}

/// How a process that is up comes from one step to the next.
spec fn goes_on(s: ProcModel, next: ProcModel, event: Event) -> bool {
    &&& next.inst is Present
    &&& !(next.phase is Spawning)
    &&& next.inst->0.stdout_eof ==> s.inst->0.stdout_eof || is_output_end(event)
    &&& next.inst->0.exit_code matches Some(code) ==> s.inst->0.exit_code == Some(code)
        || s.phase == Phase::Hook(HookUse::Stopped(code)) || event == Event::Internal(
        ProcEvent::Exited(code),
    )
    &&& next.phase matches Phase::Hook(HookUse::Stopped(code)) ==> event == Event::Internal(
        ProcEvent::Exited(code),
    ) || s.phase == next.phase
}

proof fn lemma_up_hooks(s: ProcModel, u: HookUse, ok: bool)
    requires
        s.inst.up(),
        !(s.phase is Spawning),
    ensures
        ends_well(s.notifies(u)),
        ends_well(s.resumes(u, ok)),
        ends_well(s.consults(u)),
        keeps(s, u, s.notifies(u).state),
        keeps(s, u, s.resumes(u, ok).state),
        keeps(s, u, s.consults(u).state),
{
    reveal(ProcModel::waits_for);
    reveal(ProcModel::concluded);
    reveal(ProcModel::notifies);
    reveal(ProcModel::started);
    reveal(ProcModel::running);
    reveal(ProcModel::consults);
    reveal(ProcModel::resumes);
    if let HookUse::Stopped(code) = u {
        let st = s.concluded(u);
        if !st.state.inst.up() {
            assert(st.actions.drop_last() =~= seq![Action::Reap]);
        }
    }
}

/// What the hook of a use leaves of a process.
spec fn keeps(s: ProcModel, u: HookUse, next: ProcModel) -> bool {
    &&& next.inst is Present
    &&& !(next.phase is Spawning)
    &&& next.inst->0.stdout_eof == s.inst->0.stdout_eof
    &&& next.inst->0.exit_code == s.inst->0.exit_code || (u matches HookUse::Stopped(code)
        && next.inst->0.exit_code == Some(code))
    &&& next.phase matches Phase::Hook(HookUse::Stopped(code)) ==> u == HookUse::Stopped(code)
}

proof fn lemma_ends_well_after(first: Seq<Action>, st: Step)
    requires
        no_stop(first),
        ends_well(st),
    ensures
        ends_well(st.after(first)),
{
    let all = first + st.actions;
    if st.state.inst.up() {
        assert forall|i: int| 0 <= i < all.len() implies !is_stop(#[trigger] all[i]) by {
            if i < first.len() {
                assert(!is_stop(first[i]));
            } else {
                assert(!is_stop(st.actions[i - first.len()]));
            }
        }
    } else {
        let t = all.drop_last();
        assert forall|i: int| 0 <= i < t.len() implies !is_stop(#[trigger] t[i]) by {
            if i < first.len() {
                assert(!is_stop(first[i]));
            } else {
                assert(!is_stop(st.actions.drop_last()[i - first.len()]));
            }
        }
    }
}

proof fn lemma_step(s: ProcModel, event: Event)
    requires
        s.inst.up(),
        !(s.phase is Spawning),
    ensures
        ends_well(s.step(event)),
        goes_on(s, s.step(event).state, event),
{
    match (s.phase, event) {
        (Phase::Hook(u), Event::HookFinished(res)) => {
            let (ok, code) = hook_outcome(res, async_hook(s, u));
            lemma_up_hooks(s, u, ok);
            let first = s.hook_report(ProcModel::event_of(u), TaskReport::TaskStopped(code));
            assert(no_stop(first));
            lemma_ends_well_after(first, s.resumes(u, ok));
        },
        (Phase::Idle, Event::Internal(ProcEvent::Exited(code))) => {
            let gone = ProcModel { health: None, ..s };
            let u = HookUse::Stopped(code);
            lemma_up_hooks(gone, u, true);
            let first = only_if(s.health is Some, Action::StopChecks);
            assert(no_stop(first));
            lemma_ends_well_after(first, gone.notifies(u));
        },
        (Phase::Idle, Event::Internal(ProcEvent::Started)) => {
            lemma_up_hooks(s, HookUse::Started, true);
        },
        (Phase::Idle, Event::Msg(ProcMsg::RerunHook(e))) => {
            lemma_up_hooks(s, HookUse::Rerun(e), true);
        },
        (Phase::Idle, Event::Health(e)) => {
            if s.health is Some {
                let next = ProcModel { health: Some(s.health->0.after(e).0), ..s };
                lemma_up_hooks(next, HookUse::Running, true);
                lemma_up_hooks(next, HookUse::Unhealthy, true);
                let first = seq![status(TaskStatus::Unhealthy)];
                assert(no_stop(first));
                lemma_ends_well_after(first, next.notifies(HookUse::Unhealthy));
            }
        },
        (Phase::Idle, Event::Read(_)) => {
            let st = s.step(event);
            if !st.state.inst.up() {
                assert(st.actions.drop_last() =~= Seq::empty());
            }
        },
        (Phase::Idle, Event::ReadError) => {
            let st = s.step(event);
            if !st.state.inst.up() {
                assert(st.actions.drop_last() =~= Seq::empty());
            }
        },
        _ => {},
    }
}

/// The process exited with a code, and its output has ended, as far as they
/// are known.
spec fn heard_of(s: ProcModel, events: Seq<Event>) -> bool {
    &&& s.inst->0.stdout_eof ==> exists|j: int|
        0 <= j < events.len() && is_output_end(#[trigger] events[j])
    &&& s.inst->0.exit_code matches Some(code) ==> events.contains(
        Event::Internal(ProcEvent::Exited(code)),
    )
    &&& s.phase matches Phase::Hook(HookUse::Stopped(code)) ==> events.contains(
        Event::Internal(ProcEvent::Exited(code)),
    )
}

proof fn lemma_heard_of(s: ProcModel, next: ProcModel, events: Seq<Event>)
    requires
        events.len() > 0,
        heard_of(s, events.drop_last()),
        goes_on(s, next, events.last()),
    ensures
        heard_of(next, events),
{
    let init = events.drop_last();
    assert(events[events.len() - 1] == events.last());
    if next.inst->0.stdout_eof && s.inst->0.stdout_eof {
        let j = choose|j: int| 0 <= j < init.len() && is_output_end(#[trigger] init[j]);
        assert(is_output_end(events[j]));
    }
    assert forall|e: Event| init.contains(e) implies #[trigger] events.contains(e) by {
        let i = choose|i: int| 0 <= i < init.len() && init[i] == e;
        assert(events[i] == e);
    }
}

proof fn lemma_run(s: ProcModel, events: Seq<Event>)
    requires
        s.phase is Idle,
        s.inst matches ProcState::Present(inst) && inst.exit_code is None && !inst.stdout_eof,
        forall|k: int|
            0 <= k < events.len() ==> (#[trigger] run(s, events.take(k))).state.inst.up(),
    ensures
        ({
            let r = run(s, events);
            &&& r.state.inst is Present
            &&& !(r.state.phase is Spawning)
            &&& heard_of(r.state, events)
            &&& if r.state.inst.up() {
                stops(r.actions) == 0
            } else {
                &&& stops(r.actions) == 1
                &&& r.actions.last() == report(
                    TaskReport::TaskStopped(r.state.inst.code()->0),
                )
            }
        }),
    decreases events.len(),
{
    if events.len() > 0 {
        let init = events.drop_last();
        let before = run(s, init);
        assert(init =~= events.take(events.len() - 1));
        assert forall|k: int| 0 <= k < init.len() implies (#[trigger] run(
            s,
            init.take(k),
        )).state.inst.up() by {
            assert(init.take(k) =~= events.take(k));
        }
        lemma_run(s, init);
        let st = before.state.step(events.last());
        lemma_step(before.state, events.last());
        lemma_heard_of(before.state, st.state, events);
        lemma_stops_of_both(before.actions, st.actions);
        if st.state.inst.up() {
            lemma_stops_of_none(st.actions);
        } else {
            lemma_stops_of_none(st.actions.drop_last());
        }
    }
}

/// The end of a process is reported exactly once, when it exited and its
/// output has ended, and with its exit code: as long as the process is up
/// nothing is reported of its end, and what makes it go is followed by the
/// report.
pub proof fn stop_is_reported_once(s: ProcModel, events: Seq<Event>)
    requires
        s.phase is Idle,
        s.inst matches ProcState::Present(inst) && inst.exit_code is None && !inst.stdout_eof,
        forall|k: int|
            0 <= k < events.len() ==> (#[trigger] run(s, events.take(k))).state.inst.up(),
    ensures
        ({
            let r = run(s, events);
            if r.state.inst.up() {
                stops(r.actions) == 0
            } else {
                let code = r.state.inst.code()->0;
                &&& stops(r.actions) == 1
                &&& r.actions.last() == report(TaskReport::TaskStopped(code))
                &&& events.contains(Event::Internal(ProcEvent::Exited(code)))
                &&& exists|j: int| 0 <= j < events.len() && is_output_end(#[trigger] events[j])
            }
        }),
{
    lemma_run(s, events);
}

} // verus!
