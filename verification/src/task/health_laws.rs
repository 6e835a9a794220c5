//! What the health of a process says about the results of its checks.

use crate::config::health::HealthCheckModel;
use crate::task::health::{
    counted, counts_follow_the_results, exit_of, fails_in_a_row, health_invariant_is_kept,
    passes_in_a_row, reports_are_transitions, time_of_day, CheckPlan, CheckResult, CheckState,
    HealthEvent, HealthModel, OverallState,
};
use crate::config::vars::substituted;
use crate::kernel::task::TaskId;
use crate::term::screen::SharedVt;
use crate::text::digit_char;
use vstd::prelude::*;

verus! {

/// The check has passed as often in a row as it has to, once at least.
pub open spec fn passed_enough(def: HealthCheckModel, events: Seq<HealthEvent>, i: usize) -> bool {
    passes_in_a_row(events, i) >= 1 && passes_in_a_row(events, i) >= def.min_passes
}

/// The check has failed as often in a row as it may, once at least.
pub open spec fn failed_too_often(
    def: HealthCheckModel,
    events: Seq<HealthEvent>,
    i: usize,
) -> bool {
    fails_in_a_row(events, i) >= 1 && fails_in_a_row(events, i) >= def.retries
}

/// What is known of a check: what it came to last.
pub open spec fn verdict(def: HealthCheckModel, events: Seq<HealthEvent>, i: usize) -> CheckState
    decreases events.len(),
{
    if passed_enough(def, events, i) {
        CheckState::Passing
    } else if failed_too_often(def, events, i) {
        CheckState::Failing
    } else if events.len() == 0 {
        CheckState::Starting
    } else {
        verdict(def, events.drop_last(), i)
    }
}

pub open spec fn all_pass(defs: Seq<HealthCheckModel>, events: Seq<HealthEvent>) -> bool {
    forall|i: usize|
        0 <= i < defs.len() ==> #[trigger] verdict(defs[i as int], events, i) is Passing
}

pub open spec fn any_fails(defs: Seq<HealthCheckModel>, events: Seq<HealthEvent>) -> bool {
    exists|i: usize|
        0 <= i < defs.len() && #[trigger] verdict(defs[i as int], events, i) is Failing
}

/// At some time a check had failed too often.
pub open spec fn ever_failed(defs: Seq<HealthCheckModel>, events: Seq<HealthEvent>) -> bool
    decreases events.len(),
{
    any_fails(defs, events) || events.len() > 0 && ever_failed(defs, events.drop_last())
}

proof fn lemma_rows_exclude(events: Seq<HealthEvent>, i: usize)
    ensures
        passes_in_a_row(events, i) == 0 || fails_in_a_row(events, i) == 0,
    decreases events.len(),
{
    if events.len() > 0 {
        lemma_rows_exclude(events.drop_last(), i);
    }
}

/// A check passes or fails as the last of its rows of results that was long
/// enough says.
pub proof fn verdict_is_the_state(
    defs: Seq<HealthCheckModel>,
    events: Seq<HealthEvent>,
    i: usize,
)
    requires
        i < defs.len(),
    ensures
        HealthModel::fresh(defs).after_all(events).checks.len() == defs.len(),
        HealthModel::fresh(defs).after_all(events).checks[i as int].state == verdict(
            defs[i as int],
            events,
            i,
        ),
    decreases events.len(),
{
    let h = HealthModel::fresh(defs);
    let def = defs[i as int];
    counts_follow_the_results(defs, events, i);
    lemma_rows_exclude(events, i);
    if events.len() > 0 {
        let init = events.drop_last();
        verdict_is_the_state(defs, init, i);
        counts_follow_the_results(defs, init, i);
        lemma_rows_exclude(init, i);
    }
}

proof fn lemma_verdicts(defs: Seq<HealthCheckModel>, events: Seq<HealthEvent>)
    requires
        0 < defs.len() <= usize::MAX,
    ensures
        ({
            let h = HealthModel::fresh(defs).after_all(events);
            &&& h.checks.len() == defs.len()
            &&& h.all_passing() <==> all_pass(defs, events)
            &&& forall|i: usize|
                i < defs.len() ==> (#[trigger] verdict(defs[i as int], events, i))
                    == h.checks[i as int].state
        }),
{
    let h = HealthModel::fresh(defs).after_all(events);
    verdict_is_the_state(defs, events, 0);
    assert forall|i: usize| i < defs.len() implies (#[trigger] verdict(defs[i as int], events, i))
        == h.checks[i as int].state by {
        verdict_is_the_state(defs, events, i);
    }
    if h.all_passing() {
        assert forall|i: usize| 0 <= i < defs.len() implies #[trigger] verdict(
            defs[i as int],
            events,
            i,
        ) is Passing by {
            assert(h.checks[i as int].state is Passing);
        }
    }
    if all_pass(defs, events) {
        assert forall|i: int| 0 <= i < h.checks.len() implies (
        #[trigger] h.checks[i]).state is Passing by {
            assert(verdict(defs[i as usize as int], events, i as usize) is Passing);
        }
    }
}

proof fn lemma_fresh_is_kept(defs: Seq<HealthCheckModel>, events: Seq<HealthEvent>)
    ensures
        HealthModel::fresh(defs).after_all(events).wf(),
    decreases events.len(),
{
    let h = HealthModel::fresh(defs);
    if events.len() > 0 {
        lemma_fresh_is_kept(defs, events.drop_last());
        health_invariant_is_kept(h.after_all(events.drop_last()), events.last());
    } else if defs.len() > 0 {
        assert(h.checks[0].state is Starting);
    }
}

/// A process is healthy when all its checks pass. Otherwise it is unhealthy
/// from the moment on at which a check had failed too often, were it healthy
/// before or not, and until then its first health is waited for.
pub proof fn results_decide_the_health(defs: Seq<HealthCheckModel>, events: Seq<HealthEvent>)
    requires
        0 < defs.len() <= usize::MAX,
    ensures
        HealthModel::fresh(defs).after_all(events).overall == (if all_pass(defs, events) {
            OverallState::Healthy
        } else if ever_failed(defs, events) {
            OverallState::Unhealthy
        } else {
            OverallState::WaitingFirstHealthy
        }),
    decreases events.len(),
{
    let start = HealthModel::fresh(defs);
    let h = start.after_all(events);
    lemma_verdicts(defs, events);
    lemma_fresh_is_kept(defs, events);
    if events.len() == 0 {
        assert(verdict(defs[0], events, 0usize) is Starting);
        assert forall|i: usize| i < defs.len() implies !(#[trigger] verdict(
            defs[i as int],
            events,
            i,
        ) is Failing) by {}
    } else {
        let init = events.drop_last();
        let before = start.after_all(init);
        results_decide_the_health(defs, init);
        lemma_verdicts(defs, init);
        lemma_fresh_is_kept(defs, init);
        if any_fails(defs, events) {
            let i = choose|i: usize|
                0 <= i < defs.len() && #[trigger] verdict(defs[i as int], events, i) is Failing;
            lemma_failing_is_unhealthy(defs, events, i);
        }
        if all_pass(defs, init) && !any_fails(defs, events) {
            lemma_healthy_then_failed(defs, events);
        }
        if h.overall is Unhealthy && !(before.overall is Unhealthy) {
            let i = events.last()->Fail_0;
            assert(h.checks[i as int] == before.checks[i as int].after_fail());
            assert(verdict(defs[i as int], events, i) is Failing);
        }
    }
}

/// A check that fails makes the process unhealthy, from whatever it was.
proof fn lemma_failing_is_unhealthy(
    defs: Seq<HealthCheckModel>,
    events: Seq<HealthEvent>,
    i: usize,
)
    requires
        i < defs.len() <= usize::MAX,
        verdict(defs[i as int], events, i) is Failing,
    ensures
        HealthModel::fresh(defs).after_all(events).overall is Unhealthy,
    decreases events.len(),
{
    let start = HealthModel::fresh(defs);
    verdict_is_the_state(defs, events, i);
    lemma_fresh_is_kept(defs, events);
    if events.len() > 0 {
        let init = events.drop_last();
        let before = start.after_all(init);
        verdict_is_the_state(defs, init, i);
        lemma_fresh_is_kept(defs, init);
        if verdict(defs[i as int], init, i) is Failing {
            lemma_failing_is_unhealthy(defs, init, i);
        }
        assert(!start.after_all(events).all_passing());
    }
}

/// A process that was healthy stays so until a check fails too often.
proof fn lemma_healthy_then_failed(defs: Seq<HealthCheckModel>, events: Seq<HealthEvent>)
    requires
        0 < defs.len() <= usize::MAX,
        events.len() > 0,
        !any_fails(defs, events),
        all_pass(defs, events.drop_last()),
    ensures
        all_pass(defs, events),
{
    lemma_verdicts(defs, events);
    lemma_verdicts(defs, events.drop_last());
}

/// What a result tells of the process is how its health has changed: all
/// checks pass that did not before, or a check has failed too often where the
/// process was not unhealthy before.
pub proof fn changes_of_health_are_told(
    defs: Seq<HealthCheckModel>,
    events: Seq<HealthEvent>,
    e: HealthEvent,
)
    requires
        0 < defs.len() <= usize::MAX,
    ensures
        ({
            let h = HealthModel::fresh(defs).after_all(events);
            let outcome = h.after(e).1;
            let after = events.push(e);
            &&& outcome is BecameHealthy <==> all_pass(defs, after) && !all_pass(defs, events)
            &&& outcome is BecameUnhealthy <==> any_fails(defs, after) && (all_pass(defs, events)
                || !ever_failed(defs, events))
        }),
{
    let start = HealthModel::fresh(defs);
    let h = start.after_all(events);
    let after = events.push(e);
    assert(after.drop_last() =~= events);
    assert(start.after_all(after) == h.after(e).0);
    results_decide_the_health(defs, events);
    results_decide_the_health(defs, after);
    lemma_fresh_is_kept(defs, events);
    lemma_verdicts(defs, events);
    lemma_verdicts(defs, after);
    reports_are_transitions(h, e);
    if any_fails(defs, after) {
        let i = choose|i: usize|
            0 <= i < defs.len() && #[trigger] verdict(defs[i as int], after, i) is Failing;
        lemma_failing_is_unhealthy(defs, after, i);
    } else if all_pass(defs, events) {
        lemma_healthy_then_failed(defs, after);
    }
}

/// As soon as a check has failed as often in a row as it may, a process that
/// was not unhealthy is told to be so, were it healthy before or not.
pub proof fn too_many_failures_are_told(
    defs: Seq<HealthCheckModel>,
    events: Seq<HealthEvent>,
    i: usize,
)
    requires
        i < defs.len() <= usize::MAX,
        fails_in_a_row(events, i) + 1 >= defs[i as int].retries,
    ensures
        ({
            let h = HealthModel::fresh(defs).after_all(events);
            let (next, outcome) = h.after(HealthEvent::Fail(i));
            &&& next.overall is Unhealthy
            &&& outcome is BecameUnhealthy <==> !(h.overall is Unhealthy)
        }),
{
    let h = HealthModel::fresh(defs).after_all(events);
    let after = events.push(HealthEvent::Fail(i));
    assert(after.drop_last() =~= events);
    lemma_rows_exclude(after, i);
    assert(verdict(defs[i as int], after, i) is Failing);
    lemma_failing_is_unhealthy(defs, after, i);
    lemma_fresh_is_kept(defs, events);
    verdict_is_the_state(defs, events, i);
    reports_are_transitions(h, HealthEvent::Fail(i));
}

/// As long as no check has failed too often and not all of them have passed
/// often enough, nothing is told of the process.
pub proof fn few_results_tell_nothing(
    defs: Seq<HealthCheckModel>,
    events: Seq<HealthEvent>,
    i: usize,
)
    requires
        i < defs.len() <= usize::MAX,
        passes_in_a_row(events, i) + 1 < defs[i as int].min_passes,
        fails_in_a_row(events, i) + 1 < defs[i as int].retries,
    ensures
        HealthModel::fresh(defs).after_all(events).after(HealthEvent::Pass(i)).1 is Noop,
        HealthModel::fresh(defs).after_all(events).after(HealthEvent::Fail(i)).1 is Noop,
{
    counts_follow_the_results(defs, events, i);
}

/// A success counts at all times, anything else once the start period is over,
/// and each for the check that was run.
pub proof fn results_count_for_their_check(idx: usize, result: CheckResult, starting: bool)
    ensures
        result == CheckResult::Ok(true) <==> counted(idx, result, starting) matches Some(
            HealthEvent::Pass(_),
        ),
        counted(idx, result, starting) is None <==> starting && result != CheckResult::Ok(true),
        counted(idx, result, starting) matches Some(HealthEvent::Pass(i)) ==> i == idx,
        counted(idx, result, starting) matches Some(HealthEvent::Fail(i)) ==> i == idx,
        exit_of(result) == 0 <==> result == CheckResult::Ok(true),
        result is Err <==> exit_of(result) == 254,
        result == CheckResult::Ok(false) <==> exit_of(result) == 1,
{
}

/// What is run for a check is its command, as often and as long as it says,
/// and it reports to its own terminal and task.
pub proof fn plan_is_that_of_its_check(
    plan: CheckPlan,
    i: int,
    def: HealthCheckModel,
    vars: Map<Seq<char>, String>,
    out_vts: Seq<Option<SharedVt>>,
    ids: Seq<Option<TaskId>>,
)
    requires
        0 <= i,
        plan.follows(i, def, vars, out_vts, ids),
    ensures
        plan.idx == i,
        plan.interval == def.interval,
        plan.timeout == def.timeout,
        plan.start_period == def.start_period,
        plan.cmd@ == substituted(def.cmd, vars),
        i < out_vts.len() ==> plan.out_vt == out_vts[i],
        i < ids.len() ==> plan.task_id == ids[i],
        i >= out_vts.len() ==> plan.out_vt is None,
        i >= ids.len() ==> plan.task_id is None,
{
}

pub open spec fn digit_value(c: char) -> int {
    c as int - '0' as int
}

/// The hours, minutes and seconds that are shown are those of the day, and
/// stand where a reader looks for them.
pub proof fn time_reads_back(secs: u64)
    ensures
        ({
            let t = time_of_day(secs);
            let h = digit_value(t[0]) * 10 + digit_value(t[1]);
            let m = digit_value(t[3]) * 10 + digit_value(t[4]);
            let s = digit_value(t[6]) * 10 + digit_value(t[7]);
            &&& t.len() >= 8 && t[2] == ':' && t[5] == ':'
            &&& 0 <= h < 24 && 0 <= m < 60 && 0 <= s < 60
            &&& h * 3600 + m * 60 + s == secs % 86400
        }),
{
    let t = time_of_day(secs);
    let (h, m, s) = (secs / 3600 % 24, secs / 60 % 60, secs % 60);
    assert(t[0] == digit_char((h / 10 % 10) as nat));
    assert(t[1] == digit_char((h % 10) as nat));
    assert(t[3] == digit_char((m / 10 % 10) as nat));
    assert(t[4] == digit_char((m % 10) as nat));
    assert(t[6] == digit_char((s / 10 % 10) as nat));
    assert(t[7] == digit_char((s % 10) as nat));
    assert(h * 3600 + m * 60 + s == secs % 86400);
}

} // verus!
