//! The health of a process, from the results of its checks.
//!
//! A process is healthy when every check has passed often enough in a row and
//! none has since failed more often in a row than it may.

use crate::config::health::{at_least_one, check_views, HealthCheckDef, HealthCheckModel};
use crate::config::vars::{substitute_vars, substituted, Vars};
use crate::kernel::task::TaskId;
use crate::term::screen::SharedVt;
use crate::text::{digit_char, digit_to_char};
use vstd::prelude::*;

verus! {

/// A result of one check that counts.
#[derive(Clone, Copy, Debug, PartialEq, Eq, Structural)]
pub enum HealthEvent {
    Pass(usize),
    Fail(usize),
}

/// What a result means for the process as a whole.
#[derive(Debug, PartialEq, Eq, Clone, Copy, Structural)]
pub enum AggregateOutcome {
    /// All checks pass, for the first time or again.
    BecameHealthy,
    /// A check has failed too often in a row.
    BecameUnhealthy,
    Noop,
}

#[derive(Debug, Clone, Copy, PartialEq, Eq, Structural)]
pub enum CheckState {
    /// Has neither passed nor failed often enough yet.
    Starting,
    Passing,
    Failing,
}

#[derive(Debug, Clone, Copy, PartialEq, Eq, Structural)]
pub struct PerCheck {
    pub state: CheckState,
    pub consecutive_fails: u32,
    pub consecutive_passes: u32,
    pub retries: u32,
    pub min_passes: u32,
}

#[derive(Debug, Clone, Copy, PartialEq, Eq, Structural)]
pub enum OverallState {
    WaitingFirstHealthy,
    Healthy,
    Unhealthy,
}

/// The health of the process so far.
pub struct HealthRunner {
    pub per_check: Vec<PerCheck>,
    pub overall: OverallState,
}

#[verifier::ext_equal]
pub struct HealthModel {
    pub checks: Seq<PerCheck>,
    pub overall: OverallState,
}

impl View for HealthRunner {
    type V = HealthModel;

    open spec fn view(&self) -> HealthModel {
        HealthModel { checks: self.per_check@, overall: self.overall }
    }
}

/// One more, up to the largest count.
pub open spec fn one_more(n: u32) -> u32 {
    if n < u32::MAX {
        (n + 1) as u32
    } else {
        n
    }
}

impl PerCheck {
    /// A check that has not run yet.
    pub open spec fn fresh(def: HealthCheckModel) -> PerCheck {
        PerCheck {
            state: CheckState::Starting,
            consecutive_fails: 0,
            consecutive_passes: 0,
            retries: at_least_one(def.retries),
            min_passes: at_least_one(def.min_passes),
        }
    }

    pub open spec fn after_pass(self) -> PerCheck {
        let passes = one_more(self.consecutive_passes);
        PerCheck {
            consecutive_fails: 0,
            consecutive_passes: passes,
            state: if passes >= self.min_passes {
                CheckState::Passing
            } else {
                self.state
            },
            ..self
        }
    }

    pub open spec fn after_fail(self) -> PerCheck {
        let fails = one_more(self.consecutive_fails);
        PerCheck {
            consecutive_passes: 0,
            consecutive_fails: fails,
            state: if fails >= self.retries {
                CheckState::Failing
            } else {
                self.state
            },
            ..self
        }
    }
}

impl HealthModel {
    pub open spec fn fresh(defs: Seq<HealthCheckModel>) -> HealthModel {
        HealthModel {
            checks: defs.map_values(|d: HealthCheckModel| PerCheck::fresh(d)),
            overall: OverallState::WaitingFirstHealthy,
        }
    }

    pub open spec fn all_passing(self) -> bool {
        forall|i: int| 0 <= i < self.checks.len() ==> (#[trigger] self.checks[i]).state is Passing
    }

    /// The process counts as healthy exactly when every check passes.
    pub open spec fn wf(self) -> bool {
        self.checks.len() > 0 ==> (self.overall is Healthy <==> self.all_passing())
    }

    /// The health after a result, and what is worth telling about it.
    pub open spec fn after(self, event: HealthEvent) -> (HealthModel, AggregateOutcome) {
        match event {
            HealthEvent::Pass(i) => if i >= self.checks.len() {
                (self, AggregateOutcome::Noop)
            } else {
                let check = self.checks[i as int].after_pass();
                let next = HealthModel { checks: self.checks.update(i as int, check), ..self };
                if check.consecutive_passes >= check.min_passes && next.all_passing()
                    && !(self.overall is Healthy) {
                    (
                        HealthModel { overall: OverallState::Healthy, ..next },
                        AggregateOutcome::BecameHealthy,
                    )
                } else {
                    (next, AggregateOutcome::Noop)
                }
            },
            HealthEvent::Fail(i) => if i >= self.checks.len() {
                (self, AggregateOutcome::Noop)
            } else {
                let check = self.checks[i as int].after_fail();
                let next = HealthModel { checks: self.checks.update(i as int, check), ..self };
                if check.consecutive_fails >= check.retries && !(self.overall is Unhealthy) {
                    (
                        HealthModel { overall: OverallState::Unhealthy, ..next },
                        AggregateOutcome::BecameUnhealthy,
                    )
                } else {
                    (next, AggregateOutcome::Noop)
                }
            },
        }
    }

    /// The health after a series of results.
    pub open spec fn after_all(self, events: Seq<HealthEvent>) -> HealthModel
        decreases events.len(),
    {
        if events.len() == 0 {
            self
        } else {
            self.after_all(events.drop_last()).after(events.last()).0
        }
    }
}

/// A check that is run again and again, as it is handed to the shell.
pub struct CheckPlan {
    pub idx: usize,
    pub cmd: String,
    pub interval: u64,
    pub timeout: u64,
    pub start_period: u64,
    pub out_vt: Option<SharedVt>,
    pub task_id: Option<TaskId>,
}

/// The element at `i`, or nothing.
pub open spec fn at_or_none<T>(s: Seq<Option<T>>, i: int) -> Option<T> {
    if i < s.len() {
        s[i]
    } else {
        None
    }
}

impl CheckPlan {
    /// The plan of the check `def`.
    pub open spec fn follows(
        self,
        i: int,
        def: HealthCheckModel,
        vars: Map<Seq<char>, String>,
        out_vts: Seq<Option<SharedVt>>,
        ids: Seq<Option<TaskId>>,
    ) -> bool {
        &&& self.idx == i
        &&& self.cmd@ == substituted(def.cmd, vars)
        &&& self.interval == def.interval
        &&& self.timeout == def.timeout
        &&& self.start_period == def.start_period
        &&& self.out_vt == at_or_none(out_vts, i)
        &&& self.task_id == at_or_none(ids, i)
    }
}

fn get_or_none<T: Copy>(s: &[Option<T>], i: usize) -> (r: Option<T>)
    ensures
        r == at_or_none(s@, i as int),
{
    if i < s.len() {
        s[i]
    } else {
        None
    }
}

fn one_at_least(n: u32) -> (r: u32)
    ensures
        r == at_least_one(n),
{
    if n > 1 {
        n
    } else {
        1
    }
}

/// The checks of a process, as they are handed to the shell.
pub fn plan_checks(
    checks: &[HealthCheckDef],
    vars: &Vars,
    out_vts: &[Option<SharedVt>],
    check_task_ids: &[Option<TaskId>],
) -> (plans: Vec<CheckPlan>)
    requires
        vars.wf(),
    ensures
        plans@.len() == checks@.len(),
        forall|i: int|
            0 <= i < checks@.len() ==> (#[trigger] plans@[i]).follows(
                i,
                checks@[i]@,
                vars@,
                out_vts@,
                check_task_ids@,
            ),
{
    let mut plans: Vec<CheckPlan> = Vec::new();
    let mut idx: usize = 0;
    while idx < checks.len()
        invariant
            idx <= checks@.len(),
            vars.wf(),
            plans@.len() == idx,
            forall|i: int|
                0 <= i < idx ==> (#[trigger] plans@[i]).follows(
                    i,
                    checks@[i]@,
                    vars@,
                    out_vts@,
                    check_task_ids@,
                ),
        decreases checks@.len() - idx,
    {
        let def = &checks[idx];
        plans.push(
            CheckPlan {
                idx,
                cmd: substitute_vars(def.cmd.as_str(), vars),
                interval: def.interval,
                timeout: def.timeout,
                start_period: def.start_period,
                out_vt: get_or_none(out_vts, idx),
                task_id: get_or_none(check_task_ids, idx),
            },
        );
        idx += 1;
    }
    plans
}

impl HealthRunner {
    /// The health of a process that was just spawned.
    pub fn new(checks: &[HealthCheckDef]) -> (r: Self)
        ensures
            r@ == HealthModel::fresh(check_views(checks@)),
            r@.wf(),
    {
        let ghost defs = check_views(checks@);
        let mut per_check: Vec<PerCheck> = Vec::new();
        let mut idx: usize = 0;
        while idx < checks.len()
            invariant
                idx <= checks@.len(),
                defs == check_views(checks@),
                per_check@.len() == idx,
                forall|i: int| 0 <= i < idx ==> #[trigger] per_check@[i] == PerCheck::fresh(defs[i]),
            decreases checks@.len() - idx,
        {
            let def = &checks[idx];
            per_check.push(
                PerCheck {
                    state: CheckState::Starting,
                    consecutive_fails: 0,
                    consecutive_passes: 0,
                    retries: one_at_least(def.retries),
                    min_passes: one_at_least(def.min_passes),
                },
            );
            idx += 1;
        }
        let runner = HealthRunner { per_check, overall: OverallState::WaitingFirstHealthy };
        proof {
            assert(runner@ =~= HealthModel::fresh(defs));
            if runner@.checks.len() > 0 {
                assert(runner@.checks[0].state is Starting);
            }
        }
        runner
    }

    /// The health of a process that was just spawned, and the checks to run
    /// for it.
    pub fn spawn(
        checks: &[HealthCheckDef],
        vars: &Vars,
        out_vts: &[Option<SharedVt>],
        check_task_ids: &[Option<TaskId>],
    ) -> (r: (Self, Vec<CheckPlan>))
        requires
            vars.wf(),
        ensures
            r.0@ == HealthModel::fresh(check_views(checks@)),
            r.0@.wf(),
            r.1@.len() == checks@.len(),
            forall|i: int|
                0 <= i < checks@.len() ==> (#[trigger] r.1@[i]).follows(
                    i,
                    checks@[i]@,
                    vars@,
                    out_vts@,
                    check_task_ids@,
                ),
    {
        (HealthRunner::new(checks), plan_checks(checks, vars, out_vts, check_task_ids))
    }

    fn every_check_passes(&self) -> (r: bool)
        ensures
            r == self@.all_passing(),
    {
        let mut i: usize = 0;
        while i < self.per_check.len()
            invariant
                i <= self.per_check@.len(),
                forall|k: int| 0 <= k < i ==> (#[trigger] self@.checks[k]).state is Passing,
            decreases self.per_check@.len() - i,
        {
            match self.per_check[i].state {
                CheckState::Passing => {},
                _ => {
                    proof {
                        assert(!(self@.checks[i as int].state is Passing));
                    }
                    return false;
                },
            }
            i += 1;
        }
        true
    }

    /// Takes a result into account.
    pub fn apply(&mut self, event: HealthEvent) -> (r: AggregateOutcome)
        ensures
            (final(self)@, r) == old(self)@.after(event),
            old(self)@.wf() ==> final(self)@.wf(),
    {
        let ghost before = self@;
        proof {
            if before.wf() {
                health_invariant_is_kept(before, event);
            }
        }
        match event {
            HealthEvent::Pass(idx) => {
                if idx >= self.per_check.len() {
                    return AggregateOutcome::Noop;
                }
                let mut pc: PerCheck = self.per_check[idx];
                pc.consecutive_fails = 0;
                pc.consecutive_passes = pc.consecutive_passes.saturating_add(1);
                if pc.consecutive_passes < pc.min_passes {
                    self.per_check[idx] = pc;
                    return AggregateOutcome::Noop;
                }
                pc.state = CheckState::Passing;
                self.per_check[idx] = pc;
                if self.every_check_passes() {
                    match self.overall {
                        OverallState::WaitingFirstHealthy | OverallState::Unhealthy => {
                            self.overall = OverallState::Healthy;
                            return AggregateOutcome::BecameHealthy;
                        },
                        OverallState::Healthy => {
                            return AggregateOutcome::Noop;
                        },
                    }
                }
                AggregateOutcome::Noop
            },
            HealthEvent::Fail(idx) => {
                if idx >= self.per_check.len() {
                    return AggregateOutcome::Noop;
                }
                let mut pc: PerCheck = self.per_check[idx];
                pc.consecutive_passes = 0;
                pc.consecutive_fails = pc.consecutive_fails.saturating_add(1);
                if pc.consecutive_fails < pc.retries {
                    self.per_check[idx] = pc;
                    return AggregateOutcome::Noop;
                }
                pc.state = CheckState::Failing;
                self.per_check[idx] = pc;
                match self.overall {
                    OverallState::Healthy | OverallState::WaitingFirstHealthy => {
                        self.overall = OverallState::Unhealthy;
                        AggregateOutcome::BecameUnhealthy
                    },
                    OverallState::Unhealthy => AggregateOutcome::Noop,
                }
            },
        }
    }
}

/// The process counts as healthy exactly when every check passes, whatever
/// results come in.
pub proof fn health_invariant_is_kept(h: HealthModel, event: HealthEvent)
    requires
        h.wf(),
    ensures
        h.after(event).0.wf(),
{
    let next = h.after(event).0;
    match event {
        HealthEvent::Pass(i) => {
            if i < h.checks.len() {
                assert(next.checks[i as int] == h.checks[i as int].after_pass());
                if h.overall is Healthy {
                    assert(h.checks[i as int].state is Passing);
                    assert forall|k: int| 0 <= k < next.checks.len() implies (
                    #[trigger] next.checks[k]).state is Passing by {
                        assert(h.checks[k].state is Passing);
                    }
                } else {
                    let updated = h.checks.update(i as int, h.checks[i as int].after_pass());
                    if next.all_passing() && !(next.overall is Healthy) {
                        assert(next.checks == updated);
                        if !(h.checks[i as int].state is Passing) {
                            assert(next.checks[i as int].state is Passing);
                        } else {
                            assert forall|k: int| 0 <= k < h.checks.len() implies (
                            #[trigger] h.checks[k]).state is Passing by {
                                if k != i {
                                    assert(next.checks[k].state is Passing);
                                }
                            }
                        }
                    }
                }
            }
        },
        HealthEvent::Fail(i) => {
            if i < h.checks.len() {
                let check = h.checks[i as int].after_fail();
                assert(next.checks[i as int] == check);
                if check.consecutive_fails >= check.retries {
                    assert(!(next.checks[i as int].state is Passing));
                } else {
                    assert forall|k: int| 0 <= k < h.checks.len() implies (
                    #[trigger] next.checks[k]).state == h.checks[k].state by {}
                    if next.all_passing() {
                        assert forall|k: int| 0 <= k < h.checks.len() implies (
                        #[trigger] h.checks[k]).state is Passing by {
                            assert(next.checks[k].state is Passing);
                        }
                    }
                    if h.all_passing() {
                        assert forall|k: int| 0 <= k < next.checks.len() implies (
                        #[trigger] next.checks[k]).state is Passing by {
                            assert(h.checks[k].state is Passing);
                        }
                    }
                }
            }
        },
    }
}

/// A process is reported healthy only when it was not and every check passes,
/// and unhealthy only when it was not and a check has failed too often.
pub proof fn reports_are_transitions(h: HealthModel, event: HealthEvent)
    requires
        h.wf(),
        h.checks.len() > 0,
    ensures
        h.after(event).1 is BecameHealthy <==> !(h.overall is Healthy) && h.after(
            event,
        ).0.overall is Healthy,
        h.after(event).1 is BecameUnhealthy <==> !(h.overall is Unhealthy) && h.after(
            event,
        ).0.overall is Unhealthy,
        h.after(event).1 is BecameHealthy ==> h.after(event).0.all_passing(),
        h.after(event).1 is BecameUnhealthy ==> !h.after(event).0.all_passing(),
{
    health_invariant_is_kept(h, event);
    if let HealthEvent::Fail(i) = event {
        if i < h.checks.len() {
            assert(h.after(event).0.checks[i as int] == h.checks[i as int].after_fail());
        }
    }
}

/// How many results of check `i` at the end of `events` are passes.
pub open spec fn passes_in_a_row(events: Seq<HealthEvent>, i: usize) -> nat
    decreases events.len(),
{
    if events.len() == 0 {
        0
    } else {
        match events.last() {
            HealthEvent::Pass(k) => passes_in_a_row(events.drop_last(), i) + (if k == i {
                1nat
            } else {
                0nat
            }),
            HealthEvent::Fail(k) => if k == i {
                0
            } else {
                passes_in_a_row(events.drop_last(), i)
            },
        }
    }
}

/// How many results of check `i` at the end of `events` are failures.
pub open spec fn fails_in_a_row(events: Seq<HealthEvent>, i: usize) -> nat
    decreases events.len(),
{
    if events.len() == 0 {
        0
    } else {
        match events.last() {
            HealthEvent::Fail(k) => fails_in_a_row(events.drop_last(), i) + (if k == i {
                1nat
            } else {
                0nat
            }),
            HealthEvent::Pass(k) => if k == i {
                0
            } else {
                fails_in_a_row(events.drop_last(), i)
            },
        }
    }
}

pub open spec fn up_to_max(n: nat) -> u32 {
    if n < u32::MAX {
        n as u32
    } else {
        u32::MAX
    }
}

/// The counters of a check tell how its latest results run, its thresholds
/// stay, and it passes or fails as soon as one of them is reached.
pub proof fn counts_follow_the_results(
    defs: Seq<HealthCheckModel>,
    events: Seq<HealthEvent>,
    i: usize,
)
    requires
        i < defs.len(),
    ensures
        ({
            let check = HealthModel::fresh(defs).after_all(events).checks[i as int];
            &&& HealthModel::fresh(defs).after_all(events).checks.len() == defs.len()
            &&& check.consecutive_passes == up_to_max(passes_in_a_row(events, i))
            &&& check.consecutive_fails == up_to_max(fails_in_a_row(events, i))
            &&& check.min_passes == at_least_one(defs[i as int].min_passes)
            &&& check.retries == at_least_one(defs[i as int].retries)
            &&& passes_in_a_row(events, i) >= check.min_passes ==> check.state is Passing
            &&& fails_in_a_row(events, i) >= check.retries ==> check.state is Failing
            &&& check.state is Starting ==> passes_in_a_row(events, i) < check.min_passes
                && fails_in_a_row(events, i) < check.retries
        }),
    decreases events.len(),
{
    let start = HealthModel::fresh(defs);
    if events.len() > 0 {
        let before = start.after_all(events.drop_last());
        counts_follow_the_results(defs, events.drop_last(), i);
        let event = events.last();
        let next = before.after(event).0;
        match event {
            HealthEvent::Pass(k) => {
                if k < before.checks.len() {
                    assert(next.checks == before.checks.update(
                        k as int,
                        before.checks[k as int].after_pass(),
                    ));
                }
            },
            HealthEvent::Fail(k) => {
                if k < before.checks.len() {
                    assert(next.checks == before.checks.update(
                        k as int,
                        before.checks[k as int].after_fail(),
                    ));
                }
            },
        }
    }
}

/// The outcome of one run of a check: whether its command succeeded, or why
/// there is no answer.
pub type CheckResult = Result<bool, String>;

/// The exit code that is reported for a result.
pub open spec fn exit_of(result: CheckResult) -> u32 {
    match result {
        Ok(true) => 0,
        Ok(false) => 1,
        Err(_) => 254,
    }
}

pub fn result_exit(result: &CheckResult) -> (r: u32)
    ensures
        r == exit_of(*result),
{
    match result {
        Ok(true) => 0,
        Ok(false) => 1,
        Err(_) => 254,
    }
}

/// Whether failures do not count yet.
pub fn in_start_period(elapsed: u64, start_period: u64) -> (r: bool)
    ensures
        r == (elapsed < start_period),
{
    elapsed < start_period
}

/// What a result counts as: a success always counts, anything else only after
/// the start period.
pub open spec fn counted(idx: usize, result: CheckResult, starting: bool) -> Option<HealthEvent> {
    match result {
        Ok(true) => Some(HealthEvent::Pass(idx)),
        _ => if starting {
            None
        } else {
            Some(HealthEvent::Fail(idx))
        },
    }
}

pub fn check_event(idx: usize, result: &CheckResult, starting: bool) -> (r: Option<HealthEvent>)
    ensures
        r == counted(idx, *result, starting),
{
    match result {
        Ok(true) => Some(HealthEvent::Pass(idx)),
        _ => {
            if starting {
                None
            } else {
                Some(HealthEvent::Fail(idx))
            }
        },
    }
}

/// A failure in the start period changes nothing.
pub proof fn start_period_failures_do_not_count(idx: usize, result: CheckResult)
    requires
        result != CheckResult::Ok(true),
    ensures
        counted(idx, result, true) is None,
{
}

/// The line that is shown for a result.
pub open spec fn line_for(result: CheckResult, starting: bool) -> Seq<char> {
    match result {
        Ok(true) => "\x1b[32m✓ pass\x1b[0m\r\n"@,
        Ok(false) => if starting {
            "\x1b[33m✗ fail (suppressed: start_period)\x1b[0m\r\n"@
        } else {
            "\x1b[31m✗ fail\x1b[0m\r\n"@
        },
        Err(why) => if starting {
            "\x1b[33m! error (suppressed: start_period): "@ + why@ + "\x1b[0m\r\n"@
        } else {
            "\x1b[31m! error: "@ + why@ + "\x1b[0m\r\n"@
        },
    }
}

pub fn result_line(result: &CheckResult, starting: bool) -> (r: String)
    ensures
        r@ == line_for(*result, starting),
{
    let mut s = String::new();
    match result {
        Ok(true) => {
            s.append("\x1b[32m✓ pass\x1b[0m\r\n");
        },
        Ok(false) => {
            if starting {
                s.append("\x1b[33m✗ fail (suppressed: start_period)\x1b[0m\r\n");
            } else {
                s.append("\x1b[31m✗ fail\x1b[0m\r\n");
            }
        },
        Err(why) => {
            if starting {
                s.append("\x1b[33m! error (suppressed: start_period): ");
            } else {
                s.append("\x1b[31m! error: ");
            }
            s.append(why.as_str());
            s.append("\x1b[0m\r\n");
        },
    }
    proof {
        assert(s@ =~= line_for(*result, starting));
    }
    s
}

/// Two digits.
pub open spec fn two_digits(n: nat) -> Seq<char> {
    seq![digit_char(n / 10 % 10), digit_char(n % 10)]
}

/// The time of day of a number of seconds since midnight of some day.
pub open spec fn time_of_day(secs: u64) -> Seq<char> {
    two_digits((secs / 3600 % 24) as nat) + seq![':'] + two_digits((secs / 60 % 60) as nat)
        + seq![':'] + two_digits((secs % 60) as nat) + " UTC"@
}

fn push_two_digits(s: &mut String, n: u64)
    requires
        n < 100,
    ensures
        final(s)@ == old(s)@ + two_digits(n as nat),
{
    s.push(digit_to_char((n / 10 % 10) as u8));
    s.push(digit_to_char((n % 10) as u8));
    proof {
        assert(s@ =~= old(s)@ + two_digits(n as nat));
    }
}

pub fn compact_time(secs: u64) -> (r: String)
    ensures
        r@ == time_of_day(secs),
{
    let h: u64 = (secs / 3600) % 24;
    let m: u64 = (secs / 60) % 60;
    let sec: u64 = secs % 60;
    let mut s = String::new();
    push_two_digits(&mut s, h);
    s.push(':');
    push_two_digits(&mut s, m);
    s.push(':');
    push_two_digits(&mut s, sec);
    s.append(" UTC");
    proof {
        assert(s@ =~= time_of_day(secs));
    }
    s
}

/// What is shown above the output of a command.
pub open spec fn banner_for(cmd: Seq<char>, secs: u64) -> Seq<char> {
    "\r\n\x1b[2m── "@ + time_of_day(secs) + " ──\x1b[0m\r\n\x1b[1m$\x1b[0m "@ + cmd
        + "\r\n"@
}

pub fn banner(cmd: &str, secs: u64) -> (r: String)
    ensures
        r@ == banner_for(cmd@, secs),
{
    let mut s = String::new();
    let time = compact_time(secs);
    s.append("\r\n\x1b[2m── ");
    s.append(time.as_str());
    s.append(" ──\x1b[0m\r\n\x1b[1m$\x1b[0m ");
    s.append(cmd);
    s.append("\r\n");
    proof {
        assert(s@ =~= banner_for(cmd@, secs));
    }
    s
}

} // verus!
