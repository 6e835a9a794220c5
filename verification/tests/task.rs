use dekit::config::health::{HealthCheckDef, HookDef, HookEvent, HookSet};
use dekit::config::proc::{LogConfig, LogMode, StopSignal};
use dekit::config::vars::Vars;
use dekit::kernel::context::TaskContext;
use dekit::kernel::path::TaskPath;
use dekit::kernel::screen_cmd::Winsize;
use dekit::kernel::task::{TaskId, TaskStatus};
use dekit::task::child_vt::{new_child_vt, CHILD_VT_HEIGHT, CHILD_VT_WIDTH};
use dekit::task::health::{
    banner, check_event, compact_time, in_start_period, plan_checks, result_exit, result_line,
    AggregateOutcome, HealthEvent, HealthRunner,
};
use dekit::task::hook_map::HookMap;
use dekit::task::hooks::{hook_result, judge_hook, plan_hook, to_crlf, HookError};
use dekit::task::machine::{Action, Event, ProcMsg, ProcTask, TaskReport};
use dekit::task::proc_task::{
    duplicate_config, exit_code_of, instance_size, log_changes, plan_rerun_check, plan_rerun_hook,
    spawn_duplicate, spawn_proc_task, spawn_proc_task_with_id, stop_action, ProcTaskConfig,
    ProcessSpec, Signal, StopAction,
};
use dekit::term::screen::{SharedVt, VtTable};

fn check(name: &str, retries: u32, min_passes: u32) -> HealthCheckDef {
    HealthCheckDef {
        name: name.to_string(),
        cmd: "ping %HOST%".to_string(),
        retries,
        min_passes,
        ..HealthCheckDef::defaults()
    }
}

fn hook(cmd: &str, async_: bool) -> Option<HookDef> {
    Some(HookDef { cmd: cmd.to_string(), async_ })
}

#[test]
fn all_checks_have_to_pass() {
    let mut h = HealthRunner::new(&[check("a", 3, 1), check("b", 3, 2)]);
    assert_eq!(h.apply(HealthEvent::Pass(0)), AggregateOutcome::Noop);
    assert_eq!(h.apply(HealthEvent::Pass(1)), AggregateOutcome::Noop);
    assert_eq!(h.apply(HealthEvent::Fail(1)), AggregateOutcome::Noop);
    assert_eq!(h.apply(HealthEvent::Pass(1)), AggregateOutcome::Noop);
    assert_eq!(h.apply(HealthEvent::Pass(1)), AggregateOutcome::BecameHealthy);
    assert_eq!(h.apply(HealthEvent::Pass(1)), AggregateOutcome::Noop);
}

#[test]
fn failures_in_a_row_make_a_process_unhealthy() {
    let mut h = HealthRunner::new(&[check("a", 2, 1)]);
    assert_eq!(h.apply(HealthEvent::Pass(0)), AggregateOutcome::BecameHealthy);
    assert_eq!(h.apply(HealthEvent::Fail(0)), AggregateOutcome::Noop);
    assert_eq!(h.apply(HealthEvent::Pass(0)), AggregateOutcome::Noop);
    assert_eq!(h.apply(HealthEvent::Fail(0)), AggregateOutcome::Noop);
    assert_eq!(h.apply(HealthEvent::Fail(0)), AggregateOutcome::BecameUnhealthy);
    assert_eq!(h.apply(HealthEvent::Fail(0)), AggregateOutcome::Noop);
    assert_eq!(h.apply(HealthEvent::Pass(0)), AggregateOutcome::BecameHealthy);
    assert_eq!(h.apply(HealthEvent::Pass(9)), AggregateOutcome::Noop);
}

#[test]
fn failures_do_not_count_in_the_start_period() {
    assert!(in_start_period(999, 1000));
    assert!(!in_start_period(1000, 1000));
    assert_eq!(check_event(2, &Ok(false), true), None);
    assert_eq!(check_event(2, &Err("no".to_string()), true), None);
    assert_eq!(check_event(2, &Ok(true), true), Some(HealthEvent::Pass(2)));
    assert_eq!(check_event(2, &Ok(false), false), Some(HealthEvent::Fail(2)));
}

#[test]
fn results_are_shown_in_words() {
    assert_eq!(result_line(&Ok(true), false), "\x1b[32m✓ pass\x1b[0m\r\n");
    assert_eq!(result_line(&Ok(false), false), "\x1b[31m✗ fail\x1b[0m\r\n");
    assert_eq!(
        result_line(&Err("boom".to_string()), true),
        "\x1b[33m! error (suppressed: start_period): boom\x1b[0m\r\n"
    );
    assert_eq!(
        (result_exit(&Ok(true)), result_exit(&Ok(false)), result_exit(&Err(String::new()))),
        (0, 1, 254)
    );
    assert_eq!(compact_time(86_400 + 3_723), "01:02:03 UTC");
    assert_eq!(
        banner("ls", 0),
        "\r\n\x1b[2m── 00:00:00 UTC ──\x1b[0m\r\n\x1b[1m$\x1b[0m ls\r\n"
    );
}

#[test]
fn checks_are_planned_with_their_variables() {
    let mut vars = Vars::new();
    vars.insert("HOST".to_string(), "db".to_string());
    let plans = plan_checks(
        &[check("a", 1, 1), check("b", 1, 1)],
        &vars,
        &[Some(SharedVt(4))],
        &[None, Some(TaskId(8))],
    );
    assert_eq!(plans[0].cmd, "ping db");
    assert_eq!((plans[0].idx, plans[1].idx), (0, 1));
    assert_eq!((plans[0].out_vt, plans[1].out_vt), (Some(SharedVt(4)), None));
    assert_eq!((plans[0].task_id, plans[1].task_id), (None, Some(TaskId(8))));
    let (runner, plans) =
        HealthRunner::spawn(&[check("a", 1, 1)], &vars, &[], &[]);
    assert_eq!((runner.per_check.len(), plans.len()), (1, 1));
}

#[test]
fn hooks_are_judged_by_their_exit_code() {
    assert!(hook_result(Ok(0)).is_ok());
    match hook_result(Ok(3)) {
        Err(HookError::ExitCode(3)) => {}
        other => panic!("{:?}", other),
    }
    assert_eq!(judge_hook(&hook_result(Ok(0)), 255), (true, 0));
    assert_eq!(judge_hook(&hook_result(Ok(3)), 255), (false, 3));
    assert_eq!(judge_hook(&hook_result(Ok(-1)), 255), (false, u32::MAX));
    assert_eq!(judge_hook(&hook_result(Err("no".to_string())), 255), (false, 255));
    let mut vars = Vars::new();
    vars.insert("A".to_string(), "1".to_string());
    let run = plan_hook(&HookDef { cmd: "echo %A%".to_string(), async_: true }, &vars);
    assert_eq!((run.cmd.as_str(), run.detached), ("echo 1", true));
}

#[test]
fn line_feeds_get_returns() {
    assert_eq!(to_crlf(0, b"a\nb\r\nc"), (b"a\r\nb\r\nc".to_vec(), b'c'));
    assert_eq!(to_crlf(0, b"\n"), (b"\r\n".to_vec(), b'\n'));
    assert_eq!(to_crlf(b'\r', b""), (vec![], b'\r'));
}

#[test]
fn a_line_end_may_be_split_over_reads() {
    let (mut shown, last) = to_crlf(0, b"a\r");
    let (rest, _) = to_crlf(last, b"\nb\n");
    shown.extend(rest);
    assert_eq!(shown, b"a\r\nb\r\n");
}

fn kinds(actions: &[Action]) -> Vec<String> {
    actions
        .iter()
        .map(|a| match a {
            Action::Report(TaskReport::TaskStarted) => "started".to_string(),
            Action::Report(TaskReport::TaskStopped(code)) => format!("stopped {}", code),
            Action::Report(TaskReport::TaskStatusChanged(s)) => format!("{:?}", s),
            Action::ReportFor(id, _) => format!("for {}", id.0),
            Action::SpawnProcess => "spawn".to_string(),
            Action::UpdateLog(pid) => format!("log {}", pid),
            Action::RunHook(e) => format!("hook {}", e.label()),
            Action::StartChecks => "checks".to_string(),
            Action::StopChecks => "no checks".to_string(),
            Action::StopProcess => "stop".to_string(),
            Action::KillProcess => "kill".to_string(),
            Action::ReapProcess => "reap".to_string(),
            Action::DropProcess => "drop".to_string(),
            Action::Screen(_) => "screen".to_string(),
            Action::SendKey(_) => "key".to_string(),
            Action::ShowOutput(n) => format!("output {}", n),
            Action::RerunHook(e) => format!("rerun {}", e.label()),
            Action::RerunCheck(i) => format!("recheck {}", i),
            Action::Duplicate(_) => "duplicate".to_string(),
        })
        .collect()
}

fn plain(hooks: HookSet, checks: Vec<HealthCheckDef>, oneshot: bool) -> ProcTask {
    ProcTask::new(hooks, HookMap::new(), checks, oneshot)
}

#[test]
fn a_plain_process_starts_and_stops() {
    let mut t = plain(HookSet::default(), vec![], false);
    assert_eq!(kinds(&t.handle(Event::Start)), ["spawn"]);
    assert_eq!(kinds(&t.handle(Event::Spawned(Some(7)))), ["log 7", "started"]);
    assert_eq!(kinds(&t.handle(Event::Read(5))), ["output 5"]);
    assert_eq!(kinds(&t.handle(Event::Stop)), ["stop"]);
    assert_eq!(kinds(&t.handle(Event::Exited(3))), ["reap"]);
    assert_eq!(kinds(&t.handle(Event::Read(0))), ["drop", "stopped 3"]);
}

#[test]
fn a_process_that_cannot_be_spawned_has_stopped() {
    let mut t = plain(HookSet::default(), vec![], false);
    t.handle(Event::Start);
    assert_eq!(kinds(&t.handle(Event::Spawned(None))), ["stopped 255"]);
}

#[test]
fn a_process_with_checks_waits_for_them() {
    let mut t = plain(HookSet::default(), vec![check("a", 1, 1)], false);
    t.handle(Event::Start);
    assert_eq!(kinds(&t.handle(Event::Spawned(Some(7)))), ["log 7", "Starting", "checks"]);
    assert_eq!(kinds(&t.handle(Event::Health(HealthEvent::Pass(0)))), ["started"]);
    assert_eq!(kinds(&t.handle(Event::Health(HealthEvent::Fail(0)))), ["Unhealthy"]);
    assert_eq!(kinds(&t.handle(Event::Health(HealthEvent::Pass(0)))), ["Running"]);
}

#[test]
fn a_one_shot_completes() {
    let mut t = plain(HookSet::default(), vec![], true);
    t.handle(Event::Start);
    assert_eq!(kinds(&t.handle(Event::Spawned(Some(7)))), ["log 7", "Starting"]);
    t.handle(Event::Read(0));
    assert_eq!(kinds(&t.handle(Event::Exited(0))), ["reap", "drop", "Completed"]);
    t.handle(Event::Start);
    t.handle(Event::Spawned(Some(8)));
    t.handle(Event::Read(0));
    assert_eq!(kinds(&t.handle(Event::Exited(1))), ["reap", "drop", "stopped 1"]);
}

#[test]
fn a_failed_running_hook_holds_the_process_back() {
    let hooks = HookSet {
        running: hook("warm", false),
        failed: hook("alert", false),
        ..HookSet::default()
    };
    let mut t = plain(hooks, vec![check("a", 1, 1)], false);
    t.handle(Event::Start);
    t.handle(Event::Spawned(Some(7)));
    assert_eq!(kinds(&t.handle(Event::Health(HealthEvent::Pass(0)))), ["hook running"]);
    let failed = Event::HookFinished(Err(HookError::ExitCode(1)));
    assert_eq!(kinds(&t.handle(failed)), ["hook failed"]);
    assert_eq!(kinds(&t.handle(Event::HookFinished(Ok(())))), ["Unhealthy"]);
}

#[test]
fn the_running_hook_needs_no_checks() {
    let hooks = || HookSet {
        running: hook("warm", false),
        failed: hook("alert", false),
        ..HookSet::default()
    };
    let mut t = plain(hooks(), vec![], false);
    t.handle(Event::Start);
    assert_eq!(kinds(&t.handle(Event::Spawned(Some(7)))), ["log 7", "hook running"]);
    assert_eq!(kinds(&t.handle(Event::HookFinished(Ok(())))), ["started"]);
    let mut t = plain(hooks(), vec![], false);
    t.handle(Event::Start);
    t.handle(Event::Spawned(Some(7)));
    let failed = Event::HookFinished(Err(HookError::ExitCode(1)));
    assert_eq!(kinds(&t.handle(failed)), ["hook failed"]);
    assert_eq!(kinds(&t.handle(Event::HookFinished(Ok(())))), ["Unhealthy"]);
}

#[test]
fn a_one_shot_is_not_checked() {
    let hooks = HookSet { running: hook("warm", false), ..HookSet::default() };
    let mut t = plain(hooks, vec![check("a", 1, 1)], true);
    t.handle(Event::Start);
    assert_eq!(kinds(&t.handle(Event::Spawned(Some(7)))), ["log 7", "Starting"]);
    assert!(t.handle(Event::Health(HealthEvent::Pass(0))).is_empty());
}

#[test]
fn every_process_ends_once() {
    for eof_first in [true, false] {
        let mut t = plain(HookSet::default(), vec![], false);
        let mut seen: Vec<String> = vec![];
        for code in [3u32, 0] {
            let (a, b) = if eof_first {
                (Event::Read(0), Event::Exited(code))
            } else {
                (Event::Exited(code), Event::Read(0))
            };
            let events = [Event::Start, Event::Spawned(Some(7)), a, b, Event::Read(0)];
            for event in events {
                seen.extend(kinds(&t.handle(event)));
            }
        }
        let stops: Vec<&str> =
            seen.iter().map(|s| s.as_str()).filter(|s| s.starts_with("stopped")).collect();
        assert_eq!(stops, ["stopped 3", "stopped 0"]);
    }
}

#[test]
fn hooks_and_checks_are_run_by_hand() {
    let hooks = HookSet { failed: hook("alert", false), ..HookSet::default() };
    let mut t = plain(hooks, vec![check("a", 1, 1)], false);
    let rerun = |e: HookEvent| Event::Msg(ProcMsg::RerunHook(e));
    assert_eq!(kinds(&t.handle(rerun(HookEvent::Failed))), ["rerun failed"]);
    assert!(t.handle(rerun(HookEvent::Stopped)).is_empty());
    assert!(t.handle(Event::Msg(ProcMsg::RerunCheck(1))).is_empty());
    assert_eq!(kinds(&t.handle(Event::Msg(ProcMsg::RerunCheck(0)))), ["recheck 0"]);
    let mut vars = Vars::new();
    vars.insert("HOST".to_string(), "db".to_string());
    assert_eq!(t.check_plans(&vars, &[], &[])[0].cmd, "ping db");
}

fn spec() -> ProcessSpec {
    ProcessSpec {
        prog: "ls".to_string(),
        args: vec!["-l".to_string()],
        cwd: None,
        env: vec![],
        add_path: vec!["bin".to_string()],
    }
}

fn full_config() -> ProcTaskConfig {
    let mut config = ProcTaskConfig::new(spec());
    config.label = Some("db".to_string());
    config.healthchecks = vec![check("ready", 1, 1)];
    config.hooks = HookSet {
        started: hook("a", false),
        failed: hook("run %HOST%", true),
        ..HookSet::default()
    };
    config.vars.insert("HOST".to_string(), "db".to_string());
    config
}

#[test]
fn a_task_is_set_up_with_its_hooks_and_checks() {
    let mut ctx = TaskContext { task_id: TaskId(0), next_id: 50 };
    let mut vts = VtTable::new();
    new_child_vt(&mut vts);
    let path = TaskPath::new("/db".to_string());
    let plan = spawn_proc_task(&mut ctx, &mut vts, path, full_config());
    assert_eq!((plan.task_id, plan.vt), (TaskId(50), SharedVt(1)));
    let children: Vec<(usize, &str, Option<&str>, usize)> = plan
        .children
        .iter()
        .map(|c| (c.id.0, c.path.as_str(), c.label.as_deref(), c.vt.0))
        .collect();
    assert_eq!(
        children,
        [
            (51, "/db/check_0", Some("ready"), 2),
            (52, "/db/hook_started", None, 3),
            (53, "/db/hook_failed", None, 4),
        ]
    );
    assert_eq!(ctx.next_id, 54);
    assert_eq!(instance_size(&vts, plan.vt), Winsize::cells(80, 24));
    assert_eq!(instance_size(&vts, SharedVt(2)), Winsize::cells(CHILD_VT_WIDTH, CHILD_VT_HEIGHT));
    assert_eq!(plan.runtime.hook_task_ids.get(HookEvent::Failed), Some(TaskId(53)));
    assert_eq!(plan_rerun_hook(&plan.runtime, HookEvent::Failed).unwrap().cmd, "run db");
    assert!(plan_rerun_hook(&plan.runtime, HookEvent::Stopped).is_none());
    assert_eq!(plan_rerun_check(&plan.runtime, 0).unwrap().out_vt, Some(SharedVt(2)));
    assert!(plan_rerun_check(&plan.runtime, 1).is_none());
}

#[test]
fn a_task_without_a_path_has_no_tasks_below_it() {
    let mut ctx = TaskContext { task_id: TaskId(0), next_id: 50 };
    let mut vts = VtTable::new();
    let plan = spawn_proc_task_with_id(&mut ctx, &mut vts, TaskId(9), None, full_config());
    assert!(plan.children.is_empty());
    assert_eq!(plan.runtime.check_task_ids, [None]);
    assert_eq!(plan.runtime.check_vts, [Some(SharedVt(1))]);
    assert_eq!(ctx.next_id, 50);
}

#[test]
fn a_duplicate_runs_the_same_program() {
    let mut ctx = TaskContext { task_id: TaskId(0), next_id: 50 };
    let mut vts = VtTable::new();
    let mut config = full_config();
    config.log = Some(LogConfig { path: "x.log".to_string(), mode: LogMode::Append });
    let plan = spawn_proc_task_with_id(&mut ctx, &mut vts, TaskId(9), None, config);
    let copy = duplicate_config(&plan.runtime, Some("db-2".to_string()));
    assert_eq!((copy.restart_delay, copy.spec.add_path.len()), (1000, 1));
    assert!(copy.autostart && copy.log.is_none() && copy.healthchecks.is_empty());
    let dup = spawn_duplicate(&mut ctx, &mut vts, &plan.runtime, Some("db-2".to_string()));
    assert_eq!(dup.path.as_ref().map(|p| p.as_str()), Some("/50"));
    assert_eq!(dup.label.as_deref(), Some("db-2"));
    assert_eq!((dup.runtime.spec.prog.as_str(), dup.runtime.spec.args.len()), ("ls", 1));
}

#[test]
fn processes_stop_the_way_they_are_told_to() {
    assert!(matches!(stop_action(&StopSignal::SIGINT), StopAction::Signal(Signal::Interrupt)));
    assert!(matches!(stop_action(&StopSignal::SIGTERM), StopAction::Signal(Signal::Terminate)));
    assert!(matches!(stop_action(&StopSignal::SIGKILL), StopAction::Signal(Signal::Kill)));
    assert!(matches!(stop_action(&StopSignal::HardKill), StopAction::HardKill));
    match stop_action(&StopSignal::Cmd("down".to_string())) {
        StopAction::Shell(cmd) => assert_eq!(cmd, "down"),
        _ => panic!("no command"),
    }
    assert!(matches!(StopSignal::default(), StopSignal::SIGTERM));
}

#[test]
fn logs_change_with_their_file() {
    assert!(log_changes(None, Some("a")));
    assert!(log_changes(Some("b"), Some("a")));
    assert!(!log_changes(Some("a"), Some("a")));
    assert!(!log_changes(Some("a"), None));
}

#[test]
fn statuses_say_what_is_up() {
    assert!(TaskStatus::Starting.is_up() && TaskStatus::Running.is_up());
    assert!(TaskStatus::Unhealthy.is_up());
    assert!(!TaskStatus::NotStarted.is_up() && !TaskStatus::Completed.is_up());
    assert!(!TaskStatus::Exited(0).is_up());
    assert_eq!(TaskStatus::Exited(4).exit_code(), Some(4));
    assert_eq!(TaskStatus::Running.exit_code(), None);
    assert_eq!((exit_code_of(Some(1)), exit_code_of(None)), (1, 212));
}
