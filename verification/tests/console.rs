use dekit::config::config::{Config, OnClientExit};
use dekit::config::health::HookEvent;
use dekit::config::proc::{CmdConfig, ProcConfig};
use dekit::console::action::{Action, ClientId, CopyMove};
use dekit::console::app::{App, ClientHandle, LoopAction, Modal};
use dekit::console::app_layout::AppLayout;
use dekit::console::deps::resolve_proc_deps;
use dekit::console::effect::{Effect, TaskOp};
use dekit::console::input::{CltToSrv, ServerMessage, TermEvent, UnexpectedMessage};
use dekit::console::keymap::{Keymap, KeymapGroup};
use dekit::console::list::ListState;
use dekit::console::main_loop::Next;
use dekit::console::notify::{FramedScreenNotify, TaskInfo, TaskNotify};
use dekit::console::proc::child::{
    child_kind_from_segment, ChildKind, ChildRow, ChildStatus,
};
use dekit::console::state::Scope;
use dekit::console::ui_term::render_term;
use dekit::kernel::context::TaskContext;
use dekit::kernel::path::{sanitize_component, TaskPath};
use dekit::kernel::screen_cmd::{TaskScreenCmd, Winsize};
use dekit::kernel::task::{TaskId, TaskStatus};
use dekit::protocol::rpc::DkRequest;
use dekit::term::grid::Grid;
use dekit::term::key::{Key, KeyCode, KeyEventKind, KeyMods};
use dekit::term::mouse::{MouseButton, MouseEvent, MouseEventKind};
use dekit::term::rect::{Pos, Rect, Size};
use dekit::term::screen::{SharedVt, VtTable};

fn proc_config(name: &str, deps: &[&str]) -> ProcConfig {
    ProcConfig {
        path: name.to_string(),
        cmd: Some(CmdConfig::Shell { shell: "true".to_string() }),
        deps: deps.iter().map(|dep| dep.to_string()).collect(),
        ..ProcConfig::default()
    }
}

#[test]
fn resolve_proc_deps_maps_names_to_task_ids() {
    let proc_configs = vec![
        proc_config("db", &[]),
        proc_config("api", &["db"]),
        proc_config("web", &["api", "db"]),
    ];
    let task_ids = vec![TaskId(1), TaskId(2), TaskId(3)];

    let deps = resolve_proc_deps(&proc_configs, &task_ids).unwrap();

    assert_eq!(deps, vec![vec![], vec![TaskId(1)], vec![TaskId(2), TaskId(1)]]);
}

#[test]
fn resolve_proc_deps_rejects_unknown_dependency() {
    let proc_configs = vec![proc_config("api", &["db"])];
    let task_ids = vec![TaskId(1)];

    let err = resolve_proc_deps(&proc_configs, &task_ids).unwrap_err();

    assert_eq!(err.message(), "Process 'api' depends on unknown process 'db'.");
}

#[test]
fn resolve_proc_deps_rejects_dependency_cycles() {
    let proc_configs = vec![
        proc_config("api", &["worker"]),
        proc_config("worker", &["db"]),
        proc_config("db", &["api"]),
    ];
    let task_ids = vec![TaskId(1), TaskId(2), TaskId(3)];

    let err = resolve_proc_deps(&proc_configs, &task_ids).unwrap_err();

    assert_eq!(
        err.message(),
        "Process dependency cycle detected: api -> worker -> db -> api."
    );
}

#[test]
fn resolve_proc_deps_rejects_duplicates_and_wrong_counts() {
    let twice = vec![proc_config("db", &[]), proc_config("db", &[])];
    let err = resolve_proc_deps(&twice, &[TaskId(1), TaskId(2)]).unwrap_err();
    assert_eq!(err.message(), "Duplicate process name 'db'.");
    let err = resolve_proc_deps(&twice, &[TaskId(1)]).unwrap_err();
    assert_eq!(err.message(), "Internal error: proc and task id counts differ.");
    let alone = vec![proc_config("a", &["a"])];
    let err = resolve_proc_deps(&alone, &[TaskId(1)]).unwrap_err();
    assert_eq!(err.message(), "Process dependency cycle detected: a -> a.");
}

fn app_with(config: Config) -> App {
    let pc = TaskContext { task_id: TaskId(1), next_id: 100 };
    App::new(config, Keymap::new(), pc, VtTable::new())
}

fn added(path: &str, label: Option<&str>, status: TaskStatus, vt: usize) -> TaskNotify {
    TaskNotify::Added {
        path: TaskPath::new(path.to_string()),
        label: label.map(|l| l.to_string()),
        status,
        vt: Some(SharedVt(vt)),
    }
}

/// An app that shows processes `a`, `b` and `c`, of which `b` is down.
fn three() -> App {
    let mut app = app_with(Config::make_default());
    let mut act = LoopAction::default();
    for (i, (name, status)) in [
        ("a", TaskStatus::Running),
        ("b", TaskStatus::Exited(1)),
        ("c", TaskStatus::Starting),
    ]
    .into_iter()
    .enumerate()
    {
        let path = format!("/{}", name);
        app.handle_notification(&mut act, TaskId(10 + i), added(&path, None, status, i), 0);
    }
    assert_eq!(act, LoopAction::Render);
    app.take_effects();
    app
}

fn run(app: &mut App, action: Action) -> LoopAction {
    let mut act = LoopAction::default();
    app.handle_event(&mut act, &action);
    act
}

fn describe(effects: Vec<Effect>) -> Vec<String> {
    effects
        .into_iter()
        .map(|e| match e {
            Effect::Task(id, op) => {
                let op = match op {
                    TaskOp::Start => "start".to_string(),
                    TaskOp::Stop => "stop".to_string(),
                    TaskOp::Kill => "kill".to_string(),
                    TaskOp::Screen(cmd) => format!("{:?}", cmd),
                    TaskOp::RerunHook(event) => format!("hook {}", event.label()),
                    TaskOp::RerunCheck(i) => format!("check {}", i),
                    TaskOp::Duplicate(name) => format!("duplicate {}", name),
                    TaskOp::Input(key) => format!("input {:?}", key.code),
                };
                format!("{} {}", id.0, op)
            }
            Effect::RemoveTask(id) => format!("remove {}", id.0),
            Effect::SetLabel(id, name) => format!("label {} {}", id.0, name),
            Effect::Spawn { task_id, path, config } => format!(
                "spawn {} {} {} {}",
                task_id.0,
                path.as_ref().map(|p| p.as_str()).unwrap_or("-"),
                config.spec.prog,
                config.spec.args.join(" ")
            ),
            Effect::Copy(text) => format!("copy {}", text),
        })
        .collect()
}

#[test]
fn a_new_process_is_shown_and_observed() {
    let mut app = app_with(Config::make_default());
    let mut act = LoopAction::default();
    app.handle_notification(
        &mut act,
        TaskId(10),
        added("/web", Some("my web"), TaskStatus::Starting, 0),
        0,
    );
    assert_eq!(act, LoopAction::Render);
    assert_eq!(app.core.state.procs.len(), 1);
    assert_eq!(app.core.state.procs[0].name(), "my web");
    match app.take_effects().as_slice() {
        [Effect::Task(id, TaskOp::Screen(TaskScreenCmd::Observe { size, observer_id }))] => {
            assert_eq!((*id, *observer_id), (TaskId(10), TaskId(1)));
            assert_eq!(*size, Winsize::cells(128, 45));
        }
        _ => panic!("not observed"),
    }
    app.handle_notification(&mut act, TaskId(10), added("/x", None, TaskStatus::Running, 1), 0);
    assert_eq!(app.core.state.procs.len(), 1);
}

#[test]
fn a_task_without_a_terminal_is_not_shown() {
    let mut app = app_with(Config::make_default());
    let mut act = LoopAction::default();
    let notify = TaskNotify::Added { path: None, label: None, status: TaskStatus::Running, vt: None };
    app.handle_notification(&mut act, TaskId(10), notify, 0);
    assert_eq!(act, LoopAction::Skip);
    assert!(app.core.state.procs.is_empty());
}

#[test]
fn names_fall_back_to_the_path_and_the_number() {
    let mut app = app_with(Config::make_default());
    let mut act = LoopAction::default();
    let bare = |id: usize| TaskNotify::Added {
        path: None,
        label: None,
        status: TaskStatus::Running,
        vt: Some(SharedVt(id)),
    };
    app.handle_notification(&mut act, TaskId(7), bare(0), 0);
    app.handle_notification(&mut act, TaskId(8), added("/web", None, TaskStatus::Running, 1), 0);
    assert_eq!(app.core.state.procs[0].name(), "proc-7");
    assert_eq!(app.core.state.procs[1].name(), "web");
    app.handle_notification(&mut act, TaskId(7), TaskNotify::LabelChanged(Some("x".to_string())), 0);
    assert_eq!(app.core.state.procs[0].name(), "x");
    app.handle_notification(&mut act, TaskId(7), TaskNotify::LabelChanged(None), 0);
    assert_eq!(app.core.state.procs[0].name(), "proc-7");
    let moved = TaskNotify::PathChanged(None, TaskPath::new("/new".to_string()));
    app.handle_notification(&mut act, TaskId(8), moved, 0);
    assert_eq!(app.core.state.procs[1].name(), "new");
}

#[test]
fn quitting_stops_what_is_up() {
    let mut app = three();
    assert_eq!(run(&mut app, Action::Quit), LoopAction::Render);
    assert!(app.core.state.quitting);
    assert_eq!(describe(app.take_effects()), ["10 stop", "12 stop"]);
    assert_eq!(app.core.next(LoopAction::Skip), Next::Stay { render: false });
    assert_eq!(app.core.next(LoopAction::Render), Next::Stay { render: true });
    let mut act = LoopAction::default();
    app.handle_notification(&mut act, TaskId(10), TaskNotify::Stopped(0), 0);
    app.handle_notification(&mut act, TaskId(12), TaskNotify::Stopped(0), 0);
    assert_eq!(app.core.next(act), Next::Leave);
}

#[test]
fn force_quitting_kills_what_is_up() {
    let mut app = three();
    assert_eq!(run(&mut app, Action::ForceQuit), LoopAction::ForceQuit);
    assert_eq!(describe(app.take_effects()), ["10 kill", "12 kill"]);
    assert_eq!(app.core.next(LoopAction::ForceQuit), Next::Leave);
}

#[test]
fn a_batch_ends_when_the_loop_does() {
    let mut app = three();
    let cmds = vec![
        Action::StartProc,
        Action::Batch { cmds: vec![Action::KillProc, Action::ForceQuit, Action::StartProc] },
        Action::StartProc,
    ];
    assert_eq!(run(&mut app, Action::Batch { cmds }), LoopAction::ForceQuit);
    assert_eq!(describe(app.take_effects()), ["10 start", "10 kill", "10 kill", "12 kill"]);
    let mut act = LoopAction::ForceQuit;
    app.handle_event(&mut act, &Action::FocusTerm);
    assert_eq!(act, LoopAction::ForceQuit);
}

#[test]
fn restarts_take_down_only_what_is_up() {
    let mut app = three();
    run(&mut app, Action::RestartAll);
    assert_eq!(
        describe(app.take_effects()),
        ["10 stop", "10 start", "11 start", "12 stop", "12 start"]
    );
    run(&mut app, Action::ForceRestartProc);
    assert_eq!(describe(app.take_effects()), ["10 kill", "10 start"]);
    run(&mut app, Action::ForceRestartAll);
    assert_eq!(
        describe(app.take_effects()),
        ["10 kill", "10 start", "11 start", "12 kill", "12 start"]
    );
    run(&mut app, Action::TermProc);
    assert_eq!(describe(app.take_effects()), ["10 stop"]);
}

fn with_rows() -> App {
    let mut app = three();
    let mut act = LoopAction::default();
    app.handle_notification(
        &mut act,
        TaskId(20),
        added("/a/check_0", Some("ready"), TaskStatus::NotStarted, 5),
        0,
    );
    app.handle_notification(
        &mut act,
        TaskId(21),
        added("/a/hook_failed", None, TaskStatus::NotStarted, 6),
        0,
    );
    app
}

#[test]
fn rows_are_attached_once() {
    let mut app = with_rows();
    let mut act = LoopAction::default();
    app.handle_notification(
        &mut act,
        TaskId(20),
        added("/a/check_0", Some("ready"), TaskStatus::Running, 5),
        7,
    );
    let a = &app.core.state.procs[0];
    assert_eq!(a.children.len(), 2);
    assert_eq!((a.children[0].kind, a.children[0].name.as_str()), (ChildKind::Check(0), "ready"));
    assert_eq!(
        (a.children[1].kind, a.children[1].name.as_str()),
        (ChildKind::Hook(HookEvent::Failed), "failed")
    );
    assert_eq!(a.children[0].status, ChildStatus::Idle);
    app.handle_notification(&mut act, TaskId(20), TaskNotify::StatusChanged(TaskStatus::Exited(2)), 9);
    assert_eq!(app.core.state.procs[0].children[0].status, ChildStatus::LastExit(2));
}

#[test]
fn the_focus_goes_row_by_row_and_back() {
    let mut app = with_rows();
    run(&mut app, Action::ToggleProcChildren);
    let at = |app: &App| {
        let sel = app.core.state.selected();
        (sel, app.core.state.procs[sel].focused_child)
    };
    let mut seen = vec![at(&app)];
    for _ in 0..5 {
        run(&mut app, Action::NextProc);
        seen.push(at(&app));
    }
    assert_eq!(
        seen,
        [(0, None), (0, Some(0)), (0, Some(1)), (1, None), (2, None), (0, None)]
    );
    for want in seen.iter().rev().skip(1) {
        run(&mut app, Action::PrevProc);
        assert_eq!(at(&app), *want);
    }
}

#[test]
fn the_focused_row_is_run_again() {
    let mut app = with_rows();
    run(&mut app, Action::ToggleProcChildren);
    run(&mut app, Action::RestartProc);
    run(&mut app, Action::NextProc);
    run(&mut app, Action::RestartProc);
    run(&mut app, Action::NextProc);
    run(&mut app, Action::RestartProc);
    assert_eq!(
        describe(app.take_effects()),
        ["10 stop", "10 start", "10 check 0", "10 hook failed"]
    );
}

#[test]
fn added_processes_get_names_of_their_own() {
    let mut app = three();
    let add = |cmd: &str, name: Option<&str>| Action::AddProc {
        cmd: cmd.to_string(),
        name: name.map(|n| n.to_string()),
    };
    run(&mut app, add("sleep 1", Some("a")));
    assert_eq!(describe(app.take_effects()), ["spawn 100 /a-2 /bin/sh -c sleep 1"]);
    run(&mut app, add("x/y", None));
    assert_eq!(describe(app.take_effects()), ["spawn 101 /x_y /bin/sh -c x/y"]);
    run(&mut app, Action::DuplicateProc);
    run(&mut app, Action::RenameProc { name: "a".to_string() });
    run(&mut app, Action::RenameProc { name: "b".to_string() });
    assert_eq!(describe(app.take_effects()), ["10 duplicate a-2", "label 10 a", "label 10 b-2"]);
}

#[test]
fn only_a_process_that_is_down_may_be_removed() {
    let mut app = three();
    assert_eq!(run(&mut app, Action::ShowRemoveProc), LoopAction::Skip);
    assert!(app.core.modal.is_none());
    run(&mut app, Action::SelectProc { index: 1 });
    assert_eq!(run(&mut app, Action::ShowRemoveProc), LoopAction::Render);
    assert_eq!(app.core.modal, Some(Modal::RemoveProc(TaskId(11))));
    run(&mut app, Action::CloseCurrentModal);
    assert!(app.core.modal.is_none());
    run(&mut app, Action::RemoveProc { id: TaskId(11) });
    assert_eq!(describe(app.take_effects()), ["remove 11"]);
    let mut act = LoopAction::default();
    app.handle_notification(&mut act, TaskId(11), TaskNotify::Removed, 0);
    assert_eq!(app.core.state.procs.len(), 2);
}

#[test]
fn scrolling_goes_by_lines_or_half_screens() {
    let mut app = three();
    app.core.vts.add_terminal(41, 80, 0);
    run(&mut app, Action::ScrollUpLines { n: 3 });
    run(&mut app, Action::ScrollDownLines { n: 3 });
    run(&mut app, Action::ScrollUp);
    run(&mut app, Action::ScrollDown);
    run(&mut app, Action::SelectProc { index: 1 });
    run(&mut app, Action::ScrollUp);
    assert_eq!(
        describe(app.take_effects()),
        [
            "10 Scroll { delta: 3 }",
            "10 Scroll { delta: -3 }",
            "10 Scroll { delta: 20 }",
            "10 Scroll { delta: -20 }",
            "11 Scroll { delta: 1 }",
        ]
    );
}

#[test]
fn the_focus_moves_between_the_panes() {
    let mut app = three();
    assert_eq!(app.core.state.scope, Scope::Procs);
    run(&mut app, Action::ToggleFocus);
    assert_eq!(app.core.state.scope, Scope::Term);
    run(&mut app, Action::Zoom);
    assert!(app.core.state.scope.is_zoomed());
    run(&mut app, Action::ToggleFocus);
    assert_eq!(app.core.state.scope, Scope::Procs);
    run(&mut app, Action::FocusTerm);
    run(&mut app, Action::FocusProcs);
    assert_eq!(app.core.state.scope, Scope::Procs);
    run(&mut app, Action::CopyModeEnter);
    run(&mut app, Action::CopyModeMove { dir: CopyMove::Left });
    run(&mut app, Action::CopyModeEnd);
    run(&mut app, Action::CopyModeCopy);
    run(&mut app, Action::CopyModeLeave);
    assert_eq!(app.core.state.scope, Scope::Term);
    assert_eq!(
        describe(app.take_effects()),
        [
            "10 CopyEnter",
            "10 CopyMove { dir: Left }",
            "10 CopyBeginSelection",
            "10 CopyYank",
            "10 CopyLeave",
        ]
    );
    run(&mut app, Action::ToggleKeymapWindow);
    assert!(app.core.state.hide_keymap_window);
    run(&mut app, Action::QuitOrAsk);
    assert_eq!(app.core.modal, Some(Modal::Quit));
}

#[test]
fn output_of_another_process_is_marked() {
    let mut app = three();
    let mut act = LoopAction::default();
    app.handle_screen_notify(&mut act, FramedScreenNotify::Render { task_id: TaskId(10) });
    app.handle_screen_notify(&mut act, FramedScreenNotify::Render { task_id: TaskId(11) });
    assert_eq!(act, LoopAction::Render);
    let changed: Vec<bool> = app.core.state.procs.iter().map(|p| p.changed).collect();
    assert_eq!(changed, [false, true, false]);
    run(&mut app, Action::SelectProc { index: 1 });
    assert!(!app.core.state.procs[1].changed);
    let mut act = LoopAction::default();
    app.handle_screen_notify(&mut act, FramedScreenNotify::ObserveStarted { task_id: TaskId(10) });
    app.handle_screen_notify(&mut act, FramedScreenNotify::Bell { task_id: TaskId(11) });
    assert_eq!(act, LoopAction::Skip);
    app.handle_screen_notify(&mut act, FramedScreenNotify::Yank { text: "hi".to_string() });
    assert_eq!(describe(app.take_effects()), ["copy hi"]);
    let present = FramedScreenNotify::CopyPresent { task_id: TaskId(11), vt: Some(SharedVt(9)) };
    app.handle_screen_notify(&mut act, present);
    assert!(app.core.state.procs[1].copy_active());
}

fn client(id: u32, width: u16, height: u16) -> ServerMessage {
    let size = Size { width, height };
    ServerMessage::ClientConnected { handle: ClientHandle { id: ClientId(id), size } }
}

fn tell(app: &mut App, msg: ServerMessage) -> Result<(), UnexpectedMessage> {
    let mut act = LoopAction::default();
    app.handle_server_message(&mut act, msg, false, 0)
}

#[test]
fn the_first_client_sets_the_size() {
    let mut app = three();
    tell(&mut app, client(1, 100, 30)).unwrap();
    tell(&mut app, client(2, 50, 20)).unwrap();
    assert_eq!(app.core.screen_size, Size { width: 100, height: 30 });
    let resize = |id: u32, w: u16, h: u16| ServerMessage::ClientMessage {
        client_id: ClientId(id),
        msg: CltToSrv::Key(TermEvent::Resize(w, h)),
    };
    tell(&mut app, resize(2, 60, 25)).unwrap();
    assert_eq!(app.core.screen_size, Size { width: 100, height: 30 });
    tell(&mut app, resize(1, 90, 40)).unwrap();
    assert_eq!(app.core.screen_size, Size { width: 90, height: 40 });
    assert_eq!(app.core.grid.size(), Size { width: 90, height: 40 });
    run(&mut app, Action::Detach { client_id: ClientId(1) });
    assert_eq!(app.core.screen_size, Size { width: 60, height: 25 });
}

#[test]
fn a_client_that_goes_leaves_the_processes_alone() {
    let mut app = three();
    tell(&mut app, client(1, 100, 30)).unwrap();
    tell(&mut app, ServerMessage::ClientDisconnected { client_id: ClientId(1) }).unwrap();
    assert!(!app.core.state.quitting);
    assert!(app.take_effects().is_empty());
}

#[test]
fn the_last_client_may_stop_everything() {
    let mut app = three();
    app.config.on_client_exit = OnClientExit::StopAll;
    tell(&mut app, client(1, 100, 30)).unwrap();
    tell(&mut app, client(2, 100, 30)).unwrap();
    tell(&mut app, ServerMessage::ClientDisconnected { client_id: ClientId(1) }).unwrap();
    assert!(!app.core.state.quitting);
    tell(&mut app, ServerMessage::ClientDisconnected { client_id: ClientId(2) }).unwrap();
    assert!(app.core.state.quitting);
    assert_eq!(describe(app.take_effects()), ["10 stop", "12 stop"]);
}

#[test]
fn unexpected_messages_are_refused() {
    let mut app = three();
    let size = Size { width: 1, height: 1 };
    let msg = |msg: CltToSrv| ServerMessage::ClientMessage { client_id: ClientId(1), msg };
    let err = tell(&mut app, msg(CltToSrv::Init { size })).unwrap_err();
    assert_eq!(err.message(), "Init message is unexpected.");
    let rpc = DkRequest::Stop { path: "/a".to_string() };
    let err = tell(&mut app, msg(CltToSrv::Rpc(rpc))).unwrap_err();
    assert_eq!(err.message(), "Rpc message is unexpected in app.");
    assert_eq!(app.core.state.current_client_id, Some(ClientId(1)));
}

fn key(code: KeyCode, kind: KeyEventKind) -> ServerMessage {
    ServerMessage::ClientMessage {
        client_id: ClientId(1),
        msg: CltToSrv::Key(TermEvent::Key(Key { code, mods: KeyMods::none(), kind })),
    }
}

#[test]
fn bound_keys_act_and_others_are_typed() {
    let mut app = three();
    let x = Key::new(KeyCode::Char('x'), KeyMods::none());
    app.keymap.bind(KeymapGroup::Procs, x, Action::StartProc);
    app.keymap.bind(KeymapGroup::Procs, x, Action::TermProc);
    tell(&mut app, key(KeyCode::Char('x'), KeyEventKind::Press)).unwrap();
    tell(&mut app, key(KeyCode::Char('x'), KeyEventKind::Repeat)).unwrap();
    tell(&mut app, key(KeyCode::Char('x'), KeyEventKind::Release)).unwrap();
    tell(&mut app, key(KeyCode::Char('y'), KeyEventKind::Press)).unwrap();
    assert_eq!(describe(app.take_effects()), ["10 stop", "10 stop"]);
    run(&mut app, Action::FocusTerm);
    tell(&mut app, key(KeyCode::Char('x'), KeyEventKind::Press)).unwrap();
    assert_eq!(describe(app.take_effects()), ["10 input Char('x')"]);
    assert_eq!(app.core.state.current_client_id, None);
}

#[test]
fn a_window_that_deals_with_a_key_keeps_it() {
    let mut app = three();
    app.keymap.bind(
        KeymapGroup::Procs,
        Key::new(KeyCode::Enter, KeyMods::none()),
        Action::StartProc,
    );
    let mut act = LoopAction::default();
    run(&mut app, Action::ShowAddProc);
    app.handle_server_message(&mut act, key(KeyCode::Enter, KeyEventKind::Press), true, 0).unwrap();
    assert!(app.take_effects().is_empty());
    app.handle_server_message(&mut act, key(KeyCode::Enter, KeyEventKind::Press), false, 0).unwrap();
    assert_eq!(describe(app.take_effects()), ["10 start"]);
}

fn mouse(kind: MouseEventKind, x: i32, y: i32) -> ServerMessage {
    ServerMessage::ClientMessage {
        client_id: ClientId(1),
        msg: CltToSrv::Key(TermEvent::Mouse(MouseEvent { kind, x, y, mods: KeyMods::none() })),
    }
}

#[test]
fn a_double_click_shows_the_rows() {
    let mut app = with_rows();
    let down = MouseEventKind::Down(MouseButton::Left);
    let mut act = LoopAction::default();
    let mut click = |app: &mut App, y: i32, now: u64| {
        app.handle_server_message(&mut act, mouse(down, 3, y), false, now).unwrap();
    };
    click(&mut app, 1, 1000);
    click(&mut app, 1, 1399);
    assert!(app.core.state.procs[0].expanded);
    click(&mut app, 2, 2000);
    assert_eq!(app.core.state.procs[0].focused_child, Some(0));
    click(&mut app, 4, 3000);
    assert_eq!(app.core.state.selected(), 1);
    click(&mut app, 4, 3400);
    assert!(!app.core.state.procs[1].expanded);
    click(&mut app, 40, 4000);
    assert_eq!(app.core.state.selected(), 1);
}

#[test]
fn the_mouse_reaches_the_terminal() {
    let mut app = three();
    let down = MouseEventKind::Down(MouseButton::Left);
    tell(&mut app, mouse(down, 40, 5)).unwrap();
    assert_eq!(app.core.state.scope, Scope::Term);
    match app.take_effects().as_slice() {
        [Effect::Task(id, TaskOp::Screen(TaskScreenCmd::Mouse { event }))] => {
            assert_eq!((*id, event.x, event.y), (TaskId(10), 9, 4));
        }
        _ => panic!("no mouse event"),
    }
    tell(&mut app, mouse(down, 3, 1)).unwrap();
    assert_eq!(app.core.state.scope, Scope::Procs);
    tell(&mut app, mouse(MouseEventKind::ScrollDown, 3, 1)).unwrap();
    assert_eq!(app.core.state.selected(), 1);
    tell(&mut app, mouse(MouseEventKind::ScrollUp, 3, 1)).unwrap();
    tell(&mut app, mouse(MouseEventKind::ScrollUp, 3, 1)).unwrap();
    assert_eq!(app.core.state.selected(), 0);
}

#[test]
fn configured_processes_are_run_with_their_dependencies() {
    let mut config = Config::make_default();
    config.proc_defaults.autorestart = Some(true);
    let mut api = proc_config("api/v1", &["db"]);
    api.vars.insert("PORT".to_string(), "80".to_string());
    api.cmd = Some(CmdConfig::Cmd {
        cmd: vec!["serve".to_string(), "%PORT%".to_string()],
    });
    api.env = vec![("P".to_string(), Some("<%PORT%>".to_string())), ("Q".to_string(), None)];
    config.procs = vec![proc_config("db", &[]), api, proc_config("api_v1", &[])];
    let mut app = app_with(config);
    app.start_procs().unwrap();
    let effects = app.take_effects();
    match &effects[1] {
        Effect::Spawn { config, .. } => {
            assert_eq!(config.deps, [TaskId(100)]);
            assert!(config.autorestart && !config.autostart);
            assert_eq!(config.label.as_deref(), Some("api/v1"));
            assert_eq!(
                config.spec.env,
                [("P".to_string(), Some("<80>".to_string())), ("Q".to_string(), None)]
            );
        }
        _ => panic!("not run"),
    }
    assert_eq!(
        describe(effects),
        [
            "spawn 100 /db /bin/sh -c true",
            "spawn 101 /api_v1 serve 80",
            "spawn 102 /api_v1-102 /bin/sh -c true",
        ]
    );
}

#[test]
fn unresolved_dependencies_run_nothing() {
    let mut config = Config::make_default();
    config.procs = vec![proc_config("api", &["db"])];
    let mut app = app_with(config);
    let err = app.start_procs().unwrap_err();
    assert_eq!(err.message(), "Process 'api' depends on unknown process 'db'.");
    assert!(app.take_effects().is_empty());
}

#[test]
fn tasks_that_are_there_are_listed() {
    let mut config = Config::make_default();
    config.procs = vec![proc_config("web", &["db"])];
    let mut app = app_with(config);
    let info = |id: usize, path: &str, vt: Option<usize>| TaskInfo {
        id: TaskId(id),
        path: TaskPath::new(path.to_string()),
        label: None,
        status: TaskStatus::Running,
        vt: vt.map(SharedVt),
    };
    let list = vec![
        info(1, "/web/check_1", Some(3)),
        info(2, "/web", Some(4)),
        info(3, "/hidden", None),
        info(2, "/again", Some(4)),
    ];
    app.refresh_procs(&list, 0);
    assert_eq!(app.core.state.procs.len(), 1);
    let web = &app.core.state.procs[0];
    let kinds: Vec<ChildKind> = web.children.iter().map(|c| c.kind).collect();
    assert_eq!(kinds, [ChildKind::Deps, ChildKind::Check(1)]);
    assert_eq!(web.deps, ["db"]);
}

#[test]
fn something_is_done_when_all_have_finished() {
    let mut app = three();
    app.config.on_all_finished = Some(Action::Quit);
    let mut act = LoopAction::default();
    app.handle_notification(&mut act, TaskId(12), TaskNotify::Stopped(0), 0);
    assert!(!app.core.state.quitting);
    app.handle_notification(&mut act, TaskId(10), TaskNotify::StatusChanged(TaskStatus::Completed), 0);
    assert!(app.core.state.quitting);
}

#[test]
fn processes_are_told_when_their_screen_changes() {
    let mut app = three();
    let config = Config::make_default();
    let last = app.core.sync_term_size(&config, Size { width: 128, height: 45 });
    assert_eq!(last, Size { width: 128, height: 45 });
    assert!(app.take_effects().is_empty());
    run(&mut app, Action::Zoom);
    let size = app.core.sync_term_size(&config, last);
    assert_eq!(size, Size { width: 158, height: 47 });
    assert_eq!(app.take_effects().len(), 3);
}

#[test]
fn the_layout_tiles_the_screen() {
    let area = Rect::new(0, 0, 80, 24);
    let l = AppLayout::new(area, false, false, 30);
    assert_eq!(l.procs, Rect::new(0, 0, 30, 21));
    assert_eq!(l.term, Rect::new(30, 0, 50, 21));
    assert_eq!(l.keymap, Rect::new(0, 21, 80, 3));
    assert_eq!(l.term_area(), Rect::new(31, 1, 48, 19));
    let z = AppLayout::new(area, true, false, 30);
    assert_eq!(z.term, Rect::new(0, 1, 80, 23));
    assert_eq!(z.zoom_banner, Rect::new(0, 0, 80, 1));
}

#[test]
fn short_runs_do_not_show() {
    let mut row = ChildRow::new(None, ChildKind::Check(0), "x".to_string(), SharedVt(0));
    row.set_status(ChildStatus::LastExit(0), 0);
    row.set_status(ChildStatus::Running, 1000);
    assert_eq!(row.displayed_status(1299), ChildStatus::LastExit(0));
    assert_eq!(row.displayed_status(1300), ChildStatus::Running);
    row.apply_task_status(TaskStatus::Exited(u32::MAX), 2000);
    assert_eq!(row.status, ChildStatus::LastExit(-1));
}

#[test]
fn segments_name_rows() {
    assert_eq!(child_kind_from_segment("check_12"), Some(ChildKind::Check(12)));
    assert_eq!(child_kind_from_segment("hook_running"), Some(ChildKind::Hook(HookEvent::Running)));
    assert_eq!(child_kind_from_segment("check_"), None);
    assert_eq!(child_kind_from_segment("hook_x"), None);
    assert_eq!(child_kind_from_segment("deps"), None);
}

#[test]
fn paths_have_names_and_parents() {
    let p = TaskPath::new("/a/b".to_string()).unwrap();
    assert_eq!((p.name().as_str(), p.depth()), ("b", 2));
    assert_eq!(p.parent().unwrap().as_str(), "/a");
    assert!(p.parent().unwrap().parent().is_none());
    for bad in ["", "a", "/a/", "//a", "/a//b"] {
        assert!(TaskPath::new(bad.to_string()).is_none());
    }
    assert_eq!(TaskPath::new("/".to_string()).unwrap().depth(), 0);
    assert_eq!(sanitize_component("a/b"), "a_b");
    assert_eq!(sanitize_component(""), "_");
}

#[test]
fn the_list_follows_the_selection() {
    let mut list = ListState { selected: 7, ..ListState::new() };
    list.fit(Rect::new(0, 0, 10, 4), 20);
    assert_eq!((list.start, list.end), (4, 8));
    list.selected = 2;
    list.fit(Rect::new(0, 0, 10, 4), 3);
    assert_eq!((list.start, list.end), (0, 3));
}

fn row_text(grid: &Grid, row: u16) -> String {
    let size = grid.size();
    (0..size.width)
        .map(|col| {
            let s = grid.drawing_cell(Pos { col, row }).unwrap().contents();
            if s.is_empty() { " ".to_string() } else { s }
        })
        .collect()
}

#[test]
fn the_dependencies_of_a_process_are_drawn() {
    let mut config = Config::make_default();
    config.procs = vec![proc_config("web", &["db", "nope"])];
    let mut app = app_with(config);
    let mut act = LoopAction::default();
    app.handle_notification(&mut act, TaskId(1), added("/web", None, TaskStatus::NotStarted, 9), 0);
    app.handle_notification(&mut act, TaskId(2), added("/db", None, TaskStatus::Exited(3), 9), 0);
    run(&mut app, Action::ToggleProcChildren);
    run(&mut app, Action::NextProc);
    let mut grid = Grid::new(Size { width: 40, height: 7 }, 0);
    render_term(Rect::new(0, 0, 40, 7), &mut grid, &app.core.state, &app.core.vts);
    assert_eq!(row_text(&grid, 0), "┌Dependencies──────────────────────────┐");
    assert_eq!(row_text(&grid, 1), "│Dependencies of web                   │");
    assert_eq!(row_text(&grid, 3), "│ ✗ db       DOWN (3)                  │");
    assert_eq!(row_text(&grid, 4), "│ ? nope     not found                 │");
}

#[test]
fn the_terminal_of_a_process_is_drawn() {
    let mut app = three();
    app.core.vts.add_terminal(2, 4, 0);
    app.core.vts.screens[0].title = "vim".to_string();
    app.core.vts.screens[0].cursor_col = 2;
    run(&mut app, Action::FocusTerm);
    let mut grid = Grid::new(Size { width: 20, height: 4 }, 0);
    render_term(Rect::new(0, 0, 20, 4), &mut grid, &app.core.state, &app.core.vts);
    assert_eq!(row_text(&grid, 0), "┏Terminal vim━━━━━━┓");
    assert_eq!(grid.cursor_pos, Some(Pos { col: 3, row: 1 }));
}

#[test]
fn a_window_gets_keys_first() {
    let mut app = three();
    let press = key(KeyCode::Enter, KeyEventKind::Press);
    assert!(app.core.input_to_modal(&press).is_none());
    run(&mut app, Action::QuitOrAsk);
    assert!(matches!(app.core.input_to_modal(&press), Some((Modal::Quit, TermEvent::Key(_)))));
    let release = key(KeyCode::Enter, KeyEventKind::Release);
    assert!(app.core.input_to_modal(&release).is_none());
    assert!(app.core.input_to_modal(&client(1, 80, 24)).is_none());
}

#[test]
fn the_initial_action_is_handed_out_once() {
    let mut config = Config::make_default();
    config.on_init = Some(Action::Quit);
    let mut app = app_with(config);
    assert!(matches!(app.initial_action(), Some(Action::Quit)));
    assert!(app.initial_action().is_none());
}

#[test]
fn processes_and_their_rows_are_found_by_their_tasks() {
    let mut app = with_rows();
    let a = app.core.state.procs[0].id();
    let proc = app.core.state.get_proc_mut(a).unwrap();
    assert_eq!(proc.visible_row_count(), 1);
    proc.expanded = true;
    assert_eq!(proc.visible_row_count(), 3);
    assert_eq!(proc.find_child_mut(TaskId(21)).unwrap().kind, ChildKind::Hook(HookEvent::Failed));
    assert!(proc.find_child_mut(TaskId(99)).is_none());
    assert!(app.core.state.get_proc_mut(TaskId(99)).is_none());
}
