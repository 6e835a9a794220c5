use dekit::config::health::{HealthCheckDef, HookDef, HookEvent, HookSet};
use dekit::config::proc::StopSignal;
use dekit::config::vars::Vars;
use dekit::console::scope::Scope;
use dekit::kernel::context::TaskContext;
use dekit::kernel::path::TaskPath;
use dekit::kernel::task::{TaskId, TaskStatus};
use dekit::mprocs::config::{Config, ProcConfig};
use dekit::mprocs::proc::children::{make_child_vt_handle, ChildKind, ChildStatus, ProcChild};
use dekit::mprocs::proc::copy_mode::{CopyMode, Pos as TextPos};
use dekit::mprocs::proc::hooks::{conclude_hook, HookError};
use dekit::mprocs::proc::launch::{build_env_overrides, healthcheck_display_name, launch_proc};
use dekit::mprocs::proc::msg::{ProcEvent, ProcMsg};
use dekit::mprocs::proc::proc::{mouse_is_sent, Action, Event, Proc};
use dekit::mprocs::proc::view::ProcView;
use dekit::mprocs::state::State;
use dekit::mprocs::ui_procs::{procs_get_clicked_index, render_procs, ClickTarget};
use dekit::mprocs::ui_term::{render_term, term_check_hit};
use dekit::console::list::ListState;
use dekit::task::hook_map::HookMap;
use dekit::task::machine::TaskReport;
use dekit::term::attrs::{Attrs, Color};
use dekit::term::grid::{Cell, Grid};
use dekit::term::key::{Key, KeyCode, KeyMods};
use dekit::term::mouse::{MouseButton, MouseEvent, MouseEventKind, MouseProtocolMode};
use dekit::term::rect::{Pos, Rect, Size};
use dekit::term::screen::{SharedVt, VtTable};

fn config(name: &str, deps: &[&str]) -> ProcConfig {
    ProcConfig {
        name: name.to_string(),
        deps: deps.iter().map(|d| d.to_string()).collect(),
        autostart: true,
        stop: StopSignal::default(),
        cwd: None,
        env: None,
        vars: Vars::new(),
        healthchecks: vec![],
        hooks: HookSet::default(),
        scrollback_len: 1000,
    }
}

fn view(id: usize, name: &str, deps: &[&str], status: TaskStatus) -> ProcView {
    let mut v = ProcView::new(TaskId(id), config(name, deps), SharedVt(id));
    v.status = status;
    v
}

fn state(procs: Vec<ProcView>) -> State {
    State { scope: Scope::Procs, procs, procs_list: ListState::new(), quitting: false }
}

fn row_text(grid: &Grid, row: u16) -> String {
    let size = grid.size();
    (0..size.width)
        .map(|col| {
            let s = grid.drawing_cell(Pos { col, row }).unwrap().contents();
            if s.is_empty() { " ".to_string() } else { s }
        })
        .collect()
}

fn title() -> Config {
    Config { proc_list_title: "Processes".to_string() }
}

#[test]
fn the_list_shows_processes_and_their_rows() {
    let mut web = view(0, "web", &["db"], TaskStatus::NotStarted);
    web.children.push(ProcChild::new(
        TaskId(9),
        ChildKind::Check(0),
        "ready".to_string(),
        SharedVt(5),
    ));
    web.expanded = true;
    let mut st = state(vec![
        web,
        view(1, "db", &[], TaskStatus::Starting),
        view(2, "job", &[], TaskStatus::Exited(7)),
        view(3, "up", &[], TaskStatus::Running),
        view(4, "hidden", &[], TaskStatus::Running),
    ]);
    let area = Rect::new(0, 0, 26, 7);
    let mut grid = Grid::new(Size { width: 26, height: 7 }, 0);
    render_procs(area, &mut grid, &mut st, &title(), 0);
    assert_eq!(row_text(&grid, 0), "┏Processes━━━━━━━━━━━━━━━┓");
    assert_eq!(row_text(&grid, 1), "┃•▼ web          WAITING ┃");
    assert_eq!(row_text(&grid, 2), "┃   ├─ check:ready     — ┃");
    assert_eq!(row_text(&grid, 3), "┃   db          STARTING ┃");
    assert_eq!(row_text(&grid, 4), "┃   job          DOWN (7)┃");
    assert_eq!(row_text(&grid, 5), "┃   up                UP ┃");
    let selected = grid.drawing_cell(Pos { col: 4, row: 1 }).unwrap();
    assert_eq!(selected.attrs.bg, Color::Idx(240));
    assert_eq!(
        procs_get_clicked_index(area, 3, 2, &st),
        Some(ClickTarget::Child { proc_idx: 0, child_idx: 0 })
    );
    assert_eq!(procs_get_clicked_index(area, 3, 3, &st), Some(ClickTarget::Proc(1)));
    assert_eq!(procs_get_clicked_index(area, 0, 3, &st), None);
}

#[test]
fn the_list_says_that_it_quits() {
    let mut st = state(vec![]);
    st.quitting = true;
    st.scope = Scope::Term;
    let mut grid = Grid::new(Size { width: 24, height: 4 }, 0);
    render_procs(Rect::new(0, 0, 24, 4), &mut grid, &mut st, &title(), 0);
    assert_eq!(row_text(&grid, 0), "┌Processes─QUITTING────┐");
    let mut narrow = Grid::new(Size { width: 24, height: 4 }, 0);
    render_procs(Rect::new(0, 0, 2, 4), &mut narrow, &mut st, &title(), 0);
    assert_eq!(row_text(&narrow, 0), " ".repeat(24));
}

#[test]
fn a_process_waits_for_its_dependencies() {
    let text = |dep: TaskStatus| {
        let mut st = state(vec![
            view(0, "web", &["db"], TaskStatus::NotStarted),
            view(1, "db", &[], dep),
        ]);
        let mut grid = Grid::new(Size { width: 24, height: 4 }, 0);
        render_procs(Rect::new(0, 0, 24, 4), &mut grid, &mut st, &title(), 0);
        row_text(&grid, 1)
    };
    assert_eq!(text(TaskStatus::Running), "┃•  web           DOWN ┃");
    assert_eq!(text(TaskStatus::Unhealthy), "┃•  web        WAITING ┃");
}

#[test]
fn statuses_of_rows_are_shown() {
    let mut row = ProcChild::new(TaskId(1), ChildKind::Hook(HookEvent::Failed), "failed".to_string(), SharedVt(0));
    row.status = ChildStatus::LastExit(2);
    let mut web = view(0, "web", &[], TaskStatus::Running);
    web.children.push(row);
    web.expanded = true;
    web.focused_child = Some(0);
    let mut st = state(vec![web]);
    let mut grid = Grid::new(Size { width: 30, height: 4 }, 0);
    render_procs(Rect::new(0, 0, 30, 4), &mut grid, &mut st, &title(), 0);
    assert_eq!(row_text(&grid, 1), "┃ ▼ web                   UP ┃");
    assert_eq!(row_text(&grid, 2), "┃•  ├─ hook:failed         ✗ ┃");
}

#[test]
fn the_screen_of_a_process_is_drawn() {
    let mut vts = VtTable::new();
    vts.add_terminal(2, 4, 100);
    let cell = |c: char| Cell { ch: Some(c), attrs: Attrs::plain() };
    vts.screens[0].rows = vec![vec![cell('h'), cell('i')]];
    vts.screens[0].title = "sh".to_string();
    vts.screens[0].scrollback = 12;
    let mut st = state(vec![view(0, "web", &[], TaskStatus::Running)]);
    st.scope = Scope::Term;
    let mut grid = Grid::new(Size { width: 20, height: 4 }, 0);
    render_term(Rect::new(0, 0, 20, 4), &mut grid, &st, &vts);
    assert_eq!(row_text(&grid, 0), "┏Terminal sh ━━━━━━┓");
    assert_eq!(row_text(&grid, 1), "┃hi            -12 ┃");
    assert_eq!(grid.cursor_pos, Some(Pos { col: 1, row: 1 }));
}

#[test]
fn copy_mode_shows_the_selection() {
    let mut vts = VtTable::new();
    vts.add_terminal(2, 4, 100);
    let mut frozen = VtTable::new();
    frozen.add_terminal(2, 4, 100);
    let mut screen = frozen.screens.pop().unwrap();
    let cell = |c: char| Cell { ch: Some(c), attrs: Attrs::plain() };
    screen.rows = vec![vec![cell('a'), cell('b'), cell('c')]];
    let mut web = view(0, "web", &[], TaskStatus::Running);
    web.copy_mode =
        CopyMode::Active(screen, TextPos { y: 0, x: 2 }, Some(TextPos { y: 0, x: 1 }));
    let mut st = state(vec![web]);
    st.scope = Scope::Term;
    let mut grid = Grid::new(Size { width: 24, height: 4 }, 0);
    render_term(Rect::new(0, 0, 24, 4), &mut grid, &st, &vts);
    assert_eq!(row_text(&grid, 0), "┏Terminal COPY MODE━━━━┓");
    let bg: Vec<Color> = (1..4)
        .map(|col| grid.drawing_cell(Pos { col, row: 1 }).unwrap().attrs.bg)
        .collect();
    assert_eq!(bg, [Color::Default, Color::Cyan, Color::Cyan]);
    assert_eq!(grid.cursor_pos, Some(Pos { col: 2, row: 1 }));
}

#[test]
fn a_selection_has_no_direction() {
    let pos = |y: i32, x: i32| TextPos { y, x };
    assert!(TextPos::within(&pos(0, 5), &pos(2, 1), &pos(1, 99)));
    assert!(TextPos::within(&pos(2, 1), &pos(0, 5), &pos(1, 99)));
    assert!(!TextPos::within(&pos(0, 5), &pos(2, 1), &pos(0, 4)));
    assert!(!TextPos::within(&pos(0, 5), &pos(2, 1), &pos(2, 2)));
}

#[test]
fn dependencies_are_drawn() {
    let mut web = view(0, "web", &["db"], TaskStatus::NotStarted);
    web.children.push(ProcChild::new(TaskId(9), ChildKind::Deps, "deps".to_string(), SharedVt(5)));
    web.focused_child = Some(0);
    let st = state(vec![web, view(1, "db", &[], TaskStatus::Running)]);
    let mut grid = Grid::new(Size { width: 36, height: 6 }, 0);
    render_term(Rect::new(0, 0, 36, 6), &mut grid, &st, &VtTable::new());
    assert_eq!(row_text(&grid, 0), "┌Dependencies──────────────────────┐");
    assert_eq!(row_text(&grid, 3), "│ ✓ db     UP                      │");
}

#[test]
fn hits_are_within_the_area() {
    let area = Rect::new(2, 3, 4, 5);
    assert!(term_check_hit(area, 2, 3) && term_check_hit(area, 5, 7));
    assert!(!term_check_hit(area, 1, 3) && !term_check_hit(area, 6, 3));
    assert!(!term_check_hit(area, 2, 8));
}

fn kinds(actions: &[Action]) -> Vec<&'static str> {
    actions
        .iter()
        .map(|a| match a {
            Action::Report(_) => "report",
            Action::ReportFor(_, _) => "report for",
            Action::Spawn => "spawn",
            Action::RunHook(_) => "hook",
            Action::StartChecks => "checks",
            Action::StopChecks => "no checks",
            Action::Signal(_) => "signal",
            Action::TypeStopKeys => "stop keys",
            Action::RunStopCmd => "stop cmd",
            Action::Kill => "kill",
            Action::Reap => "reap",
            Action::Screen(_) => "screen",
            Action::SendKey(_) => "key",
            Action::SendMouse(_) => "mouse",
            Action::ScrollUp(_) => "up",
            Action::ScrollDown(_) => "down",
            Action::ScrollToEnd => "to the end",
            Action::Write(_) => "write",
            Action::ShowOutput(_) => "output",
            Action::RerunCheck(_) => "recheck",
        })
        .collect()
}

fn proc(hooks: HookSet, autostart: bool) -> (Proc, Vec<Action>) {
    Proc::new(
        TaskId(1),
        Size { width: 80, height: 24 },
        StopSignal::SIGINT,
        vec![],
        hooks,
        HookMap::new(),
        autostart,
    )
}

#[test]
fn a_process_runs_and_ends() {
    let (mut p, actions) = proc(HookSet::default(), true);
    assert_eq!(kinds(&actions), ["spawn"]);
    assert!(p.handle(Event::Spawned(Some(5))).is_empty());
    assert_eq!(kinds(&p.handle(Event::Internal(ProcEvent::Started))), ["report"]);
    assert!(p.is_up());
    assert_eq!(kinds(&p.handle(Event::Stop)), ["signal"]);
    assert_eq!(kinds(&p.handle(Event::Internal(ProcEvent::Exited(3)))), ["reap"]);
    assert_eq!(p.exit_code(), Some(3));
    assert!(p.is_up());
    assert_eq!(kinds(&p.handle(Event::Read(0))), ["report"]);
    assert!(!p.is_up());
    assert!(!p.has_healthchecks());
}

#[test]
fn the_end_of_a_process_is_reported_once() {
    for eof_first in [true, false] {
        let (mut p, _) = proc(HookSet::default(), true);
        let exit = Event::Internal(ProcEvent::Exited(3));
        let (a, b) = if eof_first { (Event::Read(0), exit) } else { (exit, Event::Read(0)) };
        let mut stops: Vec<u32> = vec![];
        for event in [Event::Spawned(Some(5)), Event::Internal(ProcEvent::Started), a, b] {
            for action in p.handle(event) {
                if let Action::Report(TaskReport::TaskStopped(code)) = action {
                    stops.push(code);
                }
            }
        }
        assert_eq!(stops, [3]);
    }
}

#[test]
fn the_running_hook_of_an_unchecked_process_is_run() {
    let running = Some(HookDef { cmd: "warm".to_string(), async_: false });
    let (mut p, _) = proc(HookSet { running, ..HookSet::default() }, true);
    p.handle(Event::Spawned(Some(5)));
    match p.handle(Event::Internal(ProcEvent::Started)).as_slice() {
        [Action::RunHook(HookEvent::Running)] => {}
        _ => panic!("no hook"),
    }
    assert_eq!(kinds(&p.handle(Event::HookFinished(Ok(())))), ["report"]);
}

#[test]
fn scrolling_goes_by_half_a_screen() {
    let (mut p, _) = proc(HookSet::default(), false);
    match p.handle(Event::Msg(ProcMsg::ScrollUp)).as_slice() {
        [Action::ScrollUp(12)] => {}
        _ => panic!("no scroll"),
    }
    p.resize(Size { width: 80, height: 10 });
    match p.handle(Event::Msg(ProcMsg::ScrollDown)).as_slice() {
        [Action::ScrollDown(5)] => {}
        _ => panic!("no scroll"),
    }
}

#[test]
fn a_hook_that_nobody_waits_for_never_holds_up() {
    let failed = Err(HookError::ExitCode(3));
    assert_eq!(conclude_hook(&failed, true), (true, 3));
    assert_eq!(conclude_hook(&failed, false), (false, 3));
    assert_eq!(conclude_hook(&Err(HookError::IoError("x".to_string())), false), (false, 254));
    assert_eq!(conclude_hook(&Ok(()), false), (true, 0));
}

#[test]
fn mouse_events_are_sent_where_they_are_asked_for() {
    let event = |kind: MouseEventKind| MouseEvent { kind, x: 0, y: 0, mods: KeyMods::none() };
    let down = event(MouseEventKind::Down(MouseButton::Left));
    let up = event(MouseEventKind::Up(MouseButton::Left));
    let drag = event(MouseEventKind::Drag(MouseButton::Left));
    let moved = event(MouseEventKind::Moved);
    let sent = |mode: MouseProtocolMode| {
        [&down, &up, &drag, &moved].map(|e| mouse_is_sent(mode, e))
    };
    assert_eq!(sent(MouseProtocolMode::Off), [false, false, false, false]);
    assert_eq!(sent(MouseProtocolMode::Press), [true, false, false, false]);
    assert_eq!(sent(MouseProtocolMode::PressRelease), [true, true, false, false]);
    assert_eq!(sent(MouseProtocolMode::ButtonMotion), [true, true, true, false]);
    assert_eq!(sent(MouseProtocolMode::AnyMotion), [true, true, true, true]);
    let key = Key::new(KeyCode::Enter, KeyMods::none());
    let (mut p, _) = proc(HookSet::default(), false);
    assert!(p.handle(Event::Msg(ProcMsg::SendKey(key))).is_empty());
}

#[test]
fn a_process_is_launched_with_its_rows() {
    let mut ctx = TaskContext { task_id: TaskId(0), next_id: 50 };
    let mut vts = VtTable::new();
    let mut cfg = config("db", &[]);
    cfg.healthchecks = vec![
        HealthCheckDef { name: "ready".to_string(), ..HealthCheckDef::defaults() },
        HealthCheckDef::defaults(),
    ];
    cfg.hooks = HookSet {
        failed: Some(HookDef { cmd: "x".to_string(), async_: false }),
        ..HookSet::default()
    };
    assert_eq!(healthcheck_display_name(&cfg.healthchecks[0], 0), "ready");
    let l = launch_proc(
        &mut ctx,
        &mut vts,
        cfg,
        TaskId(9),
        vec![TaskId(3)],
        TaskPath::new("/db".to_string()),
        Rect::new(0, 0, 100, 40),
    );
    assert!(l.stop_on_quit);
    assert_eq!(l.view.children.len(), 3);
    assert_eq!(l.view.children[0].kind, ChildKind::Hook(HookEvent::Failed));
    assert_eq!(l.view.children[1].kind, ChildKind::Check(0));
    assert_eq!(l.hook_task_ids.get(HookEvent::Failed), Some(TaskId(50)));
    assert_eq!(l.check_task_ids, [TaskId(51), TaskId(52)]);
    assert_eq!(vts.screens.len(), 4);
    assert_eq!(vts.screens[0].size, Size { width: 100, height: 40 });
}

#[test]
fn variables_are_replaced_in_the_environment() {
    let mut cfg = config("db", &[]);
    cfg.vars.insert("PORT".to_string(), "80".to_string());
    cfg.env = Some(vec![
        ("A".to_string(), Some("%PORT%!".to_string())),
        ("B".to_string(), None),
    ]);
    assert_eq!(
        build_env_overrides(&cfg),
        [("A".to_string(), Some("80!".to_string())), ("B".to_string(), None)]
    );
}

#[test]
fn the_focused_row_has_its_own_terminal() {
    let mut web = view(3, "web", &[], TaskStatus::Running);
    assert_eq!(*web.focused_vt(), SharedVt(3));
    web.children.push(ProcChild::new(TaskId(9), ChildKind::Check(0), "x".to_string(), SharedVt(8)));
    web.focused_child = Some(0);
    assert_eq!(*web.focused_vt(), SharedVt(8));
    assert_eq!(make_child_vt_handle(SharedVt(8)).vt, SharedVt(8));
    web.rename("site");
    assert_eq!(web.name(), "site");
    web.changed = true;
    web.focus();
    assert!(!web.changed && web.is_up() && !web.is_starting() && !web.is_unhealthy());
}

#[test]
fn nothing_is_drawn_outside_of_an_area() {
    let blank = |grid: &Grid, area: Rect| {
        let size = grid.size();
        (0..size.height).all(|row| {
            (0..size.width).all(|col| {
                term_check_hit(area, col, row)
                    || grid.drawing_cell(Pos { col, row }).unwrap().contents().is_empty()
            })
        })
    };
    let mut vts = VtTable::new();
    vts.add_terminal(50, 200, 100);
    let cell = Cell { ch: Some('x'), attrs: Attrs::plain() };
    vts.screens[0].rows = (0..50).map(|_| (0..200).map(|_| cell).collect()).collect();
    vts.screens[0].title = "a title that is longer than the line".to_string();
    vts.screens[0].scrollback = 7;
    let mut st = state(vec![view(0, "a name that is longer than the row", &[], TaskStatus::Running)]);
    let area = Rect::new(3, 2, 14, 5);
    let mut grid = Grid::new(Size { width: 24, height: 9 }, 0);
    render_procs(area, &mut grid, &mut st, &title(), 0);
    assert!(blank(&grid, area));
    assert_eq!(row_text(&grid, 3), "   ┃•  a name th┃       ");
    let mut grid = Grid::new(Size { width: 24, height: 9 }, 0);
    render_term(area, &mut grid, &st, &vts);
    assert!(blank(&grid, area));
    assert_eq!(row_text(&grid, 3), "   │xxxxxxxx -7 │       ");
}

#[test]
fn parts_of_a_process_act_on_their_own() {
    let (mut p, _) = proc(HookSet::default(), true);
    let mut out = Vec::new();
    p.kill(&mut out);
    p.send_key(Key::new(KeyCode::Enter, KeyMods::none()), &mut out);
    p.write_all(3, vec![13], &mut out);
    assert!(out.is_empty());
    p.handle(Event::Spawned(Some(5)));
    p.start(&mut out);
    assert!(out.is_empty());
    p.stop(&mut out);
    p.kill(&mut out);
    p.send_key(Key::new(KeyCode::Enter, KeyMods::none()), &mut out);
    p.scroll_half_screen_up(&mut out);
    p.scroll_half_screen_down(&mut out);
    p.handle_exited(4, &mut out);
    assert_eq!(kinds(&out), ["signal", "kill", "key", "up", "down", "reap"]);
    let mut out = Vec::new();
    p.write_all(3, vec![13], &mut out);
    p.write_all(0, vec![13], &mut out);
    assert_eq!(kinds(&out), ["to the end", "write", "write"]);
    assert_eq!(p.exit_code(), Some(4));
    assert!(p.take_next_health_outcome().is_none());
}
