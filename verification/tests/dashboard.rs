use dekit::console::dashboard::layout::{
    checked_node_width, layout_from, layout_graph, node_width, try_layout_from, try_layout_graph,
    GraphLayout,
};
use dekit::console::dashboard::render::{draw_edges, node_at, try_node_at, try_render_dashboard};
use dekit::console::proc::view::ProcView;
use dekit::console::state::State;
use dekit::kernel::task::{TaskId, TaskStatus};
use dekit::term::attrs::{Attrs, Color};
use dekit::term::grid::Grid;
use dekit::term::rect::{Pos, Rect, Size};
use dekit::term::screen::SharedVt;

#[test]
fn chain_lays_out_left_to_right() {
    let names = ["db", "api", "web"];
    let deps = vec![vec![], vec![0], vec![1]];
    let g = layout_from(&names, &deps);

    let x: Vec<u16> = (0..3).map(|i| g.node_for_proc(i).unwrap().rect.x).collect();
    assert!(x[0] < x[1] && x[1] < x[2]);
    assert_eq!(x, [0, 13, 27]);
}

#[test]
fn independent_procs_get_separate_rows() {
    let names = ["a", "b"];
    let deps = vec![vec![], vec![]];
    let g = layout_from(&names, &deps);

    let y0 = g.node_for_proc(0).unwrap().rect.y;
    let y1 = g.node_for_proc(1).unwrap().rect.y;
    assert_ne!(y0, y1);
    assert!(y1 > y0 + 1);
}

#[test]
fn diamond_places_dependent_after_both_deps() {
    let names = ["root", "left", "right", "join"];
    let deps = vec![vec![], vec![0], vec![0], vec![1, 2]];
    let g = layout_from(&names, &deps);

    let join_x = g.node_for_proc(3).unwrap().rect.x;
    let left_x = g.node_for_proc(1).unwrap().rect.x;
    let right_x = g.node_for_proc(2).unwrap().rect.x;
    assert!(join_x > left_x && join_x > right_x);
    assert_eq!(g.edges.len(), 4);
}

#[test]
fn cycle_does_not_hang() {
    let names = ["a", "b"];
    let deps = vec![vec![1], vec![0]];
    let g = layout_from(&names, &deps);
    assert_eq!(g.nodes.len(), 2);
}

fn render_to_string(names: &[&str], deps: &[Vec<usize>], w: u16, h: u16) -> String {
    let graph = layout_from(names, deps);
    let mut grid = Grid::new(Size { width: w, height: h }, 0);
    let inner = Rect::new(0, 0, w, h);
    draw_edges(&mut grid, inner, &graph, 0, 0);
    for node in &graph.nodes {
        let label = format!(" ○ {} ", names[node.proc_idx]);
        grid.draw_text(node.rect, &label, Attrs::default());
    }
    let mut out = String::new();
    for row in 0..h {
        for col in 0..w {
            let ch = grid
                .drawing_cell(Pos { col, row })
                .map(|c| c.contents().to_string())
                .filter(|s| !s.is_empty())
                .unwrap_or_else(|| " ".to_string());
            out.push_str(&ch);
        }
        out.push('\n');
    }
    out
}

#[test]
fn graph_renders_connected_lines() {
    let names = ["db", "api", "web", "worker", "logger", "cache"];
    let deps = vec![vec![], vec![0], vec![1], vec![0], vec![], vec![0, 1]];
    let art = render_to_string(&names, &deps, 60, 12);
    println!("\n{}", art);
    assert!(art.contains('○'));
    assert!(art.contains('─') && art.contains('│'));
}

#[test]
fn a_line_runs_from_box_to_box() {
    let art = render_to_string(&["a", "b"], &[vec![], vec![0]], 20, 3);
    let rows: Vec<&str> = art.lines().collect();
    assert_eq!(rows[0], " ○ a ─────┐         ");
    assert_eq!(rows[1], "          └─ ○ b    ");
    assert_eq!(rows[2], "                    ");
}

#[test]
fn wide_names_take_more_columns() {
    assert_eq!(node_width("api"), 7);
    assert_eq!(node_width("\u{65e5}\u{672c}"), 8);
    assert_eq!(checked_node_width("\u{65e5}\u{672c}"), Some(8));
}

#[test]
fn a_graph_beyond_the_screen_is_not_laid_out() {
    let long = "x".repeat(40_000);
    let names = [long.as_str(), long.as_str()];
    assert!(try_layout_from(&names, &[vec![], vec![0]]).is_none());
    assert!(try_layout_from(&names, &[vec![], vec![]]).is_some());
    assert_eq!(checked_node_width(&"x".repeat(65_535)), None);
}

fn proc(id: usize, name: &str, deps: &[&str], status: TaskStatus) -> ProcView {
    ProcView::new(
        TaskId(id),
        name.to_string(),
        status,
        SharedVt(id),
        None,
        deps.iter().map(|d| d.to_string()).collect(),
    )
}

fn state_of(procs: Vec<ProcView>) -> State {
    let mut state = State::new(false);
    state.procs = procs;
    state
}

fn cells(grid: &Grid, row: u16) -> String {
    let size = grid.size();
    (0..size.width)
        .map(|col| {
            let s = grid.drawing_cell(Pos { col, row }).unwrap().contents();
            if s.is_empty() { " ".to_string() } else { s }
        })
        .collect()
}

#[test]
fn unknown_dependencies_are_left_out_of_the_graph() {
    let state = state_of(vec![
        proc(1, "db", &[], TaskStatus::Running),
        proc(2, "api", &["db", "nope"], TaskStatus::NotStarted),
    ]);
    let g: GraphLayout = layout_graph(&state.procs);
    assert_eq!(g.edges.len(), 1);
    assert_eq!((g.edges[0].from, g.edges[0].to), (0, 1));
    assert_eq!((g.content_width, g.content_height), (20, 2));
    assert!(try_layout_graph(&state.procs).is_some());
    assert_eq!(g.nodes[0].center_col(), 3);
    assert_eq!(g.nodes[1].center_row(), 1);
}

#[test]
fn the_dashboard_shows_the_graph() {
    let state = state_of(vec![
        proc(1, "db", &[], TaskStatus::Running),
        proc(2, "api", &["db"], TaskStatus::Exited(0)),
    ]);
    let mut grid = Grid::new(Size { width: 30, height: 6 }, 0);
    assert!(try_render_dashboard(Rect::new(0, 0, 30, 6), &mut grid, &state));
    assert_eq!(cells(&grid, 0), "┌Dashboard───────────────────┐");
    assert_eq!(cells(&grid, 1), "│ ● db ─────┐                │");
    assert_eq!(cells(&grid, 2), "│           └─ ○ api         │");
    let dot = grid.drawing_cell(Pos { col: 2, row: 1 }).unwrap();
    assert_eq!(dot.attrs.fg, Color::BrightGreen);
    let ring = grid.drawing_cell(Pos { col: 15, row: 2 }).unwrap();
    assert_eq!(ring.attrs.fg, Color::BrightBlue);
}

#[test]
fn an_empty_dashboard_says_so() {
    let state = state_of(vec![]);
    let mut grid = Grid::new(Size { width: 20, height: 4 }, 0);
    assert!(try_render_dashboard(Rect::new(0, 0, 20, 4), &mut grid, &state));
    assert_eq!(cells(&grid, 1), "│No processes      │");
    let mut small = Grid::new(Size { width: 20, height: 4 }, 0);
    assert!(try_render_dashboard(Rect::new(0, 0, 2, 4), &mut small, &state));
    assert_eq!(cells(&small, 1), "                    ");
}

#[test]
fn a_process_that_waits_is_yellow() {
    let mut state = state_of(vec![
        proc(1, "db", &[], TaskStatus::Starting),
        proc(2, "api", &["db"], TaskStatus::NotStarted),
        proc(3, "lone", &[], TaskStatus::NotStarted),
    ]);
    let area = Rect::new(0, 0, 40, 10);
    let color = |state: &State, row: u16, col: u16| {
        let mut grid = Grid::new(Size { width: 40, height: 10 }, 0);
        assert!(try_render_dashboard(area, &mut grid, state));
        grid.drawing_cell(Pos { col, row }).unwrap().attrs.fg
    };
    assert_eq!(color(&state, 2, 17), Color::BrightYellow);
    assert_eq!(color(&state, 4, 2), Color::BrightBlack);
    state.procs[0].status = TaskStatus::Completed;
    assert_eq!(color(&state, 2, 17), Color::BrightBlack);
    assert_eq!(color(&state, 1, 2), Color::BrightGreen);
}

#[test]
fn a_click_on_a_node_finds_its_process() {
    let mut state = state_of(vec![
        proc(1, "db", &[], TaskStatus::Running),
        proc(2, "api", &["db"], TaskStatus::Running),
    ]);
    let area = Rect::new(0, 0, 40, 10);
    assert_eq!(node_at(area, &state, 1, 1), Some(0));
    assert_eq!(node_at(area, &state, 6, 1), Some(0));
    assert_eq!(node_at(area, &state, 7, 1), None);
    assert_eq!(node_at(area, &state, 14, 2), Some(1));
    assert_eq!(node_at(area, &state, 14, 1), None);
    state.dashboard.scroll_row = 1;
    assert_eq!(try_node_at(area, &state, 14, 1), Some(1));
    assert_eq!(node_at(area, &state_of(vec![]), 1, 1), None);
}
