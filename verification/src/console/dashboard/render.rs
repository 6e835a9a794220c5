//! Draws the dependency graph.

use crate::console::dashboard::layout::{
    is_layout, layout_fits, layout_graph, listing_nodes_are_apart, names_of, node_of, placed_nodes,
    resolved_deps, try_layout_graph, Edge, GraphLayout, NodeBox, COLUMN_GAP,
};
use crate::console::pane::{draw_frame, first_line, with_frame};
use crate::console::proc::view::{ProcModel, ProcView};
use crate::console::state::{find_named, named, procs_view, State, StateModel};
use crate::kernel::task::TaskStatus;
use crate::term::attrs::{plain_attrs, Attrs, Color};
use crate::term::grid::{
    lemma_up_to_end, lemma_up_to_row, lemma_up_to_step, up_to, Cell, Grid, GridView,
};
use crate::term::rect::{Pos, Rect};
use crate::text::to_chars;
use vstd::prelude::*;

verus! {

/// Which ways lines leave a cell.
#[derive(Clone, Copy, Debug, PartialEq, Eq, Structural)]
pub struct Dirs {
    pub up: bool,
    pub down: bool,
    pub left: bool,
    pub right: bool,
}

impl Dirs {
    pub open spec fn nowhere() -> Dirs {
        Dirs { up: false, down: false, left: false, right: false }
    }

    pub open spec fn along() -> Dirs {
        Dirs { up: false, down: false, left: true, right: true }
    }

    pub open spec fn joined(self, other: Dirs) -> Dirs {
        Dirs {
            up: self.up || other.up,
            down: self.down || other.down,
            left: self.left || other.left,
            right: self.right || other.right,
        }
    }

    pub open spec fn any(self) -> bool {
        self.up || self.down || self.left || self.right
    }
}

/// The character that joins the lines of a cell.
pub open spec fn junction_char(d: Dirs) -> char {
    match (d.up, d.down, d.left, d.right) {
        (false, false, true, true) => '─',
        (true, true, false, false) => '│',
        (false, true, false, true) => '┌',
        (false, true, true, false) => '┐',
        (true, false, false, true) => '└',
        (true, false, true, false) => '┘',
        (true, true, false, true) => '├',
        (true, true, true, false) => '┤',
        (false, true, true, true) => '┬',
        (true, false, true, true) => '┴',
        (true, true, true, true) => '┼',
        _ => if d.up || d.down {
            '│'
        } else {
            '─'
        },
    }
}

fn junction(d: Dirs) -> (r: char)
    ensures
        r == junction_char(d),
{
    match (d.up, d.down, d.left, d.right) {
        (false, false, true, true) => '─',
        (true, true, false, false) => '│',
        (false, true, false, true) => '┌',
        (false, true, true, false) => '┐',
        (true, false, false, true) => '└',
        (true, false, true, false) => '┘',
        (true, true, false, true) => '├',
        (true, true, true, false) => '┤',
        (false, true, true, true) => '┬',
        (true, false, true, true) => '┴',
        (true, true, true, true) => '┼',
        _ => if d.up || d.down {
            '│'
        } else {
            '─'
        },
    }
}

/// The column in which a line changes rows: two before what it leads to, but
/// not before where it starts.
pub open spec fn channel(from: Rect, to: Rect) -> int {
    let start = from.x + from.width;
    if to.x - 2 > start {
        to.x - 2
    } else {
        start
    }
}

/// How the line from the box `from` to the box `to` runs through a cell: right
/// from the one, along the channel, right to the other.
pub open spec fn line_dirs(from: Rect, to: Rect, col: int, row: int) -> Dirs {
    let start = from.x + from.width;
    let turn = channel(from, to);
    let down = to.y > from.y;
    if from.y == to.y {
        if row == from.y && start <= col < to.x {
            Dirs::along()
        } else {
            Dirs::nowhere()
        }
    } else if row == from.y && start <= col < turn {
        Dirs::along()
    } else if row == from.y && col == turn {
        Dirs { up: !down, down, left: true, right: false }
    } else if row == to.y && col == turn {
        Dirs { up: down, down: !down, left: false, right: true }
    } else if col == turn && (from.y < row < to.y || to.y < row < from.y) {
        Dirs { up: true, down: true, left: false, right: false }
    } else if row == to.y && turn < col < to.x {
        Dirs::along()
    } else {
        Dirs::nowhere()
    }
}

/// A line to a box further right is unbroken: it leaves every cell towards
/// another cell of its own that leads back to it, but for its two ends, where
/// the boxes are.
pub proof fn line_is_unbroken(from: Rect, to: Rect, col: int, row: int)
    requires
        from.x + from.width + COLUMN_GAP <= to.x,
    ensures
        ({
            let here = line_dirs(from, to, col, row);
            &&& here.right ==> line_dirs(from, to, col + 1, row).left || (row == to.y && col + 1
                == to.x)
            &&& here.left ==> line_dirs(from, to, col - 1, row).right || (row == from.y && col
                == from.x + from.width)
            &&& here.down ==> line_dirs(from, to, col, row + 1).up
            &&& here.up ==> line_dirs(from, to, col, row - 1).down
        }),
        line_dirs(from, to, from.x + from.width, from.y as int).left,
        line_dirs(from, to, to.x - 1, to.y as int).right,
{
}

/// How the line of an edge runs through a cell.
pub open spec fn edge_dirs(nodes: Seq<NodeBox>, edge: Edge, col: int, row: int) -> Dirs {
    match (node_of(nodes, edge.from), node_of(nodes, edge.to)) {
        (Some(from), Some(to)) => line_dirs(from.rect, to.rect, col, row),
        _ => Dirs::nowhere(),
    }
}

/// How the lines of the first `n` edges run through a cell.
pub open spec fn edges_dirs(
    nodes: Seq<NodeBox>,
    edges: Seq<Edge>,
    n: nat,
    col: int,
    row: int,
) -> Dirs
    decreases n,
{
    if n == 0 {
        Dirs::nowhere()
    } else {
        edges_dirs(nodes, edges, (n - 1) as nat, col, row).joined(
            edge_dirs(nodes, edges[n - 1], col, row),
        )
    }
}

/// The cells of all lines, as far as they are in view.
pub open spec fn edge_cells(
    inner: Rect,
    nodes: Seq<NodeBox>,
    edges: Seq<Edge>,
    scroll_col: i32,
    scroll_row: i32,
) -> spec_fn(int, int) -> Option<Cell> {
    |col: int, row: int|
        {
            let dirs = edges_dirs(
                nodes,
                edges,
                edges.len(),
                col - inner.x + scroll_col,
                row - inner.y + scroll_row,
            );
            if inner.covers(col, row) && dirs.any() {
                Some(
                    Cell {
                        ch: Some(junction_char(dirs)),
                        attrs: Attrs { fg: Color::BrightBlack, ..plain_attrs() },
                    },
                )
            } else {
                None
            }
        }
}

fn dirs_of_line(from: Rect, to: Rect, col: i64, row: i64) -> (r: Dirs)
    ensures
        r == line_dirs(from, to, col as int, row as int),
{
    let start: i64 = from.x as i64 + from.width as i64;
    let (from_y, to_y, to_x): (i64, i64, i64) = (from.y as i64, to.y as i64, to.x as i64);
    let turn: i64 = if to_x - 2 > start {
        to_x - 2
    } else {
        start
    };
    let down = to_y > from_y;
    let along = Dirs { up: false, down: false, left: true, right: true };
    let nowhere = Dirs { up: false, down: false, left: false, right: false };
    if from_y == to_y {
        if row == from_y && start <= col && col < to_x {
            along
        } else {
            nowhere
        }
    } else if row == from_y && start <= col && col < turn {
        along
    } else if row == from_y && col == turn {
        Dirs { up: !down, down, left: true, right: false }
    } else if row == to_y && col == turn {
        Dirs { up: down, down: !down, left: false, right: true }
    } else if col == turn && ((from_y < row && row < to_y) || (to_y < row && row < from_y)) {
        Dirs { up: true, down: true, left: false, right: false }
    } else if row == to_y && turn < col && col < to_x {
        along
    } else {
        nowhere
    }
}

fn dirs_at(graph: &GraphLayout, col: i64, row: i64) -> (r: Dirs)
    ensures
        r == edges_dirs(
            graph.nodes@,
            graph.edges@,
            graph.edges@.len(),
            col as int,
            row as int,
        ),
{
    let mut all = Dirs { up: false, down: false, left: false, right: false };
    let mut i: usize = 0;
    while i < graph.edges.len()
        invariant
            i <= graph.edges@.len(),
            all == edges_dirs(graph.nodes@, graph.edges@, i as nat, col as int, row as int),
        decreases graph.edges@.len() - i,
    {
        let edge = graph.edges[i];
        if let (Some(from), Some(to)) = (
            graph.node_for_proc(edge.from),
            graph.node_for_proc(edge.to),
        ) {
            let d = dirs_of_line(from.rect, to.rect, col, row);
            all = Dirs {
                up: all.up || d.up,
                down: all.down || d.down,
                left: all.left || d.left,
                right: all.right || d.right,
            };
        }
        i += 1;
    }
    all
}

/// Draws the lines of the graph.
pub fn draw_edges(
    grid: &mut Grid,
    inner: Rect,
    graph: &GraphLayout,
    scroll_col: i32,
    scroll_row: i32,
)
    requires
        old(grid).wf(),
        inner.fits(),
    ensures
        final(grid).wf(),
        final(grid)@ == old(grid)@.painted(
            edge_cells(inner, graph.nodes@, graph.edges@, scroll_col, scroll_row),
        ),
{
    let ghost g0 = grid@;
    let ghost f = edge_cells(inner, graph.nodes@, graph.edges@, scroll_col, scroll_row);
    proof {
        assert(g0.painted(up_to(f, inner, inner.y as int, inner.x as int)) =~= g0);
    }
    let mut row: u16 = inner.y;
    while row < inner.y + inner.height
        invariant
            grid.wf(),
            inner.fits(),
            inner.y <= row <= inner.y + inner.height,
            f == edge_cells(inner, graph.nodes@, graph.edges@, scroll_col, scroll_row),
            grid@ == g0.painted(up_to(f, inner, row as int, inner.x as int)),
        decreases inner.y + inner.height - row,
    {
        let mut col: u16 = inner.x;
        while col < inner.x + inner.width
            invariant
                grid.wf(),
                inner.fits(),
                inner.y <= row < inner.y + inner.height,
                inner.x <= col <= inner.x + inner.width,
                f == edge_cells(inner, graph.nodes@, graph.edges@, scroll_col, scroll_row),
                grid@ == g0.painted(up_to(f, inner, row as int, col as int)),
            decreases inner.x + inner.width - col,
        {
            let dirs = dirs_at(
                graph,
                (col - inner.x) as i64 + scroll_col as i64,
                (row - inner.y) as i64 + scroll_row as i64,
            );
            if dirs.up || dirs.down || dirs.left || dirs.right {
                grid.put(
                    Pos { col, row },
                    Cell {
                        ch: Some(junction(dirs)),
                        attrs: Attrs::plain().fg(Color::BrightBlack),
                    },
                );
            }
            proof {
                lemma_up_to_step(g0, f, inner, row as int, col as int);
            }
            col += 1;
        }
        proof {
            lemma_up_to_row(g0, f, inner, row as int);
        }
        row += 1;
    }
    proof {
        lemma_up_to_end(g0, f, inner);
    }
}

/// Whether a dependency keeps a process from starting: neither does it run,
/// nor is it completed, or it is not known.
pub open spec fn dep_blocks(procs: Seq<ProcModel>, name: Seq<char>) -> bool {
    match named(procs, name) {
        Some(i) => !procs[i].status.releases_dependents(),
        None => true,
    }
}

pub open spec fn waits(proc: ProcModel, procs: Seq<ProcModel>) -> bool {
    exists|k: int| 0 <= k < proc.deps.len() && dep_blocks(procs, #[trigger] proc.deps[k])
}

fn waiting_for_deps(proc: &ProcView, all_procs: &Vec<ProcView>) -> (r: bool)
    ensures
        r == waits(proc@, procs_view(all_procs@)),
{
    let ghost all = procs_view(all_procs@);
    let mut k: usize = 0;
    while k < proc.deps.len()
        invariant
            k <= proc.deps@.len(),
            all == procs_view(all_procs@),
            forall|j: int| 0 <= j < k ==> !dep_blocks(all, #[trigger] proc@.deps[j]),
        decreases proc.deps@.len() - k,
    {
        proof {
            assert(proc@.deps[k as int] == proc.deps@[k as int]@);
        }
        let blocked = match find_named(all_procs, proc.deps[k].as_str()) {
            Some(i) => match all_procs[i].status {
                TaskStatus::Running | TaskStatus::Completed => false,
                _ => true,
            },
            None => true,
        };
        if blocked {
            proof {
                assert(dep_blocks(all, proc@.deps[k as int]));
            }
            return true;
        }
        k += 1;
    }
    false
}

/// How the status of a process is shown.
pub open spec fn status_look(proc: ProcModel, procs: Seq<ProcModel>) -> (char, Color) {
    match proc.status {
        TaskStatus::Starting => ('◐', Color::BrightYellow),
        TaskStatus::Unhealthy => ('●', Color::BrightRed),
        TaskStatus::Completed => ('✓', Color::BrightGreen),
        TaskStatus::Running => ('●', Color::BrightGreen),
        TaskStatus::Exited(code) => if code == 0 {
            ('○', Color::BrightBlue)
        } else {
            ('✗', Color::BrightRed)
        },
        TaskStatus::NotStarted => if waits(proc, procs) {
            ('○', Color::BrightYellow)
        } else {
            ('○', Color::BrightBlack)
        },
    }
}

fn status_visual(proc: &ProcView, all_procs: &Vec<ProcView>) -> (r: (char, Color))
    ensures
        r == status_look(proc@, procs_view(all_procs@)),
{
    match proc.status {
        TaskStatus::Starting => ('◐', Color::BrightYellow),
        TaskStatus::Unhealthy => ('●', Color::BrightRed),
        TaskStatus::Completed => ('✓', Color::BrightGreen),
        TaskStatus::Running => ('●', Color::BrightGreen),
        TaskStatus::Exited(code) => if code == 0 {
            ('○', Color::BrightBlue)
        } else {
            ('✗', Color::BrightRed)
        },
        TaskStatus::NotStarted => if waiting_for_deps(proc, all_procs) {
            ('○', Color::BrightYellow)
        } else {
            ('○', Color::BrightBlack)
        },
    }
}

/// The text of a node.
pub open spec fn node_label(glyph: char, name: Seq<char>) -> Seq<char> {
    seq![' ', glyph, ' '] + name + seq![' ']
}

/// Where a node begins on the screen.
pub open spec fn screen_col(inner: Rect, node: NodeBox, scroll_col: i32) -> int {
    inner.x + node.rect.x - scroll_col
}

pub open spec fn screen_row(inner: Rect, node: NodeBox, scroll_row: i32) -> int {
    inner.y + node.rect.y - scroll_row
}

/// One character after the other from (at, row) on, as far as they are in
/// view; the second one has its own color.
pub open spec fn label_cells(
    inner: Rect,
    at: int,
    row: int,
    label: Seq<char>,
    base: Attrs,
    color: Color,
) -> spec_fn(int, int) -> Option<Cell> {
    |x: int, y: int|
        if inner.covers(x, y) && y == row && at <= x < at + label.len() {
            Some(
                Cell {
                    ch: Some(label[x - at]),
                    attrs: if x == at + 1 {
                        Attrs { fg: color, ..base }
                    } else {
                        base
                    },
                },
            )
        } else {
            None
        }
}

pub open spec fn node_base(focused: bool) -> Attrs {
    if focused {
        Attrs { bg: Color::Idx(240), bold: true, ..plain_attrs() }
    } else {
        plain_attrs()
    }
}

pub open spec fn with_node(g: GridView, inner: Rect, node: NodeBox, state: StateModel) -> GridView {
    if node.proc_idx < state.procs.len() {
        let proc = state.procs[node.proc_idx as int];
        let (glyph, color) = status_look(proc, state.procs);
        g.painted(
            label_cells(
                inner,
                screen_col(inner, node, state.dashboard.scroll_col),
                screen_row(inner, node, state.dashboard.scroll_row),
                node_label(glyph, proc.name),
                node_base(state.dashboard.focused_node == Some(node.proc_idx)),
                color,
            ),
        )
    } else {
        g
    }
}

/// The first `n` nodes.
pub open spec fn with_nodes(
    g: GridView,
    inner: Rect,
    nodes: Seq<NodeBox>,
    n: nat,
    state: StateModel,
) -> GridView
    decreases n,
{
    if n == 0 {
        g
    } else {
        with_node(
            with_nodes(g, inner, nodes, (n - 1) as nat, state),
            inner,
            nodes[n - 1],
            state,
        )
    }
}

/// `label_cells` for the first `n` characters.
spec fn label_upto(
    inner: Rect,
    at: int,
    row: int,
    label: Seq<char>,
    base: Attrs,
    color: Color,
    n: int,
) -> spec_fn(int, int) -> Option<Cell> {
    label_cells(inner, at, row, label.take(n), base, color)
}

proof fn lemma_label_step(
    g: GridView,
    inner: Rect,
    at: int,
    row: int,
    label: Seq<char>,
    base: Attrs,
    color: Color,
    n: int,
)
    requires
        0 <= n < label.len(),
    ensures
        g.painted(label_upto(inner, at, row, label, base, color, n + 1)) == (if inner.covers(
            at + n,
            row,
        ) {
            g.painted(label_upto(inner, at, row, label, base, color, n)).put(
                at + n,
                row,
                Cell {
                    ch: Some(label[n]),
                    attrs: if n == 1 {
                        Attrs { fg: color, ..base }
                    } else {
                        base
                    },
                },
            )
        } else {
            g.painted(label_upto(inner, at, row, label, base, color, n))
        }),
{
    let a = g.painted(label_upto(inner, at, row, label, base, color, n + 1));
    let b = g.painted(label_upto(inner, at, row, label, base, color, n));
    assert(label.take(n + 1)[n] == label[n]);
    assert forall|k: int| 0 <= k < n implies label.take(n + 1)[k] == label.take(n)[k] by {}
    if inner.covers(at + n, row) {
        let c = b.put(
            at + n,
            row,
            Cell {
                ch: Some(label[n]),
                attrs: if n == 1 {
                    Attrs { fg: color, ..base }
                } else {
                    base
                },
            },
        );
        assert(a =~= c);
    } else {
        assert(a =~= b);
    }
}

fn draw_label(
    grid: &mut Grid,
    inner: Rect,
    at: i64,
    row: i64,
    label: &Vec<char>,
    base: Attrs,
    color: Color,
)
    requires
        old(grid).wf(),
        inner.fits(),
    ensures
        final(grid).wf(),
        final(grid)@ == old(grid)@.painted(
            label_cells(inner, at as int, row as int, label@, base, color),
        ),
{
    let ghost g0 = grid@;
    if row < inner.y as i64 || row >= inner.y as i64 + inner.height as i64 {
        proof {
            assert(g0.painted(label_cells(inner, at as int, row as int, label@, base, color))
                =~= g0);
        }
        return;
    }
    let mut k: usize = 0;
    proof {
        assert(g0.painted(label_upto(inner, at as int, row as int, label@, base, color, 0))
            =~= g0);
    }
    while k < label.len()
        invariant
            grid.wf(),
            inner.fits(),
            inner.y <= row < inner.y + inner.height,
            k <= label@.len(),
            grid@ == g0.painted(
                label_upto(inner, at as int, row as int, label@, base, color, k as int),
            ),
        decreases label@.len() - k,
    {
        let col: i128 = at as i128 + k as i128;
        if col >= inner.x as i128 && col < inner.x as i128 + inner.width as i128 {
            let attrs = if k == 1 {
                base.fg(color)
            } else {
                base
            };
            grid.put(
                Pos { col: col as u16, row: row as u16 },
                Cell { ch: Some(label[k]), attrs },
            );
        }
        proof {
            lemma_label_step(
                g0,
                inner,
                at as int,
                row as int,
                label@,
                base,
                color,
                k as int,
            );
        }
        k += 1;
    }
    proof {
        assert(label@.take(k as int) =~= label@);
    }
}

fn draw_node(grid: &mut Grid, inner: Rect, node: NodeBox, state: &State)
    requires
        old(grid).wf(),
        inner.fits(),
    ensures
        final(grid).wf(),
        final(grid)@ == with_node(old(grid)@, inner, node, state@),
{
    if node.proc_idx >= state.procs.len() {
        return;
    }
    let proc = &state.procs[node.proc_idx];
    let focused = match state.dashboard.focused_node {
        Some(i) => i == node.proc_idx,
        None => false,
    };
    let (glyph, color) = status_visual(proc, &state.procs);
    let mut label: Vec<char> = Vec::new();
    label.push(' ');
    label.push(glyph);
    label.push(' ');
    let mut name = to_chars(proc.name());
    label.append(&mut name);
    label.push(' ');
    proof {
        assert(label@ =~= node_label(glyph, proc@.name));
    }
    let base = if focused {
        Attrs::plain().bg(Color::Idx(240)).set_bold(true)
    } else {
        Attrs::plain()
    };
    draw_label(
        grid,
        inner,
        inner.x as i64 + node.rect.x as i64 - state.dashboard.scroll_col as i64,
        inner.y as i64 + node.rect.y as i64 - state.dashboard.scroll_row as i64,
        &label,
        base,
        color,
    );
}

fn draw_nodes(grid: &mut Grid, inner: Rect, graph: &GraphLayout, state: &State)
    requires
        old(grid).wf(),
        inner.fits(),
    ensures
        final(grid).wf(),
        final(grid)@ == with_nodes(
            old(grid)@,
            inner,
            graph.nodes@,
            graph.nodes@.len(),
            state@,
        ),
{
    let mut i: usize = 0;
    while i < graph.nodes.len()
        invariant
            grid.wf(),
            inner.fits(),
            i <= graph.nodes@.len(),
            grid@ == with_nodes(old(grid)@, inner, graph.nodes@, i as nat, state@),
        decreases graph.nodes@.len() - i,
    {
        draw_node(grid, inner, graph.nodes[i], state);
        i += 1;
    }
}

/// The lines of a graph with its nodes over them.
pub open spec fn with_graph(
    g: GridView,
    inner: Rect,
    nodes: Seq<NodeBox>,
    edges: Seq<Edge>,
    state: StateModel,
) -> GridView {
    with_nodes(
        g.painted(
            edge_cells(
                inner,
                nodes,
                edges,
                state.dashboard.scroll_col,
                state.dashboard.scroll_row,
            ),
        ),
        inner,
        nodes,
        nodes.len(),
        state,
    )
}

/// The dashboard: a frame, and in it the graph of the processes.
pub open spec fn with_dashboard(g: GridView, area: Rect, state: StateModel) -> GridView {
    if !has_room(area) {
        g
    } else {
        let framed = with_frame(g, area, "Dashboard"@, !(state.scope is Procs));
        let inner = area.shrunk(1);
        if state.procs.len() == 0 {
            framed.text(
                first_line(inner),
                "No processes"@,
                Attrs { fg: Color::BrightBlack, ..plain_attrs() },
            )
        } else {
            with_graph(
                framed,
                inner,
                placed_nodes(names_of(state.procs), resolved_deps(state.procs)),
                crate::console::dashboard::layout::edges_of(resolved_deps(state.procs)),
                state,
            )
        }
    }
}

/// Whether the graph of the processes has coordinates.
pub open spec fn graph_fits(state: StateModel) -> bool {
    layout_fits(names_of(state.procs), resolved_deps(state.procs))
}

/// Whether there is room for a dashboard.
pub open spec fn has_room(area: Rect) -> bool {
    area.width >= 3 && area.height >= 3
}

fn draw_dashboard(area: Rect, grid: &mut Grid, state: &State, graph: &GraphLayout)
    requires
        old(grid).wf(),
        area.fits(),
        has_room(area),
        is_layout(*graph, names_of(state@.procs), resolved_deps(state@.procs)),
    ensures
        final(grid).wf(),
        final(grid)@ == with_dashboard(old(grid)@, area, state@),
{
    draw_frame(grid, area, "Dashboard", state.scope.in_term());
    let inner = area.inner(1);
    if state.procs.len() == 0 {
        grid.draw_text(
            Rect { x: inner.x, y: inner.y, width: inner.width, height: 1 },
            "No processes",
            Attrs::plain().fg(Color::BrightBlack),
        );
        return;
    }
    draw_edges(grid, inner, graph, state.dashboard.scroll_col, state.dashboard.scroll_row);
    draw_nodes(grid, inner, graph, state);
}

/// Draws the dependency graph.
pub fn render_dashboard(area: Rect, grid: &mut Grid, state: &State)
    requires
        old(grid).wf(),
        area.fits(),
        has_room(area) ==> graph_fits(state@),
    ensures
        final(grid).wf(),
        final(grid)@ == with_dashboard(old(grid)@, area, state@),
{
    if area.width < 3 || area.height < 3 {
        return;
    }
    let graph = layout_graph(&state.procs);
    draw_dashboard(area, grid, state, &graph);
}

/// Draws the dependency graph, unless it is beyond the coordinate range.
pub fn try_render_dashboard(area: Rect, grid: &mut Grid, state: &State) -> (r: bool)
    requires
        old(grid).wf(),
        area.fits(),
    ensures
        final(grid).wf(),
        r == (has_room(area) ==> graph_fits(state@)),
        final(grid)@ == (if r {
            with_dashboard(old(grid)@, area, state@)
        } else {
            old(grid)@
        }),
{
    if area.width < 3 || area.height < 3 {
        return true;
    }
    match try_layout_graph(&state.procs) {
        Some(_) => {
            render_dashboard(area, grid, state);
            true
        },
        None => false,
    }
}

/// Whether a position on the screen is in the box of a node.
pub open spec fn node_hit(
    inner: Rect,
    node: NodeBox,
    scroll_col: i32,
    scroll_row: i32,
    x: int,
    y: int,
) -> bool {
    let at = screen_col(inner, node, scroll_col);
    y == screen_row(inner, node, scroll_row) && at <= x < at + node.rect.width
}

/// The process of the first node that is hit.
pub open spec fn first_hit(
    inner: Rect,
    nodes: Seq<NodeBox>,
    scroll_col: i32,
    scroll_row: i32,
    x: int,
    y: int,
) -> Option<usize>
    decreases nodes.len(),
{
    if nodes.len() == 0 {
        None
    } else if node_hit(inner, nodes[0], scroll_col, scroll_row, x, y) {
        Some(nodes[0].proc_idx)
    } else {
        first_hit(inner, nodes.skip(1), scroll_col, scroll_row, x, y)
    }
}

/// The process whose node is at a position.
pub open spec fn proc_at(area: Rect, state: StateModel, x: u16, y: u16) -> Option<usize> {
    if state.procs.len() == 0 {
        None
    } else {
        first_hit(
            area.shrunk(1),
            placed_nodes(names_of(state.procs), resolved_deps(state.procs)),
            state.dashboard.scroll_col,
            state.dashboard.scroll_row,
            x as int,
            y as int,
        )
    }
}

proof fn lemma_first_hit(
    inner: Rect,
    nodes: Seq<NodeBox>,
    scroll_col: i32,
    scroll_row: i32,
    x: int,
    y: int,
    k: int,
)
    requires
        0 <= k < nodes.len(),
        node_hit(inner, nodes[k], scroll_col, scroll_row, x, y),
        forall|j: int| 0 <= j < k ==> (#[trigger] nodes[j]).rect.y != nodes[k].rect.y,
    ensures
        first_hit(inner, nodes, scroll_col, scroll_row, x, y) == Some(nodes[k].proc_idx),
    decreases nodes.len(),
{
    if k > 0 {
        assert(nodes[0].rect.y != nodes[k].rect.y);
        let rest = nodes.skip(1);
        assert forall|j: int| 0 <= j < k - 1 implies (#[trigger] rest[j]).rect.y != rest[k
            - 1].rect.y by {
            assert(nodes[j + 1].rect.y != nodes[k].rect.y);
        }
        lemma_first_hit(inner, rest, scroll_col, scroll_row, x, y, k - 1);
    }
}

/// A position in the box of a node stands for the process of that node, and
/// for no other.
pub proof fn click_hits_the_node(area: Rect, state: StateModel, k: int, x: u16, y: u16)
    requires
        graph_fits(state),
        state.procs.len() <= usize::MAX,
        0 <= k < state.procs.len(),
        node_hit(
            area.shrunk(1),
            placed_nodes(names_of(state.procs), resolved_deps(state.procs))[k],
            state.dashboard.scroll_col,
            state.dashboard.scroll_row,
            x as int,
            y as int,
        ),
    ensures
        proc_at(area, state, x, y) == Some(
            placed_nodes(names_of(state.procs), resolved_deps(state.procs))[k].proc_idx,
        ),
{
    let names = names_of(state.procs);
    let deps = resolved_deps(state.procs);
    let nodes = placed_nodes(names, deps);
    crate::console::dashboard::layout::lemma_resolved_graph(state.procs);
    assert forall|j: int| 0 <= j < k implies (#[trigger] nodes[j]).rect.y != nodes[k].rect.y by {
        listing_nodes_are_apart(names, deps, j, k);
    }
    lemma_first_hit(
        area.shrunk(1),
        nodes,
        state.dashboard.scroll_col,
        state.dashboard.scroll_row,
        x as int,
        y as int,
        k,
    );
}

fn find_hit(
    inner: Rect,
    nodes: &Vec<NodeBox>,
    scroll_col: i32,
    scroll_row: i32,
    x: u16,
    y: u16,
) -> (r: Option<usize>)
    ensures
        r == first_hit(inner, nodes@, scroll_col, scroll_row, x as int, y as int),
{
    let mut i: usize = 0;
    proof {
        assert(nodes@.skip(0) =~= nodes@);
    }
    while i < nodes.len()
        invariant
            i <= nodes@.len(),
            first_hit(inner, nodes@, scroll_col, scroll_row, x as int, y as int) == first_hit(
                inner,
                nodes@.skip(i as int),
                scroll_col,
                scroll_row,
                x as int,
                y as int,
            ),
        decreases nodes@.len() - i,
    {
        let node = nodes[i];
        let at: i64 = inner.x as i64 + node.rect.x as i64 - scroll_col as i64;
        let row: i64 = inner.y as i64 + node.rect.y as i64 - scroll_row as i64;
        proof {
            assert(nodes@.skip(i as int).skip(1) =~= nodes@.skip(i + 1));
            assert(nodes@.skip(i as int)[0] == node);
        }
        if y as i64 == row && at <= x as i64 && (x as i64) < at + node.rect.width as i64 {
            return Some(node.proc_idx);
        }
        i += 1;
    }
    None
}

/// The process whose node is at a position of the screen.
pub fn node_at(area: Rect, state: &State, x: u16, y: u16) -> (r: Option<usize>)
    requires
        area.x < u16::MAX,
        area.y < u16::MAX,
        graph_fits(state@),
    ensures
        r == proc_at(area, state@, x, y),
{
    if state.procs.len() == 0 {
        return None;
    }
    let graph = layout_graph(&state.procs);
    find_hit(
        area.inner(1),
        &graph.nodes,
        state.dashboard.scroll_col,
        state.dashboard.scroll_row,
        x,
        y,
    )
}

/// The process whose node is at a position; nothing is found in a graph that
/// is beyond the coordinate range.
pub fn try_node_at(area: Rect, state: &State, x: u16, y: u16) -> (r: Option<usize>)
    requires
        area.x < u16::MAX,
        area.y < u16::MAX,
    ensures
        r == (if graph_fits(state@) {
            proc_at(area, state@, x, y)
        } else {
            None
        }),
{
    match try_layout_graph(&state.procs) {
        Some(_) => node_at(area, state, x, y),
        None => None,
    }
}

} // verus!
