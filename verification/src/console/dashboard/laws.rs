//! What the dashboard shows of the processes.

use crate::console::dashboard::layout::{
    edges_of, layer_cols, layer_x, lemma_resolved_graph, listing_nodes_are_apart, names_of,
    node_cols, node_row, placed_node, placed_nodes, resolved_deps, resolved_upto, Edge, NodeBox,
};
use crate::console::dashboard::render::{
    dep_blocks, edge_cells, has_room, junction_char, line_dirs, node_label, status_look, waits,
    with_dashboard, with_nodes, Dirs,
};
use crate::console::pane::with_frame;
use crate::console::proc::view::ProcModel;
use crate::console::state::{named, StateModel};
use crate::graph::components::connected;
use crate::graph::order::{listing, pairs, pairs_upto};
use crate::kernel::task::TaskStatus;
use crate::term::attrs::Color;
use crate::term::grid::GridView;
use crate::term::rect::Rect;
use crate::term::width::all_printable_ascii;
use vstd::prelude::*;

verus! {

/// A process of this name is up and ready, or completed.
pub open spec fn is_released(procs: Seq<ProcModel>, name: Seq<char>) -> bool {
    exists|i: int|
        0 <= i < procs.len() && (#[trigger] procs[i]).name == name && (procs[i].status is Running
            || procs[i].status is Completed) && forall|j: int|
            0 <= j < i ==> (#[trigger] procs[j]).name != name
}

proof fn lemma_named(procs: Seq<ProcModel>, name: Seq<char>)
    ensures
        match named(procs, name) {
            Some(i) => 0 <= i < procs.len() && procs[i].name == name && forall|j: int|
                0 <= j < i ==> (#[trigger] procs[j]).name != name,
            None => forall|j: int| 0 <= j < procs.len() ==> (#[trigger] procs[j]).name != name,
        },
    decreases procs.len(),
{
    if procs.len() > 0 && procs[0].name != name {
        let t = procs.skip(1);
        lemma_named(t, name);
        match named(t, name) {
            Some(i) => {
                assert forall|j: int| 0 <= j < i + 1 implies (#[trigger] procs[j]).name != name by {
                    if j > 0 {
                        assert(t[j - 1].name != name);
                    }
                }
            },
            None => {
                assert forall|j: int| 0 <= j < procs.len() implies (#[trigger] procs[j]).name
                    != name by {
                    if j > 0 {
                        assert(t[j - 1].name != name);
                    }
                }
            },
        }
    }
}

/// A name stands for the first process that has it.
pub proof fn name_stands_for_the_first(procs: Seq<ProcModel>, name: Seq<char>)
    ensures
        match named(procs, name) {
            Some(i) => 0 <= i < procs.len() && procs[i].name == name && forall|j: int|
                0 <= j < i ==> (#[trigger] procs[j]).name != name,
            None => forall|j: int| 0 <= j < procs.len() ==> (#[trigger] procs[j]).name != name,
        },
{
    lemma_named(procs, name);
}

/// A process waits as long as a dependency is neither running nor completed,
/// or does not exist.
pub proof fn process_waits_for_its_dependencies(proc: ProcModel, procs: Seq<ProcModel>)
    ensures
        waits(proc, procs) <==> exists|k: int|
            0 <= k < proc.deps.len() && !is_released(procs, #[trigger] proc.deps[k]),
{
    assert forall|k: int| 0 <= k < proc.deps.len() implies (dep_blocks(
        procs,
        #[trigger] proc.deps[k],
    ) <==> !is_released(procs, proc.deps[k])) by {
        let name = proc.deps[k];
        lemma_named(procs, name);
        if let Some(i) = named(procs, name) {
            if is_released(procs, name) {
                let m = choose|m: int|
                    0 <= m < procs.len() && (#[trigger] procs[m]).name == name && (
                    procs[m].status is Running || procs[m].status is Completed) && forall|j: int|
                        0 <= j < m ==> (#[trigger] procs[j]).name != name;
                if m < i {
                    assert(procs[m].name != name);
                } else if i < m {
                    assert(procs[i].name != name);
                }
            }
        }
    }
}

/// How a process looks: what is ready is green, what starts or waits is
/// yellow, what is broken is red, what ended well is blue and what is not
/// started is gray.
pub open spec fn looks_right(status: TaskStatus, waiting: bool, glyph: char, color: Color) -> bool {
    match status {
        TaskStatus::Running => glyph == '●' && color == Color::BrightGreen,
        TaskStatus::Completed => glyph == '✓' && color == Color::BrightGreen,
        TaskStatus::Starting => glyph == '◐' && color == Color::BrightYellow,
        TaskStatus::Unhealthy => glyph == '●' && color == Color::BrightRed,
        TaskStatus::Exited(code) => {
            &&& code != 0 ==> glyph == '✗' && color == Color::BrightRed
            &&& code == 0 ==> glyph == '○' && color == Color::BrightBlue
        },
        TaskStatus::NotStarted => {
            &&& glyph == '○'
            &&& waiting ==> color == Color::BrightYellow
            &&& !waiting ==> color == Color::BrightBlack
        },
    }
}

/// Two processes are alike to someone who looks at the dashboard.
pub open spec fn same_kind(a: TaskStatus, wa: bool, b: TaskStatus, wb: bool) -> bool {
    match (a, b) {
        (TaskStatus::Exited(x), TaskStatus::Exited(y)) => x == 0 <==> y == 0,
        (TaskStatus::NotStarted, TaskStatus::NotStarted) => wa == wb,
        _ => a == b,
    }
}

/// Processes look alike exactly if they are in the same state: of those that
/// ended it shows whether they failed, of those that are not started whether
/// they wait.
pub proof fn states_are_told_apart(a: ProcModel, b: ProcModel, procs: Seq<ProcModel>)
    ensures
        status_look(a, procs) == status_look(b, procs) <==> same_kind(
            a.status,
            waits(a, procs),
            b.status,
            waits(b, procs),
        ),
        looks_right(
            a.status,
            waits(a, procs),
            status_look(a, procs).0,
            status_look(a, procs).1,
        ),
{
}

/// What the cell `j` columns into the node of a process shows: the sign of its
/// status in the color of its status, and its name.
pub open spec fn node_cell_is(
    g: GridView,
    p: ProcModel,
    procs: Seq<ProcModel>,
    focused: bool,
    x: int,
    y: int,
    j: int,
) -> bool {
    let cell = g.cells[(x, y)];
    &&& j == 1 ==> cell.ch is Some && looks_right(
        p.status,
        waits(p, procs),
        cell.ch->0,
        cell.attrs.fg,
    )
    &&& 3 <= j < p.name.len() + 3 ==> cell.ch == Some(p.name[j - 3])
    &&& j == 0 || j == 2 || j == p.name.len() + 3 ==> cell.ch == Some(' ')
    &&& cell.attrs.bold == focused
    &&& focused <==> cell.attrs.bg != Color::Default
}

proof fn lemma_drawn_node(
    g: GridView,
    inner: Rect,
    nodes: Seq<NodeBox>,
    n: nat,
    state: StateModel,
    k: int,
    j: int,
)
    requires
        0 <= k < n <= nodes.len(),
        nodes[k].proc_idx < state.procs.len(),
        forall|l: int|
            0 <= l < nodes.len() && l != k ==> (#[trigger] nodes[l]).rect.y != nodes[k].rect.y,
        0 <= j < state.procs[nodes[k].proc_idx as int].name.len() + 4,
        ({
            let x = inner.x + nodes[k].rect.x - state.dashboard.scroll_col + j;
            let y = inner.y + nodes[k].rect.y - state.dashboard.scroll_row;
            inner.covers(x, y) && with_nodes(g, inner, nodes, n, state).cells.dom().contains(
                (x, y),
            )
        }),
    ensures
        ({
            let x = inner.x + nodes[k].rect.x - state.dashboard.scroll_col + j;
            let y = inner.y + nodes[k].rect.y - state.dashboard.scroll_row;
            node_cell_is(
                with_nodes(g, inner, nodes, n, state),
                state.procs[nodes[k].proc_idx as int],
                state.procs,
                state.dashboard.focused_node == Some(nodes[k].proc_idx),
                x,
                y,
                j,
            )
        }),
    decreases n,
{
    let x = inner.x + nodes[k].rect.x - state.dashboard.scroll_col + j;
    let y = inner.y + nodes[k].rect.y - state.dashboard.scroll_row;
    let before = with_nodes(g, inner, nodes, (n - 1) as nat, state);
    let after = with_nodes(g, inner, nodes, n, state);
    if k == n - 1 {
        let p = state.procs[nodes[k].proc_idx as int];
        let (glyph, color) = status_look(p, state.procs);
        let label = node_label(glyph, p.name);
        assert(label.len() == p.name.len() + 4);
        assert(after.cells[(x, y)].ch == Some(label[j]));
        states_are_told_apart(p, p, state.procs);
    } else {
        assert(nodes[n - 1].rect.y != nodes[k].rect.y);
        assert(before.cells.dom().contains((x, y)));
        assert(after.cells[(x, y)] == before.cells[(x, y)]);
        lemma_drawn_node(g, inner, nodes, (n - 1) as nat, state, k, j);
    }
}

/// Every process that is in view is drawn in its place with the sign of its
/// status and its name, and the one that has the focus stands out.
pub proof fn node_shows_its_process(g: GridView, area: Rect, state: StateModel, k: int, j: int)
    requires
        has_room(area),
        crate::console::dashboard::render::graph_fits(state),
        0 <= k < state.procs.len() <= usize::MAX,
    ensures
        ({
            let inner = area.shrunk(1);
            let node = placed_nodes(names_of(state.procs), resolved_deps(state.procs))[k];
            let p = state.procs[node.proc_idx as int];
            let x = inner.x + node.rect.x - state.dashboard.scroll_col + j;
            let y = inner.y + node.rect.y - state.dashboard.scroll_row;
            let drawn = with_dashboard(g, area, state);
            &&& node.proc_idx < state.procs.len()
            &&& 0 <= j < p.name.len() + 4 && inner.covers(x, y) && drawn.cells.dom().contains(
                (x, y),
            ) ==> node_cell_is(
                drawn,
                p,
                state.procs,
                state.dashboard.focused_node == Some(node.proc_idx),
                x,
                y,
                j,
            )
        }),
{
    let inner = area.shrunk(1);
    let names = names_of(state.procs);
    let deps = resolved_deps(state.procs);
    let nodes = placed_nodes(names, deps);
    lemma_resolved_graph(state.procs);
    crate::graph::order::listing_is_complete(deps);
    assert forall|l: int| 0 <= l < nodes.len() && l != k implies (#[trigger] nodes[l]).rect.y
        != nodes[k].rect.y by {
        if l < k {
            listing_nodes_are_apart(names, deps, l, k);
        } else {
            listing_nodes_are_apart(names, deps, k, l);
        }
    }
    let framed = with_frame(g, area, "Dashboard"@, !(state.scope is Procs));
    let lined = framed.painted(
        edge_cells(
            inner,
            nodes,
            edges_of(deps),
            state.dashboard.scroll_col,
            state.dashboard.scroll_row,
        ),
    );
    let x = inner.x + nodes[k].rect.x - state.dashboard.scroll_col + j;
    let y = inner.y + nodes[k].rect.y - state.dashboard.scroll_row;
    let p = state.procs[nodes[k].proc_idx as int];
    if 0 <= j < p.name.len() + 4 && inner.covers(x, y) && with_dashboard(
        g,
        area,
        state,
    ).cells.dom().contains((x, y)) {
        lemma_drawn_node(lined, inner, nodes, nodes.len(), state, k, j);
    }
}

proof fn lemma_resolved(procs: Seq<ProcModel>, names: Seq<Seq<char>>, n: nat, d: usize)
    requires
        n <= names.len(),
        procs.len() <= usize::MAX,
    ensures
        resolved_upto(procs, names, n).contains(d) <==> exists|k: int|
            0 <= k < n && named(procs, #[trigger] names[k]) == Some(d as int),
    decreases n,
{
    if n > 0 {
        let m = (n - 1) as nat;
        lemma_resolved(procs, names, m, d);
        lemma_named(procs, names[n - 1]);
        let before = resolved_upto(procs, names, m);
        let all = resolved_upto(procs, names, n);
        if before.contains(d) {
            let i = choose|i: int| 0 <= i < before.len() && before[i] == d;
            assert(all[i] == d);
            let k = choose|k: int| 0 <= k < m && named(procs, #[trigger] names[k]) == Some(d as int);
            assert(named(procs, names[k]) == Some(d as int));
        }
        if named(procs, names[n - 1]) == Some(d as int) {
            assert(all.last() == d);
        }
        if all.contains(d) {
            let i = choose|i: int| 0 <= i < all.len() && all[i] == d;
            if i < before.len() {
                assert(before[i] == d);
            }
        }
    }
}

/// A process depends on the processes that its list names, and on no others.
pub proof fn dependencies_are_those_named(procs: Seq<ProcModel>, i: int, d: usize)
    requires
        0 <= i < procs.len() <= usize::MAX,
    ensures
        resolved_deps(procs).len() == procs.len(),
        resolved_deps(procs)[i].contains(d) <==> exists|k: int|
            0 <= k < procs[i].deps.len() && named(procs, #[trigger] procs[i].deps[k]) == Some(
                d as int,
            ),
{
    lemma_resolved(procs, procs[i].deps, procs[i].deps.len(), d);
}

proof fn lemma_pairs(deps: Seq<Seq<usize>>, i: int, k: int, d: usize, t: usize)
    requires
        0 <= i <= deps.len() <= usize::MAX,
        0 <= k,
        i < deps.len() ==> k <= deps[i].len(),
        i == deps.len() ==> k == 0,
    ensures
        pairs_upto(deps, i, k).contains((d, t)) <==> (t < i && deps[t as int].contains(d)) || (t
            == i && exists|m: int| 0 <= m < k && #[trigger] deps[i][m] == d),
    decreases i, k,
{
    let all = pairs_upto(deps, i, k);
    if k > 0 {
        lemma_pairs(deps, i, k - 1, d, t);
        let before = pairs_upto(deps, i, k - 1);
        assert(all == before.push((deps[i][k - 1], i as usize)));
        if before.contains((d, t)) {
            let m = choose|m: int| 0 <= m < before.len() && before[m] == (d, t);
            assert(all[m] == (d, t));
        }
        if t == i && deps[i][k - 1] == d {
            assert(all.last() == (d, t));
        }
        if all.contains((d, t)) {
            let m = choose|m: int| 0 <= m < all.len() && all[m] == (d, t);
            if m < before.len() {
                assert(before[m] == (d, t));
            }
        }
        if t == i && exists|m: int| 0 <= m < k && #[trigger] deps[i][m] == d {
            let m = choose|m: int| 0 <= m < k && #[trigger] deps[i][m] == d;
            if m < k - 1 {
                assert(deps[i][m] == d);
            }
        }
    } else if i > 0 {
        let own = deps[i - 1];
        lemma_pairs(deps, i - 1, own.len() as int, d, t);
        if t == i - 1 {
            if own.contains(d) {
                let m = choose|m: int| 0 <= m < own.len() && own[m] == d;
                assert(deps[i - 1][m] == d);
            }
        }
    }
}

/// There is a line from one process to another exactly if the other depends on
/// it.
pub proof fn lines_are_the_dependencies(deps: Seq<Seq<usize>>, d: usize, t: usize)
    requires
        deps.len() <= usize::MAX,
    ensures
        edges_of(deps).contains((Edge { from: d, to: t })) <==> t < deps.len()
            && deps[t as int].contains(d),
{
    lemma_pairs(deps, deps.len() as int, 0, d, t);
    let ps = pairs(deps);
    let es = edges_of(deps);
    if ps.contains((d, t)) {
        let m = choose|m: int| 0 <= m < ps.len() && ps[m] == (d, t);
        assert(es[m] == (Edge { from: d, to: t }));
    }
    if es.contains((Edge { from: d, to: t })) {
        let m = choose|m: int| 0 <= m < es.len() && es[m] == (Edge { from: d, to: t });
        assert(ps[m] == (d, t));
    }
}

/// A line runs between the box it starts at and the box it leads to, and is
/// nowhere else.
pub proof fn line_stays_between(from: Rect, to: Rect, col: int, row: int)
    requires
        from.x + from.width < to.x,
        line_dirs(from, to, col, row).any(),
    ensures
        from.x + from.width <= col < to.x,
        from.y <= row <= to.y || to.y <= row <= from.y,
        from.y < row < to.y || to.y < row < from.y ==> {
            let d = line_dirs(from, to, col, row);
            d.up && d.down && !d.left && !d.right
        },
{
}

/// A cell shows exactly the lines that leave it.
pub proof fn corners_fit_the_lines(d: Dirs)
    ensures
        d.left && d.right && !d.up && !d.down ==> junction_char(d) == '─',
        !d.left && !d.right && (d.up || d.down) ==> junction_char(d) == '│',
        !d.left && d.right && !d.up && d.down ==> junction_char(d) == '┌',
        d.left && !d.right && !d.up && d.down ==> junction_char(d) == '┐',
        !d.left && d.right && d.up && !d.down ==> junction_char(d) == '└',
        d.left && !d.right && d.up && !d.down ==> junction_char(d) == '┘',
        !d.left && d.right && d.up && d.down ==> junction_char(d) == '├',
        d.left && !d.right && d.up && d.down ==> junction_char(d) == '┤',
        d.left && d.right && !d.up && d.down ==> junction_char(d) == '┬',
        d.left && d.right && d.up && !d.down ==> junction_char(d) == '┴',
        d.left && d.right && d.up && d.down ==> junction_char(d) == '┼',
{
}

/// A box is four columns wider than its name and one row high.
pub proof fn box_fits_its_name(names: Seq<Seq<char>>, deps: Seq<Seq<usize>>, k: int)
    requires
        0 <= k < deps.len(),
        ({
            let name = names[listing(deps)[k] as int];
            all_printable_ascii(name) && name.len() <= 1000
        }),
    ensures
        ({
            let node = placed_node(names, deps, k);
            &&& node.proc_idx == listing(deps)[k]
            &&& node.rect.width == names[listing(deps)[k] as int].len() + 4
            &&& node.rect.height == 1
        }),
{
}

/// Boxes stand in rows from the top: right below the one before if the two are
/// connected, or else with one row between.
pub proof fn rows_follow_each_other(deps: Seq<Seq<usize>>, order: Seq<usize>, k: int)
    requires
        0 <= k,
    ensures
        node_row(deps, order, 0) == 0,
        connected(deps, order[k] as int, order[k + 1] as int) ==> node_row(deps, order, k + 1)
            == node_row(deps, order, k) + 1,
        !connected(deps, order[k] as int, order[k + 1] as int) ==> node_row(deps, order, k + 1)
            == node_row(deps, order, k) + 2,
{
}

proof fn lemma_widest(names: Seq<Seq<char>>, lay: Seq<nat>, layer: nat, n: nat, i: int)
    requires
        0 <= i < n,
        lay[i] == layer,
        forall|j: int|
            0 <= j < n && #[trigger] lay[j] == layer ==> node_cols(names[j]) <= node_cols(
                names[i],
            ),
    ensures
        layer_cols(names, lay, layer, n) == node_cols(names[i]),
    decreases n,
{
    assert(lay[n - 1] == lay[n - 1]);
    if i < n - 1 {
        lemma_widest(names, lay, layer, (n - 1) as nat, i);
    } else {
        lemma_not_wider(names, lay, layer, (n - 1) as nat, node_cols(names[i]));
    }
}

proof fn lemma_not_wider(names: Seq<Seq<char>>, lay: Seq<nat>, layer: nat, n: nat, w: nat)
    requires
        forall|j: int|
            0 <= j < n && #[trigger] lay[j] == layer ==> node_cols(names[j]) <= w,
    ensures
        layer_cols(names, lay, layer, n) <= w,
    decreases n,
{
    if n > 0 {
        assert(lay[n - 1] == lay[n - 1]);
        lemma_not_wider(names, lay, layer, (n - 1) as nat, w);
    }
}

/// What depends on nothing stands at the left edge, and each layer starts seven
/// columns behind the widest box of the layer before.
pub proof fn layers_stand_side_by_side(
    names: Seq<Seq<char>>,
    lay: Seq<nat>,
    layer: nat,
    i: int,
)
    requires
        0 <= i < names.len(),
        lay[i] == layer,
        forall|j: int|
            0 <= j < names.len() && #[trigger] lay[j] == layer ==> node_cols(names[j])
                <= node_cols(names[i]),
    ensures
        layer_x(names, lay, 0) == 0,
        layer_x(names, lay, layer + 1) == layer_x(names, lay, layer) + node_cols(names[i]) + 7,
{
    lemma_widest(names, lay, layer, names.len(), i);
}

} // verus!
