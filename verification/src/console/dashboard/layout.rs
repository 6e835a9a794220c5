//! Places the processes of a dependency graph on a grid: one column per
//! layer, one row per process.

use crate::console::proc::view::{ProcModel, ProcView};
use crate::console::state::{find_named, named, procs_view};
use crate::graph::components::{component_ids, connected, labels_components};
use crate::graph::order::{
    dependents, is_listing, listing, listing_is_complete, pairs,
    pairs_upto, targets, visit_order,
};
use crate::graph::{
    acyclic, compute_layers, deps_view, deps_wf, layers, layers_rise_along_dependencies,
};
use crate::term::rect::Rect;
use crate::term::width::{text_columns, column_count};
use vstd::prelude::*;

verus! {

pub const COLUMN_GAP: u16 = 7;

pub const NODE_PADDING: u16 = 4;

/// Where a process is drawn.
#[derive(Clone, Copy, Debug, PartialEq, Eq, Structural)]
pub struct NodeBox {
    pub proc_idx: usize,
    pub rect: Rect,
}

impl NodeBox {
    pub fn center_col(&self) -> (r: i32)
        ensures
            r == self.rect.x + self.rect.width / 2,
    {
        self.rect.x as i32 + (self.rect.width / 2) as i32
    }

    pub fn center_row(&self) -> (r: i32)
        ensures
            r == self.rect.y,
    {
        self.rect.y as i32
    }
}

/// A line from a dependency to what depends on it.
#[derive(Clone, Copy, Debug, PartialEq, Eq, Structural)]
pub struct Edge {
    pub from: usize,
    pub to: usize,
}

#[derive(Debug)]
pub struct GraphLayout {
    pub nodes: Vec<NodeBox>,
    pub edges: Vec<Edge>,
    pub content_width: u16,
    pub content_height: u16,
}

/// The first node of process `idx`.
pub open spec fn node_of(nodes: Seq<NodeBox>, idx: usize) -> Option<NodeBox>
    decreases nodes.len(),
{
    if nodes.len() == 0 {
        None
    } else if nodes[0].proc_idx == idx {
        Some(nodes[0])
    } else {
        node_of(nodes.skip(1), idx)
    }
}

impl GraphLayout {
    pub fn node_for_proc(&self, proc_idx: usize) -> (r: Option<&NodeBox>)
        ensures
            match r {
                Some(node) => node_of(self.nodes@, proc_idx) == Some(*node),
                None => node_of(self.nodes@, proc_idx) is None,
            },
    {
        let mut i: usize = 0;
        proof {
            assert(self.nodes@.skip(0) =~= self.nodes@);
        }
        while i < self.nodes.len()
            invariant
                i <= self.nodes@.len(),
                node_of(self.nodes@, proc_idx) == node_of(self.nodes@.skip(i as int), proc_idx),
            decreases self.nodes@.len() - i,
        {
            proof {
                assert(self.nodes@.skip(i as int).skip(1) =~= self.nodes@.skip(i + 1));
            }
            if self.nodes[i].proc_idx == proc_idx {
                return Some(&self.nodes[i]);
            }
            i += 1;
        }
        None
    }
}

/// Columns that the box of a process takes.
pub open spec fn node_cols(name: Seq<char>) -> nat {
    text_columns(name) + NODE_PADDING as nat
}

pub fn node_width(name: &str) -> (r: u16)
    requires
        node_cols(name@) <= u16::MAX,
    ensures
        r == node_cols(name@),
{
    column_count(name) + NODE_PADDING
}

/// The width of a box, unless it is beyond the coordinate range.
pub fn checked_node_width(name: &str) -> (r: Option<u16>)
    ensures
        r == (if node_cols(name@) <= u16::MAX {
            Some(node_cols(name@) as u16)
        } else {
            None
        }),
{
    if column_count(name) <= u16::MAX - NODE_PADDING {
        Some(node_width(name))
    } else {
        None
    }
}

/// The names as character sequences.
pub open spec fn names_view(names: Seq<&str>) -> Seq<Seq<char>> {
    Seq::new(names.len(), |i: int| names[i]@)
}

/// The widest box among those of the first `n` processes that are in `layer`.
pub open spec fn layer_cols(
    names: Seq<Seq<char>>,
    lay: Seq<nat>,
    layer: nat,
    n: nat,
) -> nat
    decreases n,
{
    if n == 0 {
        0
    } else {
        let before = layer_cols(names, lay, layer, (n - 1) as nat);
        if lay[n - 1] == layer && node_cols(names[n - 1]) > before {
            node_cols(names[n - 1])
        } else {
            before
        }
    }
}

/// The highest layer among the first `n` processes.
pub open spec fn top_layer(lay: Seq<nat>, n: nat) -> nat
    decreases n,
{
    if n == 0 {
        0
    } else {
        let before = top_layer(lay, (n - 1) as nat);
        if lay[n - 1] > before {
            lay[n - 1]
        } else {
            before
        }
    }
}

/// The column at which `layer` starts.
pub open spec fn layer_x(names: Seq<Seq<char>>, lay: Seq<nat>, layer: nat) -> nat
    decreases layer,
{
    if layer == 0 {
        0
    } else {
        let left = (layer - 1) as nat;
        layer_x(names, lay, left) + layer_cols(names, lay, left, names.len()) + COLUMN_GAP as nat
    }
}

/// The row of the `k`-th listed process: one below the one before, with a
/// blank row between unconnected parts of the graph.
pub open spec fn node_row(deps: Seq<Seq<usize>>, order: Seq<usize>, k: int) -> nat
    decreases k,
{
    if k <= 0 {
        0
    } else if connected(deps, order[k - 1] as int, order[k] as int) {
        node_row(deps, order, k - 1) + 1
    } else {
        node_row(deps, order, k - 1) + 2
    }
}

pub open spec fn content_cols(names: Seq<Seq<char>>, deps: Seq<Seq<usize>>) -> nat {
    if names.len() == 0 {
        0
    } else {
        let lay = layers(deps);
        let top = top_layer(lay, names.len());
        layer_x(names, lay, top) + layer_cols(names, lay, top, names.len())
    }
}

pub open spec fn content_rows(deps: Seq<Seq<usize>>) -> nat {
    if deps.len() == 0 {
        0
    } else {
        node_row(deps, listing(deps), deps.len() - 1) + 1
    }
}

/// The box of the `k`-th listed process.
pub open spec fn placed_node(names: Seq<Seq<char>>, deps: Seq<Seq<usize>>, k: int) -> NodeBox {
    let i = listing(deps)[k];
    NodeBox {
        proc_idx: i,
        rect: Rect {
            x: layer_x(names, layers(deps), layers(deps)[i as int]) as u16,
            y: node_row(deps, listing(deps), k) as u16,
            width: node_cols(names[i as int]) as u16,
            height: 1,
        },
    }
}

pub open spec fn placed_nodes(names: Seq<Seq<char>>, deps: Seq<Seq<usize>>) -> Seq<NodeBox> {
    Seq::new(deps.len(), |k: int| placed_node(names, deps, k))
}

pub open spec fn edges_of(deps: Seq<Seq<usize>>) -> Seq<Edge> {
    pairs(deps).map_values(|p: (usize, usize)| Edge { from: p.0, to: p.1 })
}

/// A graph whose lists name its own nodes, with one name per node.
pub open spec fn graph_wf(names: Seq<Seq<char>>, deps: Seq<Seq<usize>>) -> bool {
    names.len() == deps.len() && deps.len() <= usize::MAX && deps_wf(deps)
}

/// The drawing stays within the coordinate range.
pub open spec fn layout_fits(names: Seq<Seq<char>>, deps: Seq<Seq<usize>>) -> bool {
    content_cols(names, deps) <= u16::MAX && content_rows(deps) <= u16::MAX
}

pub open spec fn is_layout(
    g: GraphLayout,
    names: Seq<Seq<char>>,
    deps: Seq<Seq<usize>>,
) -> bool {
    &&& g.nodes@ == placed_nodes(names, deps)
    &&& g.edges@ == edges_of(deps)
    &&& g.content_width == content_cols(names, deps)
    &&& g.content_height == content_rows(deps)
}

proof fn lemma_layer_cols_covers(
    names: Seq<Seq<char>>,
    lay: Seq<nat>,
    i: int,
    n: nat,
)
    requires
        0 <= i < n <= names.len(),
        names.len() <= lay.len(),
    ensures
        node_cols(names[i]) <= layer_cols(names, lay, lay[i], n),
    decreases n,
{
    if i < n - 1 {
        lemma_layer_cols_covers(names, lay, i, (n - 1) as nat);
    }
}

proof fn lemma_top_layer_covers(lay: Seq<nat>, i: int, n: nat)
    requires
        0 <= i < n <= lay.len(),
    ensures
        lay[i] <= top_layer(lay, n),
    decreases n,
{
    if i < n - 1 {
        lemma_top_layer_covers(lay, i, (n - 1) as nat);
    }
}

proof fn lemma_layer_x_grows(names: Seq<Seq<char>>, lay: Seq<nat>, layer: nat)
    ensures
        layer <= layer_x(names, lay, layer),
    decreases layer,
{
    if layer > 0 {
        lemma_layer_x_grows(names, lay, (layer - 1) as nat);
    }
}

proof fn lemma_layer_x_rises(names: Seq<Seq<char>>, lay: Seq<nat>, a: nat, b: nat)
    requires
        a < b,
    ensures
        layer_x(names, lay, a) + layer_cols(names, lay, a, names.len()) + COLUMN_GAP <= layer_x(
            names,
            lay,
            b,
        ),
    decreases b,
{
    if a < b - 1 {
        lemma_layer_x_rises(names, lay, a, (b - 1) as nat);
    }
}

proof fn lemma_rows(deps: Seq<Seq<usize>>, order: Seq<usize>, a: int, b: int)
    requires
        0 <= a <= b,
    ensures
        node_row(deps, order, a) + (b - a) <= node_row(deps, order, b),
    decreases b,
{
    if a < b {
        lemma_rows(deps, order, a, b - 1);
    }
}

/// A process is drawn inside the content area.
pub proof fn nodes_lie_in_the_content(names: Seq<Seq<char>>, deps: Seq<Seq<usize>>, k: int)
    requires
        graph_wf(names, deps),
        0 <= k < deps.len(),
    ensures
        ({
            let i = listing(deps)[k] as int;
            &&& i < deps.len()
            &&& layer_x(names, layers(deps), layers(deps)[i]) + node_cols(names[i])
                <= content_cols(names, deps)
            &&& node_row(deps, listing(deps), k) < content_rows(deps)
        }),
{
    listing_is_complete(deps);
    let i = listing(deps)[k] as int;
    let lay = layers(deps);
    let top = top_layer(lay, names.len());
    lemma_layer_cols_covers(names, lay, i, names.len());
    lemma_top_layer_covers(lay, i, names.len());
    if lay[i] < top {
        lemma_layer_x_rises(names, lay, lay[i], top);
    }
    lemma_rows(deps, listing(deps), k, deps.len() - 1);
}

/// Every process has exactly one box: the listing position of its node.
pub proof fn every_process_is_placed(names: Seq<Seq<char>>, deps: Seq<Seq<usize>>, i: usize)
    requires
        graph_wf(names, deps),
        i < deps.len(),
    ensures
        exists|k: int|
            0 <= k < deps.len() && #[trigger] placed_nodes(names, deps)[k].proc_idx == i && node_of(
                placed_nodes(names, deps),
                i,
            ) == Some(placed_nodes(names, deps)[k]),
        forall|k: int, l: int|
            #![trigger placed_nodes(names, deps)[k], placed_nodes(names, deps)[l]]
            0 <= k < deps.len() && 0 <= l < deps.len() && placed_nodes(names, deps)[k].proc_idx
                == placed_nodes(names, deps)[l].proc_idx ==> k == l,
{
    listing_is_complete(deps);
    let order = listing(deps);
    assert(order.contains(i));
    let k = choose|k: int| 0 <= k < order.len() && order[k] == i;
    let nodes = placed_nodes(names, deps);
    assert(nodes[k].proc_idx == i);
    lemma_node_of(nodes, i, k);
}

proof fn lemma_node_of(nodes: Seq<NodeBox>, idx: usize, k: int)
    requires
        0 <= k < nodes.len(),
        nodes[k].proc_idx == idx,
        forall|l: int| 0 <= l < k ==> (#[trigger] nodes[l]).proc_idx != idx,
    ensures
        node_of(nodes, idx) == Some(nodes[k]),
    decreases k,
{
    if k > 0 {
        assert(nodes[0].proc_idx != idx);
        let rest = nodes.skip(1);
        assert forall|l: int| 0 <= l < k - 1 implies (#[trigger] rest[l]).proc_idx != idx by {
            assert(rest[l] == nodes[l + 1]);
        }
        lemma_node_of(rest, idx, k - 1);
    }
}

/// Unless dependencies form a cycle, a process is drawn to the right of
/// everything it depends on, with the column gap between them.
pub proof fn dependents_are_drawn_to_the_right(
    names: Seq<Seq<char>>,
    deps: Seq<Seq<usize>>,
    i: int,
    k: int,
)
    requires
        graph_wf(names, deps),
        acyclic(deps),
        0 <= i < deps.len(),
        0 <= k < deps[i].len(),
    ensures
        ({
            let d = deps[i][k] as int;
            layer_x(names, layers(deps), layers(deps)[d]) + node_cols(names[d]) + COLUMN_GAP
                <= layer_x(names, layers(deps), layers(deps)[i])
        }),
{
    let d = deps[i][k] as int;
    let lay = layers(deps);
    assert(deps[i][k] < deps.len());
    layers_rise_along_dependencies(deps);
    assert(lay[d] < lay[i]);
    lemma_layer_cols_covers(names, lay, d, names.len());
    lemma_layer_x_rises(names, lay, lay[d], lay[i]);
}

/// No two processes share a row.
pub proof fn rows_are_separate(deps: Seq<Seq<usize>>, a: int, b: int)
    requires
        0 <= a < b < deps.len(),
    ensures
        node_row(deps, listing(deps), a) < node_row(deps, listing(deps), b),
{
    lemma_rows(deps, listing(deps), a, b);
}

/// No two nodes of a drawing that has coordinates share a row.
pub proof fn listing_nodes_are_apart(
    names: Seq<Seq<char>>,
    deps: Seq<Seq<usize>>,
    a: int,
    b: int,
)
    requires
        graph_wf(names, deps),
        layout_fits(names, deps),
        0 <= a < b < deps.len(),
    ensures
        placed_nodes(names, deps)[a].rect.y < placed_nodes(names, deps)[b].rect.y,
{
    nodes_lie_in_the_content(names, deps, a);
    nodes_lie_in_the_content(names, deps, b);
    rows_are_separate(deps, a, b);
}

/// A blank row lies between neighbours that are not connected.
pub proof fn unconnected_neighbours_are_apart(deps: Seq<Seq<usize>>, a: int)
    requires
        0 <= a,
        a + 1 < deps.len(),
        !connected(deps, listing(deps)[a] as int, listing(deps)[a + 1] as int),
    ensures
        node_row(deps, listing(deps), a + 1) > node_row(deps, listing(deps), a) + 1,
{
}

/// The dependents of each node and the edges, by dependent.
fn reverse_edges(deps_of: &[Vec<usize>]) -> (r: (Vec<Vec<usize>>, Vec<Edge>))
    requires
        deps_wf(deps_view(deps_of@)),
    ensures
        deps_view(r.0@) == dependents(deps_view(deps_of@)),
        r.1@ == edges_of(deps_view(deps_of@)),
{
    let n = deps_of.len();
    let ghost deps = deps_view(deps_of@);
    let mut out: Vec<Vec<usize>> = Vec::new();
    let mut edges: Vec<Edge> = Vec::new();
    let mut j: usize = 0;
    while j < n
        invariant
            j <= n,
            out@.len() == j,
            forall|d: int| 0 <= d < j ==> #[trigger] out@[d]@ == Seq::<usize>::empty(),
        decreases n - j,
    {
        out.push(Vec::new());
        j += 1;
    }
    let mut i: usize = 0;
    proof {
        assert(pairs_upto(deps, 0, 0) == Seq::<(usize, usize)>::empty());
        assert forall|d: usize| d < n implies #[trigger] out@[d as int]@ == targets(
            pairs_upto(deps, 0, 0),
            d,
        ) by {
            assert(out@[d as int]@ == Seq::<usize>::empty());
        }
    }
    while i < n
        invariant
            n == deps_of@.len(),
            deps == deps_view(deps_of@),
            deps_wf(deps),
            i <= n,
            out@.len() == n,
            forall|d: usize|
                d < n ==> #[trigger] out@[d as int]@ == targets(pairs_upto(deps, i as int, 0), d),
            edges@ == pairs_upto(deps, i as int, 0).map_values(
                |p: (usize, usize)| Edge { from: p.0, to: p.1 },
            ),
        decreases n - i,
    {
        let mut k: usize = 0;
        proof {
            assert(deps[i as int] == deps_of@[i as int]@);
        }
        while k < deps_of[i].len()
            invariant
                n == deps_of@.len(),
                deps == deps_view(deps_of@),
                deps_wf(deps),
                i < n,
                deps[i as int] == deps_of@[i as int]@,
                k <= deps[i as int].len(),
                out@.len() == n,
                forall|d: usize|
                    d < n ==> #[trigger] out@[d as int]@ == targets(
                        pairs_upto(deps, i as int, k as int),
                        d,
                    ),
                edges@ == pairs_upto(deps, i as int, k as int).map_values(
                    |p: (usize, usize)| Edge { from: p.0, to: p.1 },
                ),
            decreases deps[i as int].len() - k,
        {
            let d = deps_of[i][k];
            let ghost before = pairs_upto(deps, i as int, k as int);
            let ghost after = pairs_upto(deps, i as int, k + 1);
            let ghost out0 = out@;
            let ghost edges0 = edges@;
            proof {
                assert(deps[i as int][k as int] == d);
                assert(after == before.push((d, i)));
                assert(after.drop_last() =~= before);
            }
            out[d].push(i);
            edges.push(Edge { from: d, to: i });
            proof {
                assert forall|x: usize| x < n implies #[trigger] out@[x as int]@ == targets(
                    after,
                    x,
                ) by {
                    assert(out0[x as int]@ == targets(before, x));
                }
                assert(edges@ =~= after.map_values(
                    |p: (usize, usize)| Edge { from: p.0, to: p.1 },
                ));
            }
            k += 1;
        }
        proof {
            assert(pairs_upto(deps, i + 1, 0) == pairs_upto(deps, i as int, k as int));
        }
        i += 1;
    }
    proof {
        assert(deps_view(out@) =~= dependents(deps)) by {
            assert forall|d: int| 0 <= d < n implies deps_view(out@)[d] == dependents(deps)[d] by {
                assert(out@[d as usize as int]@ == targets(pairs(deps), d as usize));
            }
        }
    }
    (out, edges)
}

/// The columns at which the layers start, and the end of the last one; nothing
/// when that is beyond the coordinate range.
fn layer_columns(names: &[&str], lay: &Vec<u16>, top: u16) -> (r: Option<(Vec<u16>, u16)>)
    requires
        names@.len() == lay@.len(),
        top < u16::MAX,
        forall|i: int| 0 <= i < lay@.len() ==> #[trigger] lay@[i] <= top,
    ensures
        ({
            let ns = names_view(names@);
            let l = lay@.map_values(|x: u16| x as nat);
            let end = layer_x(ns, l, top as nat) + layer_cols(ns, l, top as nat, ns.len());
            match r {
                Some((xs, width)) => {
                    &&& width == end
                    &&& xs@.len() == top + 1
                    &&& forall|k: int|
                        0 <= k < xs@.len() ==> #[trigger] xs@[k] == layer_x(ns, l, k as nat)
                },
                None => end > u16::MAX,
            }
        }),
{
    let ghost ns = names_view(names@);
    let ghost l = lay@.map_values(|x: u16| x as nat);
    let ghost end = layer_x(ns, l, top as nat) + layer_cols(ns, l, top as nat, ns.len());
    let mut widths: Vec<u16> = Vec::new();
    let mut j: u16 = 0;
    while j <= top
        invariant
            top < u16::MAX,
            j <= top + 1,
            widths@.len() == j,
            forall|k: int| 0 <= k < j ==> #[trigger] widths@[k] == layer_cols(ns, l, k as nat, 0),
        decreases top + 1 - j,
    {
        widths.push(0);
        j += 1;
    }
    let mut i: usize = 0;
    while i < names.len()
        invariant
            names@.len() == lay@.len(),
            ns == names_view(names@),
            l == lay@.map_values(|x: u16| x as nat),
            end == layer_x(ns, l, top as nat) + layer_cols(ns, l, top as nat, ns.len()),
            i <= names@.len(),
            widths@.len() == top + 1,
            forall|i: int| 0 <= i < lay@.len() ==> #[trigger] lay@[i] <= top,
            forall|k: int|
                0 <= k < widths@.len() ==> #[trigger] widths@[k] == layer_cols(
                    ns,
                    l,
                    k as nat,
                    i as nat,
                ),
        decreases names@.len() - i,
    {
        let at: usize = lay[i] as usize;
        proof {
            assert(l[i as int] == at);
            assert(ns[i as int] == names@[i as int]@);
        }
        match checked_node_width(names[i]) {
            Some(w) => {
                if widths[at] < w {
                    widths[at] = w;
                }
            },
            None => {
                proof {
                    lemma_layer_cols_covers(ns, l, i as int, ns.len());
                    if at < top {
                        lemma_layer_x_rises(ns, l, at as nat, top as nat);
                    }
                }
                return None;
            },
        }
        i += 1;
    }
    let mut xs: Vec<u16> = Vec::new();
    xs.push(0);
    let mut k: u16 = 0;
    let mut edge: u16 = widths[0];
    while k < top
        invariant
            ns == names_view(names@),
            l == lay@.map_values(|x: u16| x as nat),
            top < u16::MAX,
            k <= top,
            widths@.len() == top + 1,
            end == layer_x(ns, l, top as nat) + layer_cols(ns, l, top as nat, ns.len()),
            forall|m: int|
                0 <= m < widths@.len() ==> #[trigger] widths@[m] == layer_cols(
                    ns,
                    l,
                    m as nat,
                    ns.len(),
                ),
            xs@.len() == k + 1,
            forall|m: int| 0 <= m < xs@.len() ==> #[trigger] xs@[m] == layer_x(ns, l, m as nat),
            edge == xs@[k as int] + widths@[k as int],
        decreases top - k,
    {
        proof {
            lemma_layer_x_rises(ns, l, k as nat, top as nat);
            assert(layer_x(ns, l, (k + 1) as nat) == edge + COLUMN_GAP);
            if k + 1 < top {
                lemma_layer_x_rises(ns, l, (k + 1) as nat, top as nat);
            }
        }
        let x: u16 = match edge.checked_add(COLUMN_GAP) {
            Some(x) => x,
            None => {
                return None;
            },
        };
        xs.push(x);
        k += 1;
        match x.checked_add(widths[k as usize]) {
            Some(e) => {
                edge = e;
            },
            None => {
                return None;
            },
        }
    }
    Some((xs, edge))
}

/// The highest layer.
fn highest(lay: &Vec<u16>) -> (r: u16)
    ensures
        r == top_layer(lay@.map_values(|x: u16| x as nat), lay@.len()),
        forall|i: int| 0 <= i < lay@.len() ==> #[trigger] lay@[i] <= r,
{
    let ghost l = lay@.map_values(|x: u16| x as nat);
    let mut top: u16 = 0;
    let mut i: usize = 0;
    while i < lay.len()
        invariant
            i <= lay@.len(),
            l == lay@.map_values(|x: u16| x as nat),
            top == top_layer(l, i as nat),
            forall|k: int| 0 <= k < i ==> #[trigger] lay@[k] <= top,
        decreases lay@.len() - i,
    {
        proof {
            assert(l[i as int] == lay@[i as int]);
        }
        if lay[i] > top {
            top = lay[i];
        }
        i += 1;
    }
    top
}

/// Places the processes, unless the drawing is beyond the coordinate range.
pub fn try_layout_from(names: &[&str], deps_of: &[Vec<usize>]) -> (r: Option<GraphLayout>)
    requires
        graph_wf(names_view(names@), deps_view(deps_of@)),
    ensures
        match r {
            Some(g) => layout_fits(names_view(names@), deps_view(deps_of@)) && is_layout(
                g,
                names_view(names@),
                deps_view(deps_of@),
            ),
            None => !layout_fits(names_view(names@), deps_view(deps_of@)),
        },
{
    let n = names.len();
    let ghost ns = names_view(names@);
    let ghost deps = deps_view(deps_of@);
    let ghost order_spec = listing(deps);
    proof {
        listing_is_complete(deps);
        if n > 0 {
            lemma_rows(deps, order_spec, 0, n - 1);
        }
    }
    if n == 0 {
        let g = GraphLayout {
            nodes: Vec::new(),
            edges: Vec::new(),
            content_width: 0,
            content_height: 0,
        };
        proof {
            assert(pairs(deps) == Seq::<(usize, usize)>::empty());
            assert(g.edges@ =~= edges_of(deps));
            assert(g.nodes@ =~= placed_nodes(ns, deps));
        }
        return Some(g);
    }
    if n > u16::MAX as usize {
        return None;
    }
    let (dependents_of, edges) = reverse_edges(deps_of);
    let lay = compute_layers(deps_of);
    let ghost l = layers(deps);
    proof {
        assert(lay@.map_values(|x: u16| x as nat) =~= l);
    }
    let top = highest(&lay);
    if top == u16::MAX {
        proof {
            lemma_layer_x_rises(ns, l, 0, top as nat);
            lemma_layer_x_grows(ns, l, (top - 1) as nat);
        }
        return None;
    }
    let (col_x, content_width) = match layer_columns(names, &lay, top) {
        Some(columns) => columns,
        None => {
            return None;
        },
    };
    let order = visit_order(deps_of, &dependents_of);
    let components = component_ids(deps_of);
    let mut nodes: Vec<NodeBox> = Vec::new();
    let mut row: u16 = 0;
    let mut k: usize = 0;
    while k < n
        invariant
            n == names@.len(),
            n == deps_of@.len(),
            0 < n <= u16::MAX,
            ns == names_view(names@),
            deps == deps_view(deps_of@),
            order_spec == listing(deps),
            graph_wf(ns, deps),
            l == layers(deps),
            lay@.len() == n,
            lay@.map_values(|x: u16| x as nat) == l,
            top == top_layer(l, n as nat),
            col_x@.len() == top + 1,
            forall|m: int| 0 <= m < col_x@.len() ==> #[trigger] col_x@[m] == layer_x(
                ns,
                l,
                m as nat,
            ),
            content_width == content_cols(ns, deps),
            order@ == order_spec,
            order@.len() == n,
            is_listing(order@, n as nat),
            labels_components(deps, components@),
            k <= n,
            nodes@ == placed_nodes(ns, deps).take(k as int),
            k == 0 ==> row == 0,
            k > 0 ==> row == node_row(deps, order_spec, k - 1) + 1,
        decreases n - k,
    {
        let i = order[k];
        proof {
            assert(order@[k as int] < n);
            lemma_rows(deps, order_spec, k as int, n - 1);
            if k > 0 {
                assert(order@[k - 1] < n);
            }
            nodes_lie_in_the_content(ns, deps, k as int);
            lemma_top_layer_covers(l, i as int, n as nat);
            assert(lay@[i as int] == l[i as int]);
            assert(ns[i as int] == names@[i as int]@);
        }
        if k > 0 {
            let prev = order[k - 1];
            if components[i] != components[prev] {
                if row == u16::MAX {
                    return None;
                }
                row += 1;
            }
        }
        if row == u16::MAX {
            return None;
        }
        let node = NodeBox {
            proc_idx: i,
            rect: Rect {
                x: col_x[lay[i] as usize],
                y: row,
                width: node_width(names[i]),
                height: 1,
            },
        };
        nodes.push(node);
        proof {
            assert(node == placed_node(ns, deps, k as int));
            assert(placed_nodes(ns, deps).take(k + 1) =~= placed_nodes(ns, deps).take(
                k as int,
            ).push(node));
        }
        row += 1;
        k += 1;
    }
    proof {
        assert(placed_nodes(ns, deps).take(n as int) =~= placed_nodes(ns, deps));
    }
    Some(GraphLayout { nodes, edges, content_width, content_height: row })
}

/// Places the processes: columns by layer from the left, rows in listing
/// order.
pub fn layout_from(names: &[&str], deps_of: &[Vec<usize>]) -> (r: GraphLayout)
    requires
        graph_wf(names_view(names@), deps_view(deps_of@)),
        layout_fits(names_view(names@), deps_view(deps_of@)),
    ensures
        is_layout(r, names_view(names@), deps_view(deps_of@)),
{
    try_layout_from(names, deps_of).unwrap()
}

/// The processes that the first `n` of the names stand for; a name that no
/// process has is left out.
pub open spec fn resolved_upto(
    procs: Seq<ProcModel>,
    names: Seq<Seq<char>>,
    n: nat,
) -> Seq<usize>
    decreases n,
{
    if n == 0 {
        Seq::empty()
    } else {
        let before = resolved_upto(procs, names, (n - 1) as nat);
        match named(procs, names[n - 1]) {
            Some(i) => before.push(i as usize),
            None => before,
        }
    }
}

/// For each process, those that it depends on.
pub open spec fn resolved_deps(procs: Seq<ProcModel>) -> Seq<Seq<usize>> {
    procs.map_values(|p: ProcModel| resolved_upto(procs, p.deps, p.deps.len()))
}

pub open spec fn names_of(procs: Seq<ProcModel>) -> Seq<Seq<char>> {
    procs.map_values(|p: ProcModel| p.name)
}

proof fn lemma_named(procs: Seq<ProcModel>, name: Seq<char>)
    ensures
        named(procs, name) matches Some(i) ==> 0 <= i < procs.len(),
    decreases procs.len(),
{
    if procs.len() > 0 && procs[0].name != name {
        lemma_named(procs.skip(1), name);
    }
}

proof fn lemma_resolved(procs: Seq<ProcModel>, names: Seq<Seq<char>>, n: nat)
    requires
        procs.len() <= usize::MAX,
        n <= names.len(),
    ensures
        forall|k: int|
            0 <= k < resolved_upto(procs, names, n).len() ==> (#[trigger] resolved_upto(
                procs,
                names,
                n,
            )[k]) < procs.len(),
    decreases n,
{
    if n > 0 {
        let before = resolved_upto(procs, names, (n - 1) as nat);
        let all = resolved_upto(procs, names, n);
        lemma_resolved(procs, names, (n - 1) as nat);
        lemma_named(procs, names[n - 1]);
        assert forall|k: int| 0 <= k < all.len() implies (#[trigger] all[k]) < procs.len() by {
            if k < before.len() {
                assert(all[k] == before[k]);
            }
        }
    }
}

/// The graph of the processes is one over the processes.
pub proof fn lemma_resolved_graph(procs: Seq<ProcModel>)
    requires
        procs.len() <= usize::MAX,
    ensures
        graph_wf(names_of(procs), resolved_deps(procs)),
{
    let deps = resolved_deps(procs);
    assert forall|i: int, k: int| 0 <= i < deps.len() && 0 <= k < deps[i].len() implies (
    #[trigger] deps[i][k]) < deps.len() by {
        lemma_resolved(procs, procs[i].deps, procs[i].deps.len());
    }
}

fn resolve_deps(procs: &Vec<ProcView>) -> (r: Vec<Vec<usize>>)
    ensures
        deps_view(r@) == resolved_deps(procs_view(procs@)),
{
    let ghost all = procs_view(procs@);
    let mut out: Vec<Vec<usize>> = Vec::new();
    let mut i: usize = 0;
    while i < procs.len()
        invariant
            i <= procs@.len(),
            all == procs_view(procs@),
            out@.len() == i,
            forall|j: int| 0 <= j < i ==> (#[trigger] out@[j])@ == resolved_deps(all)[j],
        decreases procs@.len() - i,
    {
        let mut row: Vec<usize> = Vec::new();
        let mut k: usize = 0;
        while k < procs[i].deps.len()
            invariant
                i < procs@.len(),
                all == procs_view(procs@),
                k <= procs@[i as int].deps@.len(),
                row@ == resolved_upto(all, all[i as int].deps, k as nat),
            decreases procs@[i as int].deps@.len() - k,
        {
            proof {
                assert(all[i as int].deps[k as int] == procs@[i as int].deps@[k as int]@);
            }
            if let Some(d) = find_named(procs, procs[i].deps[k].as_str()) {
                row.push(d);
            }
            k += 1;
        }
        out.push(row);
        i += 1;
    }
    proof {
        assert(deps_view(out@) =~= resolved_deps(all));
    }
    out
}

fn name_list(procs: &Vec<ProcView>) -> (r: Vec<&str>)
    ensures
        names_view(r@) == names_of(procs_view(procs@)),
{
    let mut out: Vec<&str> = Vec::new();
    let mut i: usize = 0;
    while i < procs.len()
        invariant
            i <= procs@.len(),
            out@.len() == i,
            forall|j: int| 0 <= j < i ==> (#[trigger] out@[j])@ == procs_view(procs@)[j].name,
        decreases procs@.len() - i,
    {
        out.push(procs[i].name());
        i += 1;
    }
    proof {
        assert(names_view(out@) =~= names_of(procs_view(procs@)));
    }
    out
}

/// Lays the processes out, unless the drawing is beyond the coordinate range.
pub fn try_layout_graph(procs: &Vec<ProcView>) -> (r: Option<GraphLayout>)
    ensures
        ({
            let all = procs_view(procs@);
            match r {
                Some(g) => layout_fits(names_of(all), resolved_deps(all)) && is_layout(
                    g,
                    names_of(all),
                    resolved_deps(all),
                ),
                None => !layout_fits(names_of(all), resolved_deps(all)),
            }
        }),
{
    let n: usize = procs.len();
    let names = name_list(procs);
    let deps = resolve_deps(procs);
    proof {
        lemma_resolved_graph(procs_view(procs@));
    }
    try_layout_from(names.as_slice(), deps.as_slice())
}

/// Lays the processes out: each is placed to the right of those that it
/// depends on.
pub fn layout_graph(procs: &Vec<ProcView>) -> (r: GraphLayout)
    requires
        layout_fits(names_of(procs_view(procs@)), resolved_deps(procs_view(procs@))),
    ensures
        is_layout(r, names_of(procs_view(procs@)), resolved_deps(procs_view(procs@))),
{
    try_layout_graph(procs).unwrap()
}

} // verus!
