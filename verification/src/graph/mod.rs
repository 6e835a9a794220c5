//! Dependency graphs: node `i` depends on the nodes listed in `deps[i]`.

pub mod components;
pub mod cycles;
pub mod order;

use vstd::prelude::*;
use vstd::set_lib::lemma_int_range;
use vstd::set_lib::lemma_len_subset;

verus! {

/// The lists of a graph as sequences.
pub open spec fn deps_view(deps: Seq<Vec<usize>>) -> Seq<Seq<usize>> {
    Seq::new(deps.len(), |i: int| deps[i]@)
}

/// Every dependency is a node of the graph.
pub open spec fn deps_wf(deps: Seq<Seq<usize>>) -> bool {
    forall|i: int, k: int|
        0 <= i < deps.len() && 0 <= k < deps[i].len() ==> #[trigger] deps[i][k] < deps.len()
}

/// A numbering of the nodes in which every dependency comes before what
/// depends on it.
pub open spec fn is_rank(deps: Seq<Seq<usize>>, rank: spec_fn(int) -> nat) -> bool {
    forall|i: int, k: int|
        #![trigger deps[i][k]]
        0 <= i < deps.len() && 0 <= k < deps[i].len() ==> rank(deps[i][k] as int) < rank(i)
}

/// No node depends on itself, directly or through others.
pub open spec fn acyclic(deps: Seq<Seq<usize>>) -> bool {
    exists|rank: spec_fn(int) -> nat| is_rank(deps, rank)
}

/// Distinct numbers below `n` are at most `n`; if one is missing they are fewer.
pub proof fn lemma_pigeonhole(s: Seq<usize>, n: int)
    requires
        0 <= n,
        s.no_duplicates(),
        forall|k: int| 0 <= k < s.len() ==> #[trigger] s[k] < n,
    ensures
        s.len() <= n,
        forall|x: usize| x < n && !s.contains(x) ==> s.len() < n,
        s.len() == n ==> forall|x: usize| x < n ==> #[trigger] s.contains(x),
{
    let ints = s.map_values(|x: usize| x as int);
    assert(ints.no_duplicates());
    ints.unique_seq_to_set();
    lemma_int_range(0, n);
    let all = vstd::set_lib::set_int_range(0, n);
    assert(ints.to_set().subset_of(all)) by {
        assert forall|x: int| ints.to_set().contains(x) implies all.contains(x) by {
            let k = choose|k: int| 0 <= k < ints.len() && ints[k] == x;
            assert(s[k] < n);
        }
    }
    lemma_len_subset(ints.to_set(), all);
    assert forall|x: usize| x < n && !s.contains(x) implies s.len() < n by {
        let fewer = all.remove(x as int);
        assert(ints.to_set().subset_of(fewer)) by {
            assert forall|y: int| ints.to_set().contains(y) implies fewer.contains(y) by {
                let k = choose|k: int| 0 <= k < ints.len() && ints[k] == y;
                assert(s[k] < n);
                if y == x {
                    assert(s[k] == x);
                    assert(s.contains(x));
                }
            }
        }
        lemma_len_subset(ints.to_set(), fewer);
    }
}

// Layers.

/// Visits node `i` below the nodes of `path`: the layer that it gets, and the
/// layers known afterwards. A node that was met before keeps its layer; one
/// that is still being visited counts as layer 0.
pub open spec fn visit_layer(
    deps: Seq<Seq<usize>>,
    path: Seq<usize>,
    known: Map<usize, nat>,
    i: usize,
) -> (nat, Map<usize, nat>)
    decreases deps.len() - path.len(), 1int, 0int,
{
    if known.dom().contains(i) {
        (known[i], known)
    } else if path.contains(i) || path.len() >= deps.len() {
        (0, known)
    } else {
        let (layer, known2) = visit_layers(
            deps,
            path.push(i),
            known,
            i,
            deps[i as int].len() as int,
        );
        (layer, known2.insert(i, layer))
    }
}

/// Visits the first `k` dependencies of `i`: one more than the highest of
/// their layers, and the layers known afterwards.
pub open spec fn visit_layers(
    deps: Seq<Seq<usize>>,
    path: Seq<usize>,
    known: Map<usize, nat>,
    i: usize,
    k: int,
) -> (nat, Map<usize, nat>)
    decreases deps.len() - path.len(), 2int, k,
{
    if k <= 0 || path.len() > deps.len() {
        (0, known)
    } else {
        let (highest, known1) = visit_layers(deps, path, known, i, k - 1);
        let (layer, known2) = visit_layer(deps, path, known1, deps[i as int][k - 1]);
        (
            if highest >= layer + 1 {
                highest
            } else {
                layer + 1
            },
            known2,
        )
    }
}

/// The layers known after the first `n` nodes were visited in order.
pub open spec fn layers_after(deps: Seq<Seq<usize>>, n: nat) -> Map<usize, nat>
    decreases n,
{
    if n == 0 {
        Map::empty()
    } else {
        visit_layer(
            deps,
            Seq::empty(),
            layers_after(deps, (n - 1) as nat),
            (n - 1) as usize,
        ).1
    }
}

/// The layer of each node.
pub open spec fn layers(deps: Seq<Seq<usize>>) -> Seq<nat> {
    Seq::new(deps.len(), |i: int| layers_after(deps, deps.len())[i as usize])
}

/// What a visit keeps: a path without repetition, and layers of nodes of the
/// graph, none higher than the number of layers known.
pub open spec fn visit_wf(deps: Seq<Seq<usize>>, path: Seq<usize>, known: Map<usize, nat>) -> bool {
    &&& deps_wf(deps)
    &&& path.no_duplicates()
    &&& forall|k: int| 0 <= k < path.len() ==> #[trigger] path[k] < deps.len()
    &&& known_wf(deps, known)
    &&& forall|k: int| 0 <= k < path.len() ==> !known.dom().contains(#[trigger] path[k])
}

pub open spec fn known_wf(deps: Seq<Seq<usize>>, known: Map<usize, nat>) -> bool {
    &&& known.dom().finite()
    &&& forall|j: usize| known.dom().contains(j) ==> j < deps.len()
    &&& forall|j: usize| known.dom().contains(j) ==> #[trigger] known[j] <= known.dom().len()
}

/// `b` holds the layers of `a` and perhaps more.
pub open spec fn extends(a: Map<usize, nat>, b: Map<usize, nat>) -> bool {
    forall|j: usize|
        a.dom().contains(j) ==> #[trigger] b.dom().contains(j) && b[j] == a[j]
}

proof fn lemma_bounded_set(s: Set<usize>, n: nat)
    requires
        s.finite(),
        n <= usize::MAX,
        forall|j: usize| s.contains(j) ==> j < n,
    ensures
        s.len() <= n,
    decreases n,
{
    if n == 0 {
        assert(s =~= Set::empty());
    } else {
        lemma_bounded_set(s.remove((n - 1) as usize), (n - 1) as nat);
    }
}

proof fn lemma_dom_bound(deps: Seq<Seq<usize>>, known: Map<usize, nat>)
    requires
        deps.len() <= usize::MAX,
        known_wf(deps, known),
    ensures
        known.dom().len() <= deps.len(),
        forall|i: usize| i < deps.len() && !known.dom().contains(i) ==> known.dom().len()
            < deps.len(),
{
    lemma_bounded_set(known.dom(), deps.len());
    assert forall|i: usize| i < deps.len() && !known.dom().contains(i) implies known.dom().len()
        < deps.len() by {
        lemma_bounded_set(known.dom().insert(i), deps.len());
    }
}

pub proof fn lemma_visit_layer(
    deps: Seq<Seq<usize>>,
    path: Seq<usize>,
    known: Map<usize, nat>,
    i: usize,
)
    requires
        deps.len() <= usize::MAX,
        visit_wf(deps, path, known),
        i < deps.len(),
    ensures
        ({
            let (layer, after) = visit_layer(deps, path, known, i);
            &&& visit_wf(deps, path, after)
            &&& extends(known, after)
            &&& layer <= after.dom().len()
            &&& !path.contains(i) ==> after.dom().contains(i) && after[i] == layer
            &&& known.dom().len() <= after.dom().len()
        }),
    decreases deps.len() - path.len(), 1int, 0int,
{
    lemma_pigeonhole(path, deps.len() as int);
    if !known.dom().contains(i) && !path.contains(i) {
        let inner = path.push(i);
        assert(visit_wf(deps, inner, known));
        lemma_visit_layers(deps, inner, known, i, deps[i as int].len() as int);
        let (layer, known2) = visit_layers(deps, inner, known, i, deps[i as int].len() as int);
        assert(inner[path.len() as int] == i);
        assert(!known2.dom().contains(i));
        let after = known2.insert(i, layer);
        assert(after.dom() =~= known2.dom().insert(i));
        assert forall|k: int| 0 <= k < path.len() implies !after.dom().contains(
            #[trigger] path[k],
        ) by {
            assert(inner[k] == path[k]);
            assert(path[k] != i);
        }
        assert(forall|j: usize| known.dom().contains(j) ==> #[trigger] known2.dom().contains(j));
    }
}

pub proof fn lemma_visit_layers(
    deps: Seq<Seq<usize>>,
    path: Seq<usize>,
    known: Map<usize, nat>,
    i: usize,
    k: int,
)
    requires
        deps.len() <= usize::MAX,
        visit_wf(deps, path, known),
        i < deps.len(),
        0 <= k <= deps[i as int].len(),
    ensures
        ({
            let (layer, after) = visit_layers(deps, path, known, i, k);
            &&& visit_wf(deps, path, after)
            &&& extends(known, after)
            &&& layer <= after.dom().len() + 1
            &&& known.dom().len() <= after.dom().len()
        }),
    decreases deps.len() - path.len(), 2int, k,
{
    lemma_pigeonhole(path, deps.len() as int);
    if k > 0 {
        lemma_visit_layers(deps, path, known, i, k - 1);
        let (highest, known1) = visit_layers(deps, path, known, i, k - 1);
        assert(deps[i as int][k - 1] < deps.len());
        lemma_visit_layer(deps, path, known1, deps[i as int][k - 1]);
        let (layer, known2) = visit_layer(deps, path, known1, deps[i as int][k - 1]);
        assert(extends(known, known1) && extends(known1, known2));
        assert forall|j: usize| known.dom().contains(j) implies (#[trigger] known2.dom().contains(j)
            && known2[j] == known[j]) by {
            assert(known1.dom().contains(j));
            assert(known2.dom().contains(j));
        }
    }
}

/// The layers that a table holds.
pub open spec fn table_holds(memo: Seq<Option<u16>>, known: Map<usize, nat>) -> bool {
    forall|j: usize|
        j < memo.len() ==> {
            &&& known.dom().contains(j) <==> (#[trigger] memo[j as int]) is Some
            &&& memo[j as int] matches Some(l) ==> known[j] == l
        }
}

pub open spec fn marks_path(on_stack: Seq<bool>, path: Seq<usize>) -> bool {
    forall|j: usize| j < on_stack.len() ==> (#[trigger] on_stack[j as int] <==> path.contains(j))
}

fn layer_of(
    i: usize,
    deps_of: &[Vec<usize>],
    memo: &mut Vec<Option<u16>>,
    on_stack: &mut Vec<bool>,
    Ghost(path): Ghost<Seq<usize>>,
    Ghost(known): Ghost<Map<usize, nat>>,
) -> (r: u16)
    requires
        deps_of@.len() <= u16::MAX,
        i < deps_of@.len(),
        old(memo)@.len() == deps_of@.len(),
        old(on_stack)@.len() == deps_of@.len(),
        visit_wf(deps_view(deps_of@), path, known),
        table_holds(old(memo)@, known),
        marks_path(old(on_stack)@, path),
    ensures
        final(memo)@.len() == deps_of@.len(),
        final(on_stack)@ == old(on_stack)@,
        r == visit_layer(deps_view(deps_of@), path, known, i).0,
        table_holds(final(memo)@, visit_layer(deps_view(deps_of@), path, known, i).1),
    decreases deps_of@.len() - path.len(),
{
    let ghost deps = deps_view(deps_of@);
    proof {
        lemma_pigeonhole(path, deps.len() as int);
        lemma_visit_layer(deps, path, known, i);
    }
    if let Some(v) = memo[i] {
        return v;
    }
    if on_stack[i] {
        return 0;
    }
    on_stack[i] = true;
    let ghost inner = path.push(i);
    let ghost marked = on_stack@;
    proof {
        assert(visit_wf(deps, inner, known));
        assert forall|j: usize| j < on_stack@.len() implies (#[trigger] on_stack@[j as int]
            <==> inner.contains(j)) by {
            assert(on_stack@[j as int] <==> (path.contains(j) || j == i));
            if path.contains(j) {
                let k = choose|k: int| 0 <= k < path.len() && path[k] == j;
                assert(inner[k] == j);
            }
            assert(inner[path.len() as int] == i);
            if inner.contains(j) {
                let k = choose|k: int| 0 <= k < inner.len() && inner[k] == j;
                if k < path.len() {
                    assert(path[k] == j);
                }
            }
        }
    }
    let list = &deps_of[i];
    let mut layer: u16 = 0;
    let mut k: usize = 0;
    proof {
        assert(deps[i as int] == list@);
    }
    while k < list.len()
        invariant
            deps == deps_view(deps_of@),
            deps_of@.len() <= u16::MAX,
            i < deps_of@.len(),
            list@ == deps[i as int],
            k <= list@.len(),
            inner == path.push(i),
            path.len() < deps.len(),
            !path.contains(i),
            visit_wf(deps, inner, known),
            memo@.len() == deps_of@.len(),
            on_stack@ == marked,
            marked.len() == deps_of@.len(),
            marks_path(marked, inner),
            layer == visit_layers(deps, inner, known, i, k as int).0,
            table_holds(memo@, visit_layers(deps, inner, known, i, k as int).1),
        decreases list@.len() - k,
    {
        let ghost before = visit_layers(deps, inner, known, i, k as int).1;
        proof {
            lemma_visit_layers(deps, inner, known, i, k as int);
            lemma_visit_layers(deps, inner, known, i, k + 1);
            assert(deps[i as int][k as int] < deps.len());
            lemma_visit_layer(deps, inner, before, list@[k as int]);
            let after = visit_layer(deps, inner, before, list@[k as int]).1;
            assert(inner[path.len() as int] == i);
            assert(!after.dom().contains(i));
            lemma_dom_bound(deps, after);
        }
        let l = layer_of(list[k], deps_of, memo, on_stack, Ghost(inner), Ghost(before));
        if layer < l + 1 {
            layer = l + 1;
        }
        k += 1;
    }
    on_stack[i] = false;
    memo[i] = Some(layer);
    proof {
        assert(on_stack@ =~= old(on_stack)@);
        let known2 = visit_layers(deps, inner, known, i, list@.len() as int).1;
        assert(table_holds(memo@, known2.insert(i, layer as nat)));
    }
    layer
}

/// The layer of each node.
pub(crate) fn compute_layers(deps_of: &[Vec<usize>]) -> (r: Vec<u16>)
    requires
        deps_wf(deps_view(deps_of@)),
        deps_of@.len() <= u16::MAX,
    ensures
        r@.len() == deps_of@.len(),
        forall|i: int| 0 <= i < r@.len() ==> #[trigger] r@[i] == layers(deps_view(deps_of@))[i],
        forall|i: int| 0 <= i < r@.len() ==> #[trigger] r@[i] <= deps_of@.len(),
{
    let n = deps_of.len();
    let ghost deps = deps_view(deps_of@);
    let mut memo: Vec<Option<u16>> = Vec::new();
    let mut on_stack: Vec<bool> = Vec::new();
    let mut j: usize = 0;
    while j < n
        invariant
            j <= n,
            memo@.len() == j,
            on_stack@.len() == j,
            forall|x: int| 0 <= x < j ==> (#[trigger] memo@[x]) is None,
            forall|x: int| 0 <= x < j ==> !(#[trigger] on_stack@[x]),
        decreases n - j,
    {
        memo.push(None);
        on_stack.push(false);
        j += 1;
    }
    let mut out: Vec<u16> = Vec::new();
    let mut i: usize = 0;
    let ghost empty = Seq::<usize>::empty();
    while i < n
        invariant
            n == deps_of@.len(),
            n <= u16::MAX,
            deps == deps_view(deps_of@),
            empty == Seq::<usize>::empty(),
            i <= n,
            out@.len() == i,
            memo@.len() == n,
            on_stack@.len() == n,
            marks_path(on_stack@, empty),
            visit_wf(deps, empty, layers_after(deps, i as nat)),
            table_holds(memo@, layers_after(deps, i as nat)),
            forall|x: usize|
                x < i ==> #[trigger] layers_after(deps, i as nat).dom().contains(x)
                    && out@[x as int] == layers_after(deps, i as nat)[x],
        decreases n - i,
    {
        let ghost known = layers_after(deps, i as nat);
        proof {
            lemma_visit_layer(deps, empty, known, i);
        }
        let l = layer_of(i, deps_of, &mut memo, &mut on_stack, Ghost(empty), Ghost(known));
        out.push(l);
        proof {
            let after = layers_after(deps, (i + 1) as nat);
            assert(after == visit_layer(deps, empty, known, i).1);
            assert forall|x: usize| x < i + 1 implies (#[trigger] after.dom().contains(x)
                && out@[x as int] == after[x]) by {
                if x < i {
                    assert(known.dom().contains(x));
                    assert(after.dom().contains(x));
                }
            }
        }
        i += 1;
    }
    proof {
        let known = layers_after(deps, n as nat);
        lemma_dom_bound(deps, known);
        assert forall|x: int| 0 <= x < n implies #[trigger] out@[x] <= n && out@[x] == layers(
            deps,
        )[x] by {
            assert(known.dom().contains(x as usize));
            assert(known[x as usize] <= known.dom().len());
        }
    }
    out
}

/// Every dependency of a known node is known, and the node is one layer above
/// the highest of them.
pub open spec fn settled(deps: Seq<Seq<usize>>, known: Map<usize, nat>) -> bool {
    forall|j: usize| #[trigger] known.dom().contains(j) ==> settled_node(deps, known, j)
}

pub open spec fn settled_node(deps: Seq<Seq<usize>>, known: Map<usize, nat>, j: usize) -> bool {
    &&& above_all(deps, known, j, deps[j as int].len() as int, known[j])
    &&& above_one(deps, known, j, deps[j as int].len() as int, known[j])
}

pub open spec fn above_all(
    deps: Seq<Seq<usize>>,
    known: Map<usize, nat>,
    i: usize,
    k: int,
    layer: nat,
) -> bool {
    forall|m: int|
        0 <= m < k ==> known.dom().contains(#[trigger] deps[i as int][m])
            && known[deps[i as int][m]] < layer
}

pub open spec fn above_one(
    deps: Seq<Seq<usize>>,
    known: Map<usize, nat>,
    i: usize,
    k: int,
    layer: nat,
) -> bool {
    if k == 0 {
        layer == 0
    } else {
        exists|m: int| 0 <= m < k && layer == known[#[trigger] deps[i as int][m]] + 1
    }
}

proof fn lemma_above_extends(
    deps: Seq<Seq<usize>>,
    a: Map<usize, nat>,
    b: Map<usize, nat>,
    i: usize,
    k: int,
    layer: nat,
)
    requires
        extends(a, b),
        above_all(deps, a, i, k, layer),
        above_one(deps, a, i, k, layer),
        0 <= k,
    ensures
        above_all(deps, b, i, k, layer),
        above_one(deps, b, i, k, layer),
{
    assert forall|m: int| 0 <= m < k implies b.dom().contains(#[trigger] deps[i as int][m])
        && b[deps[i as int][m]] < layer by {
        assert(a.dom().contains(deps[i as int][m]));
        assert(b.dom().contains(deps[i as int][m]));
    }
    if k > 0 {
        let m = choose|m: int| 0 <= m < k && layer == a[#[trigger] deps[i as int][m]] + 1;
        assert(a.dom().contains(deps[i as int][m]));
        assert(b.dom().contains(deps[i as int][m]));
        assert(layer == b[deps[i as int][m]] + 1);
    }
}

proof fn lemma_visit_settled(
    deps: Seq<Seq<usize>>,
    rank: spec_fn(int) -> nat,
    path: Seq<usize>,
    known: Map<usize, nat>,
    i: usize,
)
    requires
        deps.len() <= usize::MAX,
        is_rank(deps, rank),
        visit_wf(deps, path, known),
        settled(deps, known),
        i < deps.len(),
        forall|k: int| 0 <= k < path.len() ==> rank(#[trigger] path[k] as int) > rank(i as int),
    ensures
        settled(deps, visit_layer(deps, path, known, i).1),
        visit_layer(deps, path, known, i).1.dom().contains(i),
        visit_layer(deps, path, known, i).1[i] == visit_layer(deps, path, known, i).0,
    decreases deps.len() - path.len(), 1int, 0int,
{
    lemma_visit_layer(deps, path, known, i);
    lemma_pigeonhole(path, deps.len() as int);
    if !known.dom().contains(i) {
        assert(!path.contains(i));
        let inner = path.push(i);
        let n = deps[i as int].len() as int;
        lemma_visit_list_settled(deps, rank, inner, known, i, n);
        lemma_visit_layers(deps, inner, known, i, n);
        let (layer, known2) = visit_layers(deps, inner, known, i, n);
        let after = known2.insert(i, layer);
        assert(inner[path.len() as int] == i);
        assert(!known2.dom().contains(i));
        assert(extends(known2, after));
        lemma_above_extends(deps, known2, after, i, n, layer);
        assert forall|j: usize| #[trigger] after.dom().contains(j) implies settled_node(
            deps,
            after,
            j,
        ) by {
            if j != i {
                assert(known2.dom().contains(j));
                lemma_above_extends(
                    deps,
                    known2,
                    after,
                    j,
                    deps[j as int].len() as int,
                    known2[j],
                );
            }
        }
    }
}

proof fn lemma_visit_list_settled(
    deps: Seq<Seq<usize>>,
    rank: spec_fn(int) -> nat,
    path: Seq<usize>,
    known: Map<usize, nat>,
    i: usize,
    k: int,
)
    requires
        deps.len() <= usize::MAX,
        is_rank(deps, rank),
        visit_wf(deps, path, known),
        settled(deps, known),
        i < deps.len(),
        0 <= k <= deps[i as int].len(),
        forall|m: int| 0 <= m < path.len() ==> rank(#[trigger] path[m] as int) >= rank(i as int),
    ensures
        ({
            let (layer, after) = visit_layers(deps, path, known, i, k);
            &&& settled(deps, after)
            &&& above_all(deps, after, i, k, layer)
            &&& above_one(deps, after, i, k, layer)
        }),
    decreases deps.len() - path.len(), 2int, k,
{
    lemma_pigeonhole(path, deps.len() as int);
    if k > 0 {
        lemma_visit_list_settled(deps, rank, path, known, i, k - 1);
        lemma_visit_layers(deps, path, known, i, k - 1);
        let (highest, known1) = visit_layers(deps, path, known, i, k - 1);
        let d = deps[i as int][k - 1];
        assert(d < deps.len());
        assert(rank(d as int) < rank(i as int));
        lemma_visit_settled(deps, rank, path, known1, d);
        lemma_visit_layer(deps, path, known1, d);
        let (layer, known2) = visit_layer(deps, path, known1, d);
        lemma_above_extends(deps, known1, known2, i, k - 1, highest);
        let top = visit_layers(deps, path, known, i, k).0;
        assert(above_all(deps, known2, i, k, top));
        if k - 1 > 0 {
            let m = choose|m: int|
                0 <= m < k - 1 && highest == known2[#[trigger] deps[i as int][m]] + 1;
            assert(highest == known2[deps[i as int][m]] + 1);
            assert(layer == known2[deps[i as int][k - 1]]);
        } else {
            assert(top == known2[deps[i as int][k - 1]] + 1);
        }
    }
}

/// In a graph without cycles every node is one layer above the highest of its
/// dependencies, and a node without dependencies is in layer 0.
pub proof fn layers_rise_along_dependencies(deps: Seq<Seq<usize>>)
    requires
        deps.len() <= usize::MAX,
        deps_wf(deps),
        acyclic(deps),
    ensures
        forall|i: int, k: int|
            0 <= i < deps.len() && 0 <= k < deps[i].len() ==> layers(deps)[(
            #[trigger] deps[i][k]) as int] < layers(deps)[i],
        forall|i: int|
            0 <= i < deps.len() && (#[trigger] deps[i]).len() == 0 ==> layers(deps)[i] == 0,
        forall|i: int|
            0 <= i < deps.len() && (#[trigger] deps[i]).len() > 0 ==> exists|k: int|
                0 <= k < deps[i].len() && layers(deps)[i] == layers(deps)[(
                #[trigger] deps[i][k]) as int] + 1,
{
    let rank = choose|rank: spec_fn(int) -> nat| is_rank(deps, rank);
    let n = deps.len();
    lemma_layers_after_settled(deps, rank, n);
    let known = layers_after(deps, n);
    assert forall|i: int| 0 <= i < n implies settled_node(deps, known, i as usize)
        && #[trigger] layers(deps)[i] == known[i as usize] by {
        assert(known.dom().contains(i as usize));
    }
    assert forall|i: int, k: int|
        0 <= i < deps.len() && 0 <= k < deps[i].len() implies layers(deps)[(
    #[trigger] deps[i][k]) as int] < layers(deps)[i] by {
        assert(layers(deps)[i] == known[i as usize]);
        assert(deps[(i as usize) as int][k] < n);
        assert(layers(deps)[deps[i][k] as int] == known[deps[i][k]]);
    }
    assert forall|i: int|
        0 <= i < deps.len() && (#[trigger] deps[i]).len() == 0 implies layers(deps)[i] == 0 by {
        assert(layers(deps)[i] == known[i as usize]);
    }
    assert forall|i: int| 0 <= i < deps.len() && (#[trigger] deps[i]).len() > 0 implies exists|
        k: int,
    |
        0 <= k < deps[i].len() && layers(deps)[i] == layers(deps)[(#[trigger] deps[i][k]) as int]
            + 1 by {
        assert(layers(deps)[i] == known[i as usize]);
        let m = choose|m: int|
            0 <= m < deps[i].len() && known[i as usize] == known[#[trigger] deps[(
            i as usize) as int][m]] + 1;
        assert(deps[i][m] < n);
        assert(layers(deps)[deps[i][m] as int] == known[deps[i][m]]);
    }
}

proof fn lemma_layers_after_settled(deps: Seq<Seq<usize>>, rank: spec_fn(int) -> nat, n: nat)
    requires
        deps.len() <= usize::MAX,
        n <= deps.len(),
        deps_wf(deps),
        is_rank(deps, rank),
    ensures
        visit_wf(deps, Seq::empty(), layers_after(deps, n)),
        settled(deps, layers_after(deps, n)),
        forall|j: usize| j < n ==> #[trigger] layers_after(deps, n).dom().contains(j),
    decreases n,
{
    if n > 0 {
        let m = (n - 1) as nat;
        lemma_layers_after_settled(deps, rank, m);
        let before = layers_after(deps, m);
        lemma_visit_layer(deps, Seq::empty(), before, m as usize);
        lemma_visit_settled(deps, rank, Seq::empty(), before, m as usize);
        let after = layers_after(deps, n);
        assert(extends(before, after));
        assert forall|j: usize| j < n implies #[trigger] after.dom().contains(j) by {
            if j < m {
                assert(before.dom().contains(j));
            }
        }
    }
}

} // verus!
