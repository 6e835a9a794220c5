//! The connected parts of a graph.

use crate::graph::{deps_view, deps_wf};
use vstd::prelude::*;

verus! {

/// Whether one of the two nodes depends on the other directly.
pub open spec fn linked(deps: Seq<Seq<usize>>, a: int, b: int) -> bool {
    deps[a].contains(b as usize) || deps[b].contains(a as usize)
}

/// A walk along links.
pub open spec fn is_walk(deps: Seq<Seq<usize>>, path: Seq<int>) -> bool {
    &&& path.len() > 0
    &&& forall|k: int| 0 <= k < path.len() ==> 0 <= #[trigger] path[k] < deps.len()
    &&& forall|k: int, l: int|
        #![trigger path[k], path[l]]
        0 <= k && l == k + 1 && l < path.len() ==> linked(deps, path[k], path[l])
}

pub open spec fn joins(deps: Seq<Seq<usize>>, path: Seq<int>, a: int, b: int) -> bool {
    is_walk(deps, path) && path.first() == a && path.last() == b
}

/// Whether links lead from `a` to `b`, whatever their direction.
pub open spec fn connected(deps: Seq<Seq<usize>>, a: int, b: int) -> bool {
    exists|path: Seq<int>| joins(deps, path, a, b)
}

/// The least number above all labels in use.
pub open spec fn fresh_label(labels: Seq<usize>) -> nat
    decreases labels.len(),
{
    if labels.len() == 0 {
        0
    } else {
        let before = fresh_label(labels.drop_last());
        if labels.last() >= before {
            labels.last() as nat + 1
        } else {
            before
        }
    }
}

/// Nodes have the same label exactly when they are connected, and a label
/// that was not used before is the next free number.
pub open spec fn labels_components(deps: Seq<Seq<usize>>, labels: Seq<usize>) -> bool {
    &&& labels.len() == deps.len()
    &&& forall|a: int, b: int|
        #![trigger labels[a], labels[b]]
        0 <= a < deps.len() && 0 <= b < deps.len() ==> (labels[a] == labels[b] <==> connected(
            deps,
            a,
            b,
        ))
    &&& forall|i: int|
        #![trigger labels[i]]
        0 <= i < deps.len() ==> labels[i] <= fresh_label(labels.take(i))
}

/// A node is connected to itself.
pub proof fn connected_to_itself(deps: Seq<Seq<usize>>, a: int)
    requires
        0 <= a < deps.len(),
    ensures
        connected(deps, a, a),
{
    assert(joins(deps, seq![a], a, a));
}

/// Being connected has no direction.
pub proof fn connected_both_ways(deps: Seq<Seq<usize>>, a: int, b: int)
    requires
        connected(deps, a, b),
    ensures
        connected(deps, b, a),
{
    let p = choose|p: Seq<int>| joins(deps, p, a, b);
    let q = Seq::new(p.len(), |k: int| p[p.len() - 1 - k]);
    assert forall|k: int, l: int|
        #![trigger q[k], q[l]]
        0 <= k && l == k + 1 && l < q.len() implies linked(deps, q[k], q[l]) by {
        assert(linked(deps, p[p.len() - 1 - l], p[p.len() - 1 - k]));
    }
    assert(joins(deps, q, b, a));
}

/// What is connected to the same node is connected.
pub proof fn connected_through(deps: Seq<Seq<usize>>, a: int, b: int, c: int)
    requires
        connected(deps, a, b),
        connected(deps, b, c),
    ensures
        connected(deps, a, c),
{
    let p = choose|p: Seq<int>| joins(deps, p, a, b);
    let q = choose|q: Seq<int>| joins(deps, q, b, c);
    let r = p + q.skip(1);
    assert forall|k: int, l: int|
        #![trigger r[k], r[l]]
        0 <= k && l == k + 1 && l < r.len() implies linked(deps, r[k], r[l]) by {
        if l < p.len() {
            assert(linked(deps, p[k], p[l]));
        } else if k < p.len() {
            assert(r[k] == q[0]);
            assert(r[l] == q[1]);
            assert(linked(deps, q[0], q[1]));
        } else {
            let m = k - p.len() + 1;
            assert(r[k] == q[m]);
            assert(r[l] == q[m + 1]);
            assert(linked(deps, q[m], q[m + 1]));
        }
    }
    assert(joins(deps, r, a, c)) by {
        assert forall|k: int| 0 <= k < r.len() implies 0 <= #[trigger] r[k] < deps.len() by {
            if k < p.len() {
                assert(r[k] == p[k]);
            } else {
                assert(r[k] == q[k - p.len() + 1]);
            }
        }
        assert(r[0] == p[0]);
        if q.len() > 1 {
            assert(r.last() == q.last());
        } else {
            assert(r.last() == p.last());
        }
    }
}

/// A node is connected to what it depends on.
pub proof fn connected_to_dependency(deps: Seq<Seq<usize>>, i: int, k: int)
    requires
        deps_wf(deps),
        0 <= i < deps.len(),
        0 <= k < deps[i].len(),
    ensures
        connected(deps, i, deps[i][k] as int),
{
    let d = deps[i][k] as int;
    assert(deps[i].contains(deps[i][k]));
    assert(deps[i][k] < deps.len());
    assert(linked(deps, i, d));
    assert(joins(deps, seq![i, d], i, d));
}

/// Every entry is at most its own index, so following entries ends.
pub open spec fn forest(parent: Seq<usize>) -> bool {
    forall|x: int| 0 <= x < parent.len() ==> #[trigger] parent[x] <= x
}

/// Where following the entries from `x` ends.
pub open spec fn root(parent: Seq<usize>, x: int) -> int
    decreases x,
{
    if 0 <= x < parent.len() && parent[x] < x {
        root(parent, parent[x] as int)
    } else {
        x
    }
}

proof fn lemma_root(parent: Seq<usize>, x: int)
    requires
        forest(parent),
        0 <= x < parent.len(),
    ensures
        0 <= root(parent, x) <= x,
        parent[root(parent, x)] == root(parent, x),
    decreases x,
{
    if parent[x] < x {
        lemma_root(parent, parent[x] as int);
    }
}

/// Pointing `c` at something with the same root changes no root.
proof fn lemma_shortcut(parent: Seq<usize>, c: int, x: int)
    requires
        forest(parent),
        0 <= c < parent.len(),
        0 <= x < parent.len(),
        root(parent, c) <= usize::MAX,
    ensures
        root(parent.update(c, root(parent, c) as usize), x) == root(parent, x),
    decreases x,
{
    let p2 = parent.update(c, root(parent, c) as usize);
    lemma_root(parent, c);
    if x == c {
        let r = root(parent, c);
        if r < c {
            lemma_shortcut(parent, c, r);
            assert(p2[x] == r);
            assert(root(parent, r) == r);
        }
    } else if parent[x] < x {
        lemma_shortcut(parent, c, parent[x] as int);
    }
}

/// Pointing the root `hi` at the lower root `lo` turns every root `hi` into
/// `lo`.
proof fn lemma_merge(parent: Seq<usize>, lo: usize, hi: usize, x: int)
    requires
        forest(parent),
        lo < hi < parent.len(),
        parent[lo as int] == lo,
        parent[hi as int] == hi,
        0 <= x < parent.len(),
    ensures
        root(parent.update(hi as int, lo), x) == (if root(parent, x) == hi {
            lo as int
        } else {
            root(parent, x)
        }),
    decreases x,
{
    let p2 = parent.update(hi as int, lo);
    if x == hi {
        assert(p2[x] == lo);
        assert(root(p2, lo as int) == lo);
    } else if parent[x] < x {
        lemma_merge(parent, lo, hi, parent[x] as int);
        lemma_root(parent, parent[x] as int);
    } else {
        assert(root(parent, x) == x);
    }
}

pub open spec fn same_roots(a: Seq<usize>, b: Seq<usize>) -> bool {
    &&& a.len() == b.len()
    &&& forall|x: int| 0 <= x < a.len() ==> #[trigger] root(b, x) == root(a, x)
}

/// The root of `i`; entries on the way are pointed at it.
fn find(parent: &mut Vec<usize>, i: usize) -> (r: usize)
    requires
        forest(old(parent)@),
        i < old(parent)@.len(),
    ensures
        r == root(old(parent)@, i as int),
        forest(final(parent)@),
        same_roots(old(parent)@, final(parent)@),
{
    let ghost p0 = parent@;
    let mut top: usize = i;
    while parent[top] != top
        invariant
            parent@ == p0,
            forest(p0),
            i < p0.len(),
            top < p0.len(),
            root(p0, top as int) == root(p0, i as int),
        decreases top,
    {
        top = parent[top];
    }
    let mut cur: usize = i;
    while parent[cur] != top
        invariant
            forest(p0),
            forest(parent@),
            same_roots(p0, parent@),
            cur < p0.len(),
            top < p0.len(),
            root(p0, cur as int) == top,
            p0[top as int] == top,
        decreases cur,
    {
        let next = parent[cur];
        proof {
            assert(root(parent@, cur as int) == top);
            lemma_root(parent@, cur as int);
            assert(next < cur);
            assert(root(parent@, next as int) == top);
            assert(root(p0, next as int) == root(parent@, next as int));
            assert forall|x: int| 0 <= x < p0.len() implies #[trigger] root(
                parent@.update(cur as int, top),
                x,
            ) == root(p0, x) by {
                lemma_shortcut(parent@, cur as int, x);
                assert(root(parent@, x) == root(p0, x));
            }
        }
        parent[cur] = top;
        cur = next;
    }
    top
}

/// Joins the trees of `a` and `b` under the lower of their roots.
fn union(parent: &mut Vec<usize>, a: usize, b: usize)
    requires
        forest(old(parent)@),
        a < old(parent)@.len(),
        b < old(parent)@.len(),
    ensures
        forest(final(parent)@),
        final(parent)@.len() == old(parent)@.len(),
        forall|x: int|
            0 <= x < old(parent)@.len() ==> #[trigger] root(final(parent)@, x) == (if root(
                old(parent)@,
                x,
            ) == root(old(parent)@, a as int) || root(old(parent)@, x) == root(
                old(parent)@,
                b as int,
            ) {
                if root(old(parent)@, a as int) < root(old(parent)@, b as int) {
                    root(old(parent)@, a as int)
                } else {
                    root(old(parent)@, b as int)
                }
            } else {
                root(old(parent)@, x)
            }),
{
    let ghost p0 = parent@;
    let ra = find(parent, a);
    let ghost p1 = parent@;
    let rb = find(parent, b);
    let ghost p2 = parent@;
    proof {
        assert(root(p1, b as int) == root(p0, b as int));
        assert(root(p2, a as int) == root(p1, a as int) == root(p0, a as int));
        assert(root(p2, b as int) == root(p1, b as int));
        lemma_root(p2, a as int);
        lemma_root(p2, b as int);
        assert forall|x: int| 0 <= x < p0.len() implies #[trigger] root(p2, x) == root(p0, x) by {
            assert(root(p1, x) == root(p0, x));
        }
    }
    if ra != rb {
        let lo: usize = if ra < rb {
            ra
        } else {
            rb
        };
        let hi: usize = if ra < rb {
            rb
        } else {
            ra
        };
        parent[hi] = lo;
        proof {
            assert forall|x: int| 0 <= x < p0.len() implies #[trigger] root(parent@, x) == (if root(
                p0,
                x,
            ) == ra || root(p0, x) == rb {
                lo as int
            } else {
                root(p0, x)
            }) by {
                lemma_merge(p2, lo, hi, x);
                assert(root(p2, x) == root(p0, x));
            }
        }
    }
}

/// Every node is connected to its root.
pub open spec fn roots_connected(deps: Seq<Seq<usize>>, parent: Seq<usize>) -> bool {
    forall|x: int| 0 <= x < deps.len() ==> connected(deps, x, #[trigger] root(parent, x))
}

/// The first `k` dependencies of `i` have its root.
pub open spec fn merged(deps: Seq<Seq<usize>>, parent: Seq<usize>, i: int, k: int) -> bool {
    forall|l: int|
        0 <= l < k ==> root(parent, #[trigger] deps[i][l] as int) == root(parent, i)
}

proof fn lemma_union_keeps(
    deps: Seq<Seq<usize>>,
    p: Seq<usize>,
    q: Seq<usize>,
    a: int,
    b: int,
)
    requires
        deps_wf(deps),
        p.len() == deps.len(),
        forest(p),
        0 <= a < deps.len(),
        0 <= b < deps.len(),
        connected(deps, a, b),
        roots_connected(deps, p),
        forall|x: int|
            0 <= x < p.len() ==> #[trigger] root(q, x) == (if root(p, x) == root(p, a) || root(p, x)
                == root(p, b) {
                if root(p, a) < root(p, b) {
                    root(p, a)
                } else {
                    root(p, b)
                }
            } else {
                root(p, x)
            }),
    ensures
        roots_connected(deps, q),
{
    assert forall|x: int| 0 <= x < deps.len() implies connected(deps, x, #[trigger] root(q, x)) by {
        let ra = root(p, a);
        let rb = root(p, b);
        let rx = root(p, x);
        assert(connected(deps, x, rx));
        assert(connected(deps, a, ra));
        assert(connected(deps, b, rb));
        connected_both_ways(deps, a, ra);
        connected_both_ways(deps, b, rb);
        connected_both_ways(deps, a, b);
        connected_through(deps, ra, a, b);
        connected_through(deps, ra, b, rb);
        connected_through(deps, rb, b, a);
        connected_through(deps, rb, a, ra);
        if rx == ra && rb <= ra {
            connected_through(deps, x, ra, rb);
        } else if rx == rb && ra < rb {
            connected_through(deps, x, rb, ra);
        }
    }
}

proof fn lemma_walk_keeps_root(deps: Seq<Seq<usize>>, parent: Seq<usize>, path: Seq<int>)
    requires
        deps_wf(deps),
        deps.len() <= usize::MAX,
        is_walk(deps, path),
        forall|i: int| 0 <= i < deps.len() ==> #[trigger] merged(
            deps,
            parent,
            i,
            deps[i].len() as int,
        ),
    ensures
        root(parent, path.first()) == root(parent, path.last()),
    decreases path.len(),
{
    if path.len() > 1 {
        let p = path.drop_last();
        assert forall|k: int, l: int|
            #![trigger p[k], p[l]]
            0 <= k && l == k + 1 && l < p.len() implies linked(deps, p[k], p[l]) by {
            assert(linked(deps, path[k], path[l]));
        }
        assert forall|k: int| 0 <= k < p.len() implies 0 <= #[trigger] p[k] < deps.len() by {
            assert(0 <= path[k] < deps.len());
        }
        lemma_walk_keeps_root(deps, parent, p);
        let a = path[path.len() - 2];
        let b = path[path.len() - 1];
        assert(linked(deps, a, b));
        assert(merged(deps, parent, a, deps[a].len() as int));
        assert(merged(deps, parent, b, deps[b].len() as int));
        if deps[a].contains(b as usize) {
            let l = choose|l: int| 0 <= l < deps[a].len() && deps[a][l] == b as usize;
            assert(deps[a][l] == b as usize);
            assert(deps[a][l] < deps.len());
        } else {
            let l = choose|l: int| 0 <= l < deps[b].len() && deps[b][l] == a as usize;
            assert(deps[b][l] == a as usize);
            assert(deps[b][l] < deps.len());
        }
    }
}

/// Same root means connected and the other way round.
proof fn lemma_roots_are_components(deps: Seq<Seq<usize>>, parent: Seq<usize>, a: int, b: int)
    requires
        deps_wf(deps),
        deps.len() <= usize::MAX,
        0 <= a < deps.len(),
        0 <= b < deps.len(),
        roots_connected(deps, parent),
        forall|i: int| 0 <= i < deps.len() ==> #[trigger] merged(
            deps,
            parent,
            i,
            deps[i].len() as int,
        ),
    ensures
        root(parent, a) == root(parent, b) <==> connected(deps, a, b),
{
    if root(parent, a) == root(parent, b) {
        assert(connected(deps, a, root(parent, a)));
        assert(connected(deps, b, root(parent, b)));
        connected_both_ways(deps, b, root(parent, b));
        connected_through(deps, a, root(parent, a), b);
    }
    if connected(deps, a, b) {
        let path = choose|path: Seq<int>| joins(deps, path, a, b);
        lemma_walk_keeps_root(deps, parent, path);
    }
}

/// One tree of parents per connected part.
fn component_parents(deps_of: &[Vec<usize>]) -> (parent: Vec<usize>)
    requires
        deps_wf(deps_view(deps_of@)),
    ensures
        parent@.len() == deps_of@.len(),
        forest(parent@),
        roots_connected(deps_view(deps_of@), parent@),
        forall|i: int|
            0 <= i < deps_of@.len() ==> #[trigger] merged(
                deps_view(deps_of@),
                parent@,
                i,
                deps_of@[i]@.len() as int,
            ),
{
    let n = deps_of.len();
    let ghost deps = deps_view(deps_of@);
    let mut parent: Vec<usize> = Vec::new();
    let mut j: usize = 0;
    while j < n
        invariant
            j <= n,
            parent@.len() == j,
            forall|x: int| 0 <= x < j ==> #[trigger] parent@[x] == x,
        decreases n - j,
    {
        parent.push(j);
        j += 1;
    }
    proof {
        assert forall|x: int| 0 <= x < n implies connected(deps, x, #[trigger] root(parent@, x)) by {
            assert(parent@[x] == x);
            connected_to_itself(deps, x);
        }
    }
    let mut i: usize = 0;
    while i < n
        invariant
            n == deps_of@.len(),
            deps == deps_view(deps_of@),
            deps_wf(deps),
            i <= n,
            parent@.len() == n,
            forest(parent@),
            roots_connected(deps, parent@),
            forall|m: int|
                0 <= m < i ==> #[trigger] merged(deps, parent@, m, deps_of@[m]@.len() as int),
        decreases n - i,
    {
        let mut k: usize = 0;
        proof {
            assert(deps[i as int] == deps_of@[i as int]@);
        }
        while k < deps_of[i].len()
            invariant
                n == deps_of@.len(),
                deps == deps_view(deps_of@),
                deps_wf(deps),
                i < n,
                deps[i as int] == deps_of@[i as int]@,
                k <= deps[i as int].len(),
                parent@.len() == n,
                forest(parent@),
                roots_connected(deps, parent@),
                merged(deps, parent@, i as int, k as int),
                forall|m: int|
                    0 <= m < i ==> #[trigger] merged(deps, parent@, m, deps_of@[m]@.len() as int),
            decreases deps[i as int].len() - k,
        {
            let d = deps_of[i][k];
            let ghost p = parent@;
            proof {
                assert(deps[i as int][k as int] == d);
                connected_to_dependency(deps, i as int, k as int);
            }
            union(&mut parent, i, d);
            proof {
                lemma_union_keeps(deps, p, parent@, i as int, d as int);
                assert(merged(deps, parent@, i as int, k + 1)) by {
                    assert forall|l: int| 0 <= l < k + 1 implies root(
                        parent@,
                        #[trigger] deps[i as int][l] as int,
                    ) == root(parent@, i as int) by {
                        assert(deps[i as int][l] < deps.len());
                        if l < k {
                            assert(root(p, deps[i as int][l] as int) == root(p, i as int));
                        }
                    }
                }
                assert forall|m: int| 0 <= m < i implies #[trigger] merged(
                    deps,
                    parent@,
                    m,
                    deps_of@[m]@.len() as int,
                ) by {
                    assert(merged(deps, p, m, deps_of@[m]@.len() as int));
                    assert(deps[m] == deps_of@[m]@);
                    assert forall|l: int| 0 <= l < deps_of@[m]@.len() implies root(
                        parent@,
                        #[trigger] deps[m][l] as int,
                    ) == root(parent@, m) by {
                        assert(deps[m][l] < deps.len());
                        assert(root(p, deps[m][l] as int) == root(p, m));
                    }
                }
            }
            k += 1;
        }
        i += 1;
    }
    parent
}

/// Numbers the connected parts of the graph in the order of their first
/// nodes.
pub(crate) fn component_ids(deps_of: &[Vec<usize>]) -> (label: Vec<usize>)
    requires
        deps_wf(deps_view(deps_of@)),
    ensures
        labels_components(deps_view(deps_of@), label@),
{
    let n = deps_of.len();
    let ghost deps = deps_view(deps_of@);
    let mut parent = component_parents(deps_of);
    let ghost p0 = parent@;
    let mut seen: Vec<Option<usize>> = Vec::new();
    let mut j: usize = 0;
    while j < n
        invariant
            j <= n,
            seen@.len() == j,
            forall|x: int| 0 <= x < j ==> #[trigger] seen@[x] is None,
        decreases n - j,
    {
        seen.push(None);
        j += 1;
    }
    let mut label: Vec<usize> = Vec::new();
    let mut next_label: usize = 0;
    let mut i: usize = 0;
    while i < n
        invariant
            i <= n,
            n == p0.len(),
            label@.len() == i,
            seen@.len() == n,
            next_label <= i,
            forest(p0),
            forest(parent@),
            same_roots(p0, parent@),
            next_label == fresh_label(label@),
            forall|a: int|
                #![trigger label@[a]]
                0 <= a < i ==> label@[a] < next_label && label@[a] <= fresh_label(label@.take(a))
                    && seen@[root(p0, a)] == Some(label@[a]),
            forall|r: int, s: int|
                #![trigger seen@[r], seen@[s]]
                0 <= r < n && 0 <= s < n && seen@[r] is Some && seen@[r] == seen@[s] ==> r == s,
            forall|r: int| 0 <= r < n ==> (#[trigger] seen@[r] matches Some(l) ==> l < next_label),
        decreases n - i,
    {
        let ghost before = label@;
        let top = find(&mut parent, i);
        proof {
            assert(root(p0, i as int) == top);
            lemma_root(p0, i as int);
            assert forall|a: int| 0 <= a < i implies 0 <= #[trigger] root(p0, a) < n by {
                lemma_root(p0, a);
            }
        }
        let known = seen[top];
        let id: usize = match known {
            Some(id) => id,
            None => {
                let id: usize = next_label;
                next_label += 1;
                seen[top] = Some(id);
                id
            },
        };
        label.push(id);
        proof {
            assert(label@.drop_last() =~= before);
            assert forall|a: int| 0 <= a < i + 1 implies #[trigger] label@[a] < next_label
                && label@[a] <= fresh_label(label@.take(a)) && seen@[root(p0, a)] == Some(
                label@[a],
            ) by {
                if a < i {
                    assert(label@[a] == before[a]);
                    assert(label@.take(a) =~= before.take(a));
                } else {
                    assert(label@.take(a) =~= before);
                }
            }
        }
        i += 1;
    }
    proof {
        assert forall|a: int, b: int|
            #![trigger label@[a], label@[b]]
            0 <= a < deps.len() && 0 <= b < deps.len() implies (label@[a] == label@[b]
            <==> connected(deps, a, b)) by {
            assert forall|m: int| 0 <= m < deps.len() implies #[trigger] merged(
                deps,
                p0,
                m,
                deps[m].len() as int,
            ) by {
                assert(merged(deps, p0, m, deps_of@[m]@.len() as int));
            }
            lemma_roots_are_components(deps, p0, a, b);
            lemma_root(p0, a);
            lemma_root(p0, b);
            assert(seen@[root(p0, a)] == Some(label@[a]));
            assert(seen@[root(p0, b)] == Some(label@[b]));
        }
    }
    label
}

} // verus!
