//! The order in which the nodes of a graph are listed.

use crate::graph::{deps_view, deps_wf, lemma_pigeonhole};
use vstd::prelude::*;

verus! {

/// The (dependency, dependent) pairs of the first `i` nodes and of the first
/// `k` dependencies of node `i`.
pub open spec fn pairs_upto(deps: Seq<Seq<usize>>, i: int, k: int) -> Seq<(usize, usize)>
    decreases i, k,
{
    if k > 0 {
        pairs_upto(deps, i, k - 1).push((deps[i][k - 1], i as usize))
    } else if i > 0 {
        pairs_upto(deps, i - 1, deps[i - 1].len() as int)
    } else {
        Seq::empty()
    }
}

/// All (dependency, dependent) pairs, by dependent.
pub open spec fn pairs(deps: Seq<Seq<usize>>) -> Seq<(usize, usize)> {
    pairs_upto(deps, deps.len() as int, 0)
}

/// The second components of the pairs that start with `d`.
pub open spec fn targets(ps: Seq<(usize, usize)>, d: usize) -> Seq<usize>
    decreases ps.len(),
{
    if ps.len() == 0 {
        Seq::empty()
    } else if ps.last().0 == d {
        targets(ps.drop_last(), d).push(ps.last().1)
    } else {
        targets(ps.drop_last(), d)
    }
}

/// For each node the nodes that depend on it.
pub open spec fn dependents(deps: Seq<Seq<usize>>) -> Seq<Seq<usize>> {
    Seq::new(deps.len(), |d: int| targets(pairs(deps), d as usize))
}

/// `x` placed in a descending sequence, after what is not smaller.
pub open spec fn insert_desc(s: Seq<usize>, x: usize) -> Seq<usize>
    decreases s.len(),
{
    if s.len() == 0 || s.last() >= x {
        s.push(x)
    } else {
        insert_desc(s.drop_last(), x).push(s.last())
    }
}

/// The elements of `s` in descending order.
pub open spec fn sorted_desc(s: Seq<usize>) -> Seq<usize>
    decreases s.len(),
{
    if s.len() == 0 {
        Seq::empty()
    } else {
        insert_desc(sorted_desc(s.drop_last()), s.last())
    }
}

/// The elements of `s` that are not in `seen`.
pub open spec fn unseen(s: Seq<usize>, seen: Seq<usize>) -> Seq<usize>
    decreases s.len(),
{
    if s.len() == 0 {
        Seq::empty()
    } else if seen.contains(s.last()) {
        unseen(s.drop_last(), seen)
    } else {
        unseen(s.drop_last(), seen).push(s.last())
    }
}

/// Continues `order` depth first from the nodes of `stack`, the last one
/// first; of the dependents of a node the lowest number comes first.
pub open spec fn walk(out: Seq<Seq<usize>>, order: Seq<usize>, stack: Seq<usize>) -> Seq<usize>
    decreases out.len() - order.len(), stack.len(),
{
    if stack.len() == 0 || order.len() > out.len() {
        order
    } else {
        let node = stack.last();
        let rest = stack.drop_last();
        if order.contains(node) {
            walk(out, order, rest)
        } else if order.len() == out.len() {
            order
        } else {
            let order2 = order.push(node);
            walk(out, order2, rest + sorted_desc(unseen(out[node as int], order2)))
        }
    }
}

/// The order after the nodes below `n` that depend on nothing were walked
/// from.
pub open spec fn walked_from_roots(deps: Seq<Seq<usize>>, n: int) -> Seq<usize>
    decreases n,
{
    if n <= 0 {
        Seq::empty()
    } else {
        let before = walked_from_roots(deps, n - 1);
        if deps[n - 1].len() == 0 && !before.contains((n - 1) as usize) {
            walk(dependents(deps), before, seq![(n - 1) as usize])
        } else {
            before
        }
    }
}

/// `order` followed by the nodes below `n` that it lacks.
pub open spec fn with_missing(order: Seq<usize>, n: int) -> Seq<usize>
    decreases n,
{
    if n <= 0 {
        order
    } else {
        let before = with_missing(order, n - 1);
        if before.contains((n - 1) as usize) {
            before
        } else {
            before.push((n - 1) as usize)
        }
    }
}

/// The nodes in the order in which they are listed: depth first from those
/// that depend on nothing, then those that were not reached.
pub open spec fn listing(deps: Seq<Seq<usize>>) -> Seq<usize> {
    with_missing(walked_from_roots(deps, deps.len() as int), deps.len() as int)
}

/// Distinct nodes of a graph of `n` nodes.
pub open spec fn is_listing(order: Seq<usize>, n: nat) -> bool {
    &&& order.no_duplicates()
    &&& forall|k: int| 0 <= k < order.len() ==> #[trigger] order[k] < n
}

pub open spec fn all_below(s: Seq<usize>, n: nat) -> bool {
    forall|k: int| 0 <= k < s.len() ==> #[trigger] s[k] < n
}

proof fn lemma_pairs_below(deps: Seq<Seq<usize>>, i: int, k: int)
    requires
        deps_wf(deps),
        deps.len() <= usize::MAX,
        0 <= i <= deps.len(),
        0 <= k,
        i < deps.len() ==> k <= deps[i].len(),
        i == deps.len() ==> k == 0,
    ensures
        forall|m: int|
            0 <= m < pairs_upto(deps, i, k).len() ==> (#[trigger] pairs_upto(deps, i, k)[m]).0
                < deps.len() && pairs_upto(deps, i, k)[m].1 < deps.len(),
    decreases i, k,
{
    if k > 0 {
        lemma_pairs_below(deps, i, k - 1);
        let before = pairs_upto(deps, i, k - 1);
        let all = pairs_upto(deps, i, k);
        assert(all == before.push((deps[i][k - 1], i as usize)));
        assert forall|m: int| 0 <= m < all.len() implies (#[trigger] all[m]).0 < deps.len()
            && all[m].1 < deps.len() by {
            if m < before.len() {
                assert(all[m] == before[m]);
            } else {
                assert(deps[i][k - 1] < deps.len());
            }
        }
    } else if i > 0 {
        lemma_pairs_below(deps, i - 1, deps[i - 1].len() as int);
        assert(pairs_upto(deps, i, k) == pairs_upto(deps, i - 1, deps[i - 1].len() as int));
    } else {
        assert(pairs_upto(deps, i, k) == Seq::<(usize, usize)>::empty());
    }
}

proof fn lemma_targets_below(ps: Seq<(usize, usize)>, d: usize, n: nat)
    requires
        forall|m: int| 0 <= m < ps.len() ==> (#[trigger] ps[m]).1 < n,
    ensures
        all_below(targets(ps, d), n),
    decreases ps.len(),
{
    if ps.len() > 0 {
        assert(ps.last().1 < n);
        lemma_targets_below(ps.drop_last(), d, n);
    }
}

pub proof fn lemma_dependents_below(deps: Seq<Seq<usize>>)
    requires
        deps_wf(deps),
        deps.len() <= usize::MAX,
    ensures
        forall|d: int| 0 <= d < deps.len() ==> all_below(#[trigger] dependents(deps)[d], deps.len()),
{
    lemma_pairs_below(deps, deps.len() as int, 0);
    assert forall|d: int| 0 <= d < deps.len() implies all_below(
        #[trigger] dependents(deps)[d],
        deps.len(),
    ) by {
        lemma_targets_below(pairs(deps), d as usize, deps.len());
    }
}

proof fn lemma_unseen_below(s: Seq<usize>, seen: Seq<usize>, n: nat)
    requires
        all_below(s, n),
    ensures
        all_below(unseen(s, seen), n),
    decreases s.len(),
{
    if s.len() > 0 {
        assert(s.last() < n);
        lemma_unseen_below(s.drop_last(), seen, n);
    }
}

proof fn lemma_insert_desc_below(s: Seq<usize>, x: usize, n: nat)
    requires
        all_below(s, n),
        x < n,
    ensures
        all_below(insert_desc(s, x), n),
    decreases s.len(),
{
    if s.len() > 0 && s.last() < x {
        lemma_insert_desc_below(s.drop_last(), x, n);
    }
}

proof fn lemma_sorted_desc_below(s: Seq<usize>, n: nat)
    requires
        all_below(s, n),
    ensures
        all_below(sorted_desc(s), n),
    decreases s.len(),
{
    if s.len() > 0 {
        lemma_sorted_desc_below(s.drop_last(), n);
        assert(s.last() < n);
        lemma_insert_desc_below(sorted_desc(s.drop_last()), s.last(), n);
    }
}

proof fn lemma_insert_desc_sorted(s: Seq<usize>, x: usize)
    requires
        forall|i: int, j: int| 0 <= i <= j < s.len() ==> s[i] >= s[j],
    ensures
        forall|i: int, j: int|
            0 <= i <= j < insert_desc(s, x).len() ==> insert_desc(s, x)[i] >= insert_desc(s, x)[j],
        insert_desc(s, x).to_multiset() == s.to_multiset().insert(x),
        insert_desc(s, x).len() == s.len() + 1,
        forall|i: int| 0 <= i < insert_desc(s, x).len() ==> #[trigger] insert_desc(s, x)[i] == x
            || s.contains(insert_desc(s, x)[i]),
    decreases s.len(),
{
    broadcast use vstd::seq_lib::group_to_multiset_ensures;

    if s.len() > 0 && s.last() < x {
        let t = s.drop_last();
        lemma_insert_desc_sorted(t, x);
        let r = insert_desc(t, x);
        assert(s =~= t.push(s.last()));
        assert(insert_desc(s, x).to_multiset() =~= s.to_multiset().insert(x));
        assert forall|i: int| 0 <= i < r.len() implies #[trigger] r[i] >= s.last() by {
            if r[i] != x {
                let k = choose|k: int| 0 <= k < t.len() && t[k] == r[i];
                assert(s[k] >= s[s.len() - 1]);
            }
        }
        assert forall|i: int| 0 <= i < insert_desc(s, x).len() implies #[trigger] insert_desc(
            s,
            x,
        )[i] == x || s.contains(insert_desc(s, x)[i]) by {
            if i < r.len() {
                if r[i] != x {
                    let k = choose|k: int| 0 <= k < t.len() && t[k] == r[i];
                    assert(s[k] == r[i]);
                }
            } else {
                assert(s[s.len() - 1] == insert_desc(s, x)[i]);
            }
        }
    } else {
        assert(s.push(x).to_multiset() =~= s.to_multiset().insert(x));
        assert forall|i: int| 0 <= i < s.push(x).len() implies #[trigger] s.push(x)[i] == x
            || s.contains(s.push(x)[i]) by {
            if i < s.len() {
                assert(s[i] == s.push(x)[i]);
            }
        }
    }
}

/// Sorting gives the same elements, none smaller before a larger one.
pub proof fn sorted_desc_is_sorted(s: Seq<usize>)
    ensures
        forall|i: int, j: int|
            0 <= i <= j < sorted_desc(s).len() ==> sorted_desc(s)[i] >= sorted_desc(s)[j],
        sorted_desc(s).to_multiset() == s.to_multiset(),
    decreases s.len(),
{
    broadcast use vstd::seq_lib::group_to_multiset_ensures;

    if s.len() > 0 {
        let t = s.drop_last();
        sorted_desc_is_sorted(t);
        lemma_insert_desc_sorted(sorted_desc(t), s.last());
        assert(s =~= t.push(s.last()));
    } else {
        assert(s =~= Seq::empty());
    }
}

proof fn lemma_insert_desc_at(s: Seq<usize>, x: usize, j: int)
    requires
        0 <= j <= s.len(),
        forall|k: int| j <= k < s.len() ==> s[k] < x,
        j > 0 ==> s[j - 1] >= x,
    ensures
        insert_desc(s, x) == s.insert(j, x),
    decreases s.len(),
{
    if s.len() == 0 || j == s.len() {
        assert(s.insert(j, x) =~= s.push(x));
    } else {
        assert(s.last() < x);
        lemma_insert_desc_at(s.drop_last(), x, j);
        assert(s.insert(j, x) =~= s.drop_last().insert(j, x).push(s.last()));
    }
}

fn sort_desc(v: &Vec<usize>) -> (r: Vec<usize>)
    ensures
        r@ == sorted_desc(v@),
{
    let mut out: Vec<usize> = Vec::new();
    let mut i: usize = 0;
    proof {
        assert(v@.take(0) =~= Seq::empty());
    }
    while i < v.len()
        invariant
            i <= v@.len(),
            out@ == sorted_desc(v@.take(i as int)),
        decreases v@.len() - i,
    {
        let x = v[i];
        let mut j: usize = out.len();
        while j > 0 && out[j - 1] < x
            invariant
                j <= out@.len(),
                forall|k: int| j <= k < out@.len() ==> out@[k] < x,
            decreases j,
        {
            j -= 1;
        }
        proof {
            lemma_insert_desc_at(out@, x, j as int);
            assert(v@.take(i + 1).drop_last() =~= v@.take(i as int));
        }
        out.insert(j, x);
        i += 1;
    }
    proof {
        assert(v@.take(i as int) =~= v@);
    }
    out
}

proof fn lemma_walk(out: Seq<Seq<usize>>, order: Seq<usize>, stack: Seq<usize>)
    requires
        is_listing(order, out.len()),
        all_below(stack, out.len()),
        forall|d: int| 0 <= d < out.len() ==> all_below(#[trigger] out[d], out.len()),
    ensures
        is_listing(walk(out, order, stack), out.len()),
        order.is_prefix_of(walk(out, order, stack)),
    decreases out.len() - order.len(), stack.len(),
{
    lemma_pigeonhole(order, out.len() as int);
    if stack.len() > 0 {
        let node = stack.last();
        let rest = stack.drop_last();
        assert(node < out.len());
        if order.contains(node) {
            lemma_walk(out, order, rest);
        } else {
            let order2 = order.push(node);
            let next = unseen(out[node as int], order2);
            assert(all_below(out[node as int], out.len()));
            lemma_unseen_below(out[node as int], order2, out.len());
            lemma_sorted_desc_below(next, out.len());
            lemma_walk(out, order2, rest + sorted_desc(next));
            let r = walk(out, order2, rest + sorted_desc(next));
            assert(order.is_prefix_of(r)) by {
                assert(order2 =~= r.subrange(0, order2.len() as int));
                assert forall|k: int| 0 <= k < order.len() implies order[k] == r[k] by {
                    assert(order2[k] == r.subrange(0, order2.len() as int)[k]);
                }
                assert(order =~= r.subrange(0, order.len() as int));
            }
        }
    } else {
        assert(order =~= order.subrange(0, order.len() as int));
    }
}

proof fn lemma_walked_from_roots(deps: Seq<Seq<usize>>, n: int)
    requires
        deps_wf(deps),
        deps.len() <= usize::MAX,
        0 <= n <= deps.len(),
    ensures
        is_listing(walked_from_roots(deps, n), deps.len()),
    decreases n,
{
    if n > 0 {
        lemma_walked_from_roots(deps, n - 1);
        lemma_dependents_below(deps);
        lemma_walk(dependents(deps), walked_from_roots(deps, n - 1), seq![(n - 1) as usize]);
    }
}

proof fn lemma_with_missing(order: Seq<usize>, total: nat, n: int)
    requires
        is_listing(order, total),
        total <= usize::MAX,
        0 <= n <= total,
    ensures
        is_listing(with_missing(order, n), total),
        forall|x: usize| x < n ==> #[trigger] with_missing(order, n).contains(x),
    decreases n,
{
    if n > 0 {
        lemma_with_missing(order, total, n - 1);
        let before = with_missing(order, n - 1);
        let after = with_missing(order, n);
        assert forall|x: usize| x < n implies #[trigger] after.contains(x) by {
            if x < n - 1 {
                assert(before.contains(x));
                let k = choose|k: int| 0 <= k < before.len() && before[k] == x;
                assert(after[k] == x);
            } else if !before.contains(x) {
                assert(after[before.len() as int] == x);
            }
        }
    }
}

/// Every node is listed, and only once.
pub proof fn listing_is_complete(deps: Seq<Seq<usize>>)
    requires
        deps_wf(deps),
        deps.len() <= usize::MAX,
    ensures
        is_listing(listing(deps), deps.len()),
        listing(deps).len() == deps.len(),
        forall|x: usize| x < deps.len() ==> #[trigger] listing(deps).contains(x),
{
    let n = deps.len();
    lemma_walked_from_roots(deps, n as int);
    lemma_with_missing(walked_from_roots(deps, n as int), n, n as int);
    let l = listing(deps);
    lemma_pigeonhole(l, n as int);
    if l.len() < n {
        lemma_all_contained(l, n);
    }
}

proof fn lemma_all_contained(l: Seq<usize>, n: nat)
    requires
        n <= usize::MAX,
        is_listing(l, n),
        forall|x: usize| x < n ==> #[trigger] l.contains(x),
    ensures
        l.len() == n,
{
    let ints = l.map_values(|x: usize| x as int);
    assert(ints.no_duplicates());
    ints.unique_seq_to_set();
    vstd::set_lib::lemma_int_range(0, n as int);
    let all = vstd::set_lib::set_int_range(0, n as int);
    assert(ints.to_set() =~= all) by {
        assert forall|x: int| all.contains(x) implies ints.to_set().contains(x) by {
            assert(l.contains(x as usize));
            let k = choose|k: int| 0 <= k < l.len() && l[k] == x as usize;
            assert(ints[k] == x);
        }
        assert forall|x: int| ints.to_set().contains(x) implies all.contains(x) by {
            let k = choose|k: int| 0 <= k < ints.len() && ints[k] == x;
            assert(l[k] < n);
        }
    }
}

pub open spec fn marks(visited: Seq<bool>, order: Seq<usize>) -> bool {
    forall|j: usize| j < visited.len() ==> (#[trigger] visited[j as int] <==> order.contains(j))
}

proof fn lemma_marks_push(visited: Seq<bool>, order: Seq<usize>, node: usize)
    requires
        marks(visited, order),
        node < visited.len(),
    ensures
        marks(visited.update(node as int, true), order.push(node)),
{
    let v2 = visited.update(node as int, true);
    let o2 = order.push(node);
    assert forall|j: usize| j < v2.len() implies (#[trigger] v2[j as int] <==> o2.contains(j)) by {
        assert(visited[j as int] <==> order.contains(j));
        assert(o2[order.len() as int] == node);
        if order.contains(j) {
            let k = choose|k: int| 0 <= k < order.len() && order[k] == j;
            assert(o2[k] == j);
        }
        if o2.contains(j) && j != node {
            let k = choose|k: int| 0 <= k < o2.len() && o2[k] == j;
            assert(order[k] == j);
        }
    }
}

fn unvisited(list: &Vec<usize>, visited: &Vec<bool>, Ghost(order): Ghost<Seq<usize>>) -> (r: Vec<
    usize,
>)
    requires
        marks(visited@, order),
        all_below(list@, visited@.len()),
    ensures
        r@ == unseen(list@, order),
{
    let mut out: Vec<usize> = Vec::new();
    let mut i: usize = 0;
    while i < list.len()
        invariant
            marks(visited@, order),
            all_below(list@, visited@.len()),
            i <= list@.len(),
            out@ == unseen(list@.take(i as int), order),
        decreases list@.len() - i,
    {
        let d = list[i];
        proof {
            assert(list@.take(i + 1).drop_last() =~= list@.take(i as int));
            assert(d < visited@.len());
            assert(visited@[d as int] <==> order.contains(d));
        }
        if !visited[d] {
            out.push(d);
        }
        i += 1;
    }
    proof {
        assert(list@.take(i as int) =~= list@);
    }
    out
}

/// Lists the nodes: depth first from those that depend on nothing, then those
/// that were not reached.
pub(crate) fn visit_order(deps_of: &[Vec<usize>], dependents_of: &Vec<Vec<usize>>) -> (r: Vec<
    usize,
>)
    requires
        deps_wf(deps_view(deps_of@)),
        deps_view(dependents_of@) == dependents(deps_view(deps_of@)),
    ensures
        r@ == listing(deps_view(deps_of@)),
{
    let n = deps_of.len();
    let ghost deps = deps_view(deps_of@);
    let ghost out = dependents(deps);
    let mut visited: Vec<bool> = Vec::new();
    let mut j: usize = 0;
    while j < n
        invariant
            j <= n,
            visited@.len() == j,
            forall|x: int| 0 <= x < j ==> !(#[trigger] visited@[x]),
        decreases n - j,
    {
        visited.push(false);
        j += 1;
    }
    let mut order: Vec<usize> = Vec::new();
    let mut root: usize = 0;
    proof {
        lemma_dependents_below(deps);
        assert(dependents_of@.len() == n) by {
            assert(deps_view(dependents_of@).len() == dependents_of@.len());
        }
    }
    while root < n
        invariant
            n == deps_of@.len(),
            deps == deps_view(deps_of@),
            deps_wf(deps),
            out == dependents(deps),
            deps_view(dependents_of@) == out,
            dependents_of@.len() == n,
            root <= n,
            visited@.len() == n,
            marks(visited@, order@),
            order@ == walked_from_roots(deps, root as int),
            forall|d: int| 0 <= d < n ==> all_below(#[trigger] out[d], n as nat),
        decreases n - root,
    {
        proof {
            assert(deps[root as int] == deps_of@[root as int]@);
            assert(visited@[root as int] <==> order@.contains(root));
        }
        if deps_of[root].len() == 0 && !visited[root] {
            let ghost start = order@;
            let mut stack: Vec<usize> = Vec::new();
            stack.push(root);
            proof {
                lemma_walked_from_roots(deps, root as int);
                assert(stack@ =~= seq![root]);
            }
            while stack.len() > 0
                invariant
                    n == deps_of@.len(),
                    out.len() == n,
                    deps_view(dependents_of@) == out,
                    dependents_of@.len() == n,
                    visited@.len() == n,
                    marks(visited@, order@),
                    is_listing(order@, n as nat),
                    all_below(stack@, n as nat),
                    forall|d: int| 0 <= d < n ==> all_below(#[trigger] out[d], n as nat),
                    walk(out, order@, stack@) == walk(out, start, seq![root]),
                decreases n - order@.len(), stack@.len(),
            {
                let ghost before = stack@;
                let node = stack.pop().unwrap();
                proof {
                    assert(before[before.len() - 1] == node);
                    assert(node < n);
                    assert(stack@ =~= before.drop_last());
                    assert(visited@[node as int] <==> order@.contains(node));
                    lemma_pigeonhole(order@, n as int);
                }
                if !visited[node] {
                    proof {
                        lemma_marks_push(visited@, order@, node);
                    }
                    visited[node] = true;
                    order.push(node);
                    proof {
                        assert(out[node as int] == dependents_of@[node as int]@);
                        assert(all_below(out[node as int], n as nat));
                    }
                    let next = unvisited(&dependents_of[node], &visited, Ghost(order@));
                    proof {
                        lemma_unseen_below(out[node as int], order@, n as nat);
                        lemma_sorted_desc_below(next@, n as nat);
                    }
                    let mut sorted = sort_desc(&next);
                    stack.append(&mut sorted);
                }
            }
        }
        root += 1;
    }
    let ghost walked = order@;
    let mut i: usize = 0;
    while i < n
        invariant
            n == visited@.len(),
            i <= n,
            marks(visited@, order@),
            order@ == with_missing(walked, i as int),
        decreases n - i,
    {
        proof {
            assert(visited@[i as int] <==> order@.contains(i));
        }
        if !visited[i] {
            proof {
                lemma_marks_push(visited@, order@, i);
            }
            visited[i] = true;
            order.push(i);
        }
        i += 1;
    }
    order
}

} // verus!
