//! The search for dependency cycles.

use crate::graph::{acyclic, deps_view, deps_wf, is_rank, lemma_pigeonhole};
use vstd::prelude::*;

verus! {

/// What a depth-first search finds: the nodes that it has finished with, or a
/// cycle.
pub enum Search {
    Done(Set<usize>),
    Cycle(Seq<usize>),
}

/// The position of the first `x`.
pub open spec fn first_index(s: Seq<usize>, x: usize) -> int
    decreases s.len(),
{
    if s.len() == 0 || s[0] == x {
        0
    } else {
        1 + first_index(s.skip(1), x)
    }
}

/// Searches from `i`; `stack` is the way to it from where the search began.
pub open spec fn search(
    deps: Seq<Seq<usize>>,
    i: usize,
    done: Set<usize>,
    stack: Seq<usize>,
) -> Search
    decreases deps.len() - stack.len(), 0nat,
{
    if done.contains(i) {
        Search::Done(done)
    } else if stack.contains(i) {
        Search::Cycle(stack.skip(first_index(stack, i)).push(i))
    } else if stack.len() >= deps.len() {
        Search::Done(done)
    } else {
        match search_all(deps, deps[i as int], deps[i as int].len(), done, stack.push(i)) {
            Search::Done(d) => Search::Done(d.insert(i)),
            Search::Cycle(c) => Search::Cycle(c),
        }
    }
}

/// Searches from the first `k` nodes of `list` in turn.
pub open spec fn search_all(
    deps: Seq<Seq<usize>>,
    list: Seq<usize>,
    k: nat,
    done: Set<usize>,
    stack: Seq<usize>,
) -> Search
    decreases deps.len() - stack.len(), k,
{
    if k == 0 {
        Search::Done(done)
    } else {
        match search_all(deps, list, (k - 1) as nat, done, stack) {
            Search::Cycle(c) => Search::Cycle(c),
            Search::Done(d) => search(deps, list[k - 1], d, stack),
        }
    }
}

/// Searches from the nodes below `n` in turn.
pub open spec fn search_upto(deps: Seq<Seq<usize>>, n: nat) -> Search
    decreases n,
{
    if n == 0 {
        Search::Done(Set::empty())
    } else {
        match search_upto(deps, (n - 1) as nat) {
            Search::Cycle(c) => Search::Cycle(c),
            Search::Done(d) => search(deps, (n - 1) as usize, d, Seq::empty()),
        }
    }
}

/// The cycle that the search comes upon first.
pub open spec fn first_cycle(deps: Seq<Seq<usize>>) -> Option<Seq<usize>> {
    match search_upto(deps, deps.len()) {
        Search::Cycle(c) => Some(c),
        Search::Done(_) => None,
    }
}

/// Each node depends on the next.
pub open spec fn is_chain(deps: Seq<Seq<usize>>, path: Seq<usize>) -> bool {
    &&& forall|k: int| 0 <= k < path.len() ==> #[trigger] path[k] < deps.len()
    &&& forall|k: int, l: int|
        #![trigger path[k], path[l]]
        0 <= k && l == k + 1 && l < path.len() ==> deps[path[k] as int].contains(path[l])
}

/// A chain that ends where it began.
pub open spec fn is_cycle(deps: Seq<Seq<usize>>, path: Seq<usize>) -> bool {
    path.len() >= 2 && is_chain(deps, path) && path.first() == path.last()
}

proof fn lemma_first_index(s: Seq<usize>, x: usize)
    requires
        s.contains(x),
    ensures
        0 <= first_index(s, x) < s.len(),
        s[first_index(s, x)] == x,
    decreases s.len(),
{
    if s[0] != x {
        let k = choose|k: int| 0 <= k < s.len() && s[k] == x;
        assert(s.skip(1)[k - 1] == x);
        lemma_first_index(s.skip(1), x);
    }
}

proof fn lemma_first_index_range(s: Seq<usize>, x: usize)
    ensures
        0 <= first_index(s, x) <= s.len(),
    decreases s.len(),
{
    if s.len() > 0 && s[0] != x {
        lemma_first_index_range(s.skip(1), x);
    }
}

pub open spec fn leads_to(deps: Seq<Seq<usize>>, stack: Seq<usize>, i: usize) -> bool {
    stack.len() > 0 ==> deps[stack.last() as int].contains(i)
}

proof fn lemma_search_cycle(deps: Seq<Seq<usize>>, i: usize, done: Set<usize>, stack: Seq<usize>)
    requires
        deps_wf(deps),
        i < deps.len(),
        is_chain(deps, stack),
        leads_to(deps, stack, i),
    ensures
        search(deps, i, done, stack) matches Search::Cycle(c) ==> is_cycle(deps, c),
    decreases deps.len() - stack.len(), 0nat,
{
    if done.contains(i) {
    } else if stack.contains(i) {
        lemma_first_index(stack, i);
        let f = first_index(stack, i);
        let c = stack.skip(f).push(i);
        assert forall|k: int| 0 <= k < c.len() implies #[trigger] c[k] < deps.len() by {
            if k < c.len() - 1 {
                assert(c[k] == stack[k + f]);
            }
        }
        assert forall|k: int, l: int|
            #![trigger c[k], c[l]]
            0 <= k && l == k + 1 && l < c.len() implies deps[c[k] as int].contains(c[l]) by {
            assert(c[k] == stack[k + f]);
            if l < c.len() - 1 {
                assert(c[l] == stack[l + f]);
            }
        }
    } else if stack.len() < deps.len() {
        let s2 = stack.push(i);
        assert forall|k: int| 0 <= k < s2.len() implies #[trigger] s2[k] < deps.len() by {
            if k < stack.len() {
                assert(s2[k] == stack[k]);
            }
        }
        assert forall|k: int, l: int|
            #![trigger s2[k], s2[l]]
            0 <= k && l == k + 1 && l < s2.len() implies deps[s2[k] as int].contains(s2[l]) by {
            assert(s2[k] == stack[k]);
            if l < stack.len() {
                assert(s2[l] == stack[l]);
            }
        }
        lemma_search_all_cycle(deps, deps[i as int].len(), done, s2);
    }
}

proof fn lemma_search_all_cycle(
    deps: Seq<Seq<usize>>,
    k: nat,
    done: Set<usize>,
    stack: Seq<usize>,
)
    requires
        deps_wf(deps),
        is_chain(deps, stack),
        stack.len() > 0,
        k <= deps[stack.last() as int].len(),
    ensures
        search_all(deps, deps[stack.last() as int], k, done, stack) matches Search::Cycle(c)
            ==> is_cycle(deps, c),
    decreases deps.len() - stack.len(), k,
{
    if k > 0 {
        let list = deps[stack.last() as int];
        lemma_search_all_cycle(deps, (k - 1) as nat, done, stack);
        assert(stack[stack.len() - 1] < deps.len());
        assert(deps[stack.last() as int][k - 1] < deps.len());
        assert(list.contains(list[k - 1]));
        match search_all(deps, list, (k - 1) as nat, done, stack) {
            Search::Done(d) => {
                lemma_search_cycle(deps, list[k - 1], d, stack);
            },
            Search::Cycle(_) => {},
        }
    }
}

/// Ranks in which what `done` depends on comes before it, and is done too.
pub open spec fn ranked(
    deps: Seq<Seq<usize>>,
    done: Set<usize>,
    rank: spec_fn(int) -> nat,
) -> bool {
    forall|i: usize, k: int|
        #![trigger done.contains(i), deps[i as int][k]]
        done.contains(i) && 0 <= k < deps[i as int].len() ==> done.contains(deps[i as int][k])
            && rank(deps[i as int][k] as int) < rank(i as int)
}

pub open spec fn settled(deps: Seq<Seq<usize>>, done: Set<usize>) -> bool {
    &&& forall|i: usize| #[trigger] done.contains(i) ==> i < deps.len()
    &&& exists|rank: spec_fn(int) -> nat| ranked(deps, done, rank)
}

/// A rank above those of the first `k` nodes of `list`.
spec fn above(list: Seq<usize>, rank: spec_fn(int) -> nat, k: nat) -> nat
    decreases k,
{
    if k == 0 {
        0
    } else {
        let before = above(list, rank, (k - 1) as nat);
        let last = rank(list[k - 1] as int) + 1;
        if last > before {
            last
        } else {
            before
        }
    }
}

proof fn lemma_above(list: Seq<usize>, rank: spec_fn(int) -> nat, k: nat, j: int)
    requires
        0 <= j < k <= list.len(),
    ensures
        rank(list[j] as int) < above(list, rank, k),
    decreases k,
{
    if j < k - 1 {
        lemma_above(list, rank, (k - 1) as nat, j);
    }
}

proof fn lemma_settle(deps: Seq<Seq<usize>>, done: Set<usize>, i: usize)
    requires
        settled(deps, done),
        i < deps.len(),
        !done.contains(i),
        forall|k: int|
            0 <= k < deps[i as int].len() ==> done.contains(#[trigger] deps[i as int][k]),
    ensures
        settled(deps, done.insert(i)),
{
    let rank = choose|rank: spec_fn(int) -> nat| ranked(deps, done, rank);
    let list = deps[i as int];
    let top = above(list, rank, list.len());
    let rank2 = |x: int|
        if x == i {
            top
        } else {
            rank(x)
        };
    let done2 = done.insert(i);
    assert forall|j: usize, k: int|
        #![trigger done2.contains(j), deps[j as int][k]]
        done2.contains(j) && 0 <= k < deps[j as int].len() implies done2.contains(
        deps[j as int][k],
    ) && rank2(deps[j as int][k] as int) < rank2(j as int) by {
        if j == i {
            assert(done.contains(deps[i as int][k]));
            lemma_above(list, rank, list.len(), k);
        } else {
            assert(done.contains(j));
            assert(done.contains(deps[j as int][k]));
        }
    }
    assert(ranked(deps, done2, rank2));
}

/// Distinct nodes, none of which is done.
pub open spec fn search_wf(deps: Seq<Seq<usize>>, done: Set<usize>, stack: Seq<usize>) -> bool {
    &&& deps_wf(deps)
    &&& stack.no_duplicates()
    &&& forall|k: int| 0 <= k < stack.len() ==> #[trigger] stack[k] < deps.len()
    &&& forall|k: int| 0 <= k < stack.len() ==> !done.contains(#[trigger] stack[k])
}

proof fn lemma_search_done(deps: Seq<Seq<usize>>, i: usize, done: Set<usize>, stack: Seq<usize>)
    requires
        i < deps.len(),
        search_wf(deps, done, stack),
        settled(deps, done),
    ensures
        search(deps, i, done, stack) matches Search::Done(d) ==> settled(deps, d) && search_wf(
            deps,
            d,
            stack,
        ) && d.contains(i) && done.subset_of(d),
    decreases deps.len() - stack.len(), 0nat,
{
    if !done.contains(i) && !stack.contains(i) {
        lemma_pigeonhole(stack, deps.len() as int);
        let s2 = stack.push(i);
        let list = deps[i as int];
        assert forall|k: int| 0 <= k < s2.len() implies !done.contains(#[trigger] s2[k]) by {
            if k < stack.len() {
                assert(s2[k] == stack[k]);
            }
        }
        assert forall|k: int| 0 <= k < s2.len() implies #[trigger] s2[k] < deps.len() by {
            if k < stack.len() {
                assert(s2[k] == stack[k]);
            }
        }
        lemma_search_all_done(deps, i, list.len(), done, s2);
        match search_all(deps, list, list.len(), done, s2) {
            Search::Done(d) => {
                assert(s2[stack.len() as int] == i);
                assert(!d.contains(i));
                lemma_settle(deps, d, i);
                let d2 = d.insert(i);
                assert forall|k: int| 0 <= k < stack.len() implies !d2.contains(
                    #[trigger] stack[k],
                ) by {
                    assert(s2[k] == stack[k]);
                    assert(!d.contains(s2[k]));
                    assert(stack.contains(stack[k]));
                }
            },
            Search::Cycle(_) => {},
        }
    }
}

proof fn lemma_search_all_done(
    deps: Seq<Seq<usize>>,
    i: usize,
    k: nat,
    done: Set<usize>,
    stack: Seq<usize>,
)
    requires
        i < deps.len(),
        k <= deps[i as int].len(),
        search_wf(deps, done, stack),
        settled(deps, done),
    ensures
        search_all(deps, deps[i as int], k, done, stack) matches Search::Done(d) ==> settled(
            deps,
            d,
        ) && search_wf(deps, d, stack) && done.subset_of(d) && forall|j: int|
            0 <= j < k ==> d.contains(#[trigger] deps[i as int][j]),
    decreases deps.len() - stack.len(), k,
{
    if k > 0 {
        let list = deps[i as int];
        lemma_search_all_done(deps, i, (k - 1) as nat, done, stack);
        match search_all(deps, list, (k - 1) as nat, done, stack) {
            Search::Done(d) => {
                assert(deps[i as int][k - 1] < deps.len());
                lemma_search_done(deps, list[k - 1], d, stack);
            },
            Search::Cycle(_) => {},
        }
    }
}

proof fn lemma_search_upto(deps: Seq<Seq<usize>>, n: nat)
    requires
        deps_wf(deps),
        n <= deps.len() <= usize::MAX,
    ensures
        match search_upto(deps, n) {
            Search::Done(d) => settled(deps, d) && forall|x: usize|
                x < n ==> #[trigger] d.contains(x),
            Search::Cycle(c) => is_cycle(deps, c),
        },
    decreases n,
{
    if n == 0 {
        assert(ranked(deps, Set::<usize>::empty(), |x: int| 0nat));
    } else {
        lemma_search_upto(deps, (n - 1) as nat);
        match search_upto(deps, (n - 1) as nat) {
            Search::Done(d) => {
                lemma_search_done(deps, (n - 1) as usize, d, Seq::empty());
                lemma_search_cycle(deps, (n - 1) as usize, d, Seq::empty());
            },
            Search::Cycle(_) => {},
        }
    }
}

proof fn lemma_chain_falls(deps: Seq<Seq<usize>>, rank: spec_fn(int) -> nat, c: Seq<usize>, k: int)
    requires
        is_chain(deps, c),
        is_rank(deps, rank),
        0 <= k < c.len(),
    ensures
        k > 0 ==> rank(c[k] as int) < rank(c[0] as int),
    decreases k,
{
    if k > 0 {
        lemma_chain_falls(deps, rank, c, k - 1);
        assert(deps[c[k - 1] as int].contains(c[k]));
        let list = deps[c[k - 1] as int];
        let j = choose|j: int| 0 <= j < list.len() && list[j] == c[k];
        assert(c[k - 1] < deps.len());
        assert(deps[c[k - 1] as int][j] == c[k]);
    }
}

/// What is reported as a cycle is one.
pub proof fn reported_cycle_is_a_cycle(deps: Seq<Seq<usize>>)
    requires
        deps_wf(deps),
        deps.len() <= usize::MAX,
    ensures
        first_cycle(deps) matches Some(c) ==> is_cycle(deps, c),
{
    lemma_search_upto(deps, deps.len());
}

/// A cycle is reported exactly when there is one.
pub proof fn cycle_is_reported_unless_acyclic(deps: Seq<Seq<usize>>)
    requires
        deps_wf(deps),
        deps.len() <= usize::MAX,
    ensures
        first_cycle(deps) is None <==> acyclic(deps),
{
    lemma_search_upto(deps, deps.len());
    match search_upto(deps, deps.len()) {
        Search::Done(d) => {
            let rank = choose|rank: spec_fn(int) -> nat| ranked(deps, d, rank);
            assert forall|i: int, k: int|
                #![trigger deps[i][k]]
                0 <= i < deps.len() && 0 <= k < deps[i].len() implies rank(deps[i][k] as int)
                < rank(i) by {
                assert(d.contains(i as usize));
                assert(deps[i as usize as int][k] == deps[i][k]);
            }
            assert(is_rank(deps, rank));
        },
        Search::Cycle(c) => {
            if acyclic(deps) {
                let rank = choose|rank: spec_fn(int) -> nat| is_rank(deps, rank);
                lemma_chain_falls(deps, rank, c, c.len() - 1);
            }
        },
    }
}

#[derive(Clone, Copy, Debug, PartialEq, Eq, Structural)]
enum VisitState {
    Unvisited,
    Visiting,
    Visited,
}

spec fn visited(states: Seq<VisitState>) -> Set<usize> {
    Set::new(|j: usize| j < states.len() && states[j as int] is Visited)
}

spec fn states_wf(deps: Seq<Seq<usize>>, states: Seq<VisitState>, stack: Seq<usize>) -> bool {
    &&& states.len() == deps.len()
    &&& search_wf(deps, visited(states), stack)
    &&& forall|j: usize|
        j < states.len() ==> (#[trigger] states[j as int] is Visiting <==> stack.contains(j))
}

fn position(stack: &Vec<usize>, x: usize) -> (r: usize)
    requires
        stack@.contains(x),
    ensures
        r == first_index(stack@, x),
        r < stack@.len(),
{
    proof {
        lemma_first_index(stack@, x);
        assert(stack@.skip(0) =~= stack@);
    }
    let n = stack.len();
    let mut i: usize = 0;
    while stack[i] != x
        invariant
            n == stack@.len(),
            i < n,
            first_index(stack@, x) == i + first_index(stack@.skip(i as int), x),
            first_index(stack@, x) < stack@.len(),
            stack@[first_index(stack@, x)] == x,
        decreases stack@.len() - i,
    {
        proof {
            assert(stack@.skip(i as int).skip(1) =~= stack@.skip(i + 1));
            lemma_first_index_range(stack@.skip(i + 1), x);
        }
        i += 1;
    }
    i
}

/// Visits the dependencies of `index`; a cycle if one is met.
fn visit_proc_deps(
    index: usize,
    deps_by_proc: &Vec<Vec<usize>>,
    states: &mut Vec<VisitState>,
    stack: &mut Vec<usize>,
) -> (r: Result<(), Vec<usize>>)
    requires
        index < deps_by_proc@.len(),
        states_wf(deps_view(deps_by_proc@), old(states)@, old(stack)@),
    ensures
        match search(
            deps_view(deps_by_proc@),
            index,
            visited(old(states)@),
            old(stack)@,
        ) {
            Search::Done(d) => {
                &&& r is Ok
                &&& visited(final(states)@) == d
                &&& final(stack)@ == old(stack)@
                &&& states_wf(deps_view(deps_by_proc@), final(states)@, final(stack)@)
            },
            Search::Cycle(c) => r matches Err(cycle) && cycle@ == c,
        },
    decreases deps_by_proc@.len() - old(stack)@.len(),
{
    let ghost deps = deps_view(deps_by_proc@);
    let ghost states0 = states@;
    let ghost stack0 = stack@;
    let ghost done0 = visited(states@);
    proof {
        assert(states@[index as int] is Visiting <==> stack@.contains(index));
        assert(done0.contains(index) <==> states@[index as int] is Visited);
        lemma_pigeonhole(stack@, deps.len() as int);
    }
    match states[index] {
        VisitState::Visited => {
            return Ok(());
        },
        VisitState::Visiting => {
            let start = position(stack, index);
            let mut cycle: Vec<usize> = Vec::new();
            let mut i: usize = start;
            while i < stack.len()
                invariant
                    start <= i <= stack@.len(),
                    stack@ == stack0,
                    cycle@ == stack0.subrange(start as int, i as int),
                decreases stack@.len() - i,
            {
                cycle.push(stack[i]);
                proof {
                    assert(stack0.subrange(start as int, i + 1) =~= stack0.subrange(
                        start as int,
                        i as int,
                    ).push(stack0[i as int]));
                }
                i += 1;
            }
            cycle.push(index);
            proof {
                assert(stack0.subrange(start as int, i as int) =~= stack0.skip(start as int));
            }
            return Err(cycle);
        },
        VisitState::Unvisited => {},
    }
    states[index] = VisitState::Visiting;
    stack.push(index);
    let ghost stack1 = stack@;
    proof {
        assert(visited(states@) =~= done0);
        assert(deps[index as int] == deps_by_proc@[index as int]@);
        assert forall|k: int| 0 <= k < stack1.len() implies !done0.contains(#[trigger] stack1[k]) by {
            if k < stack0.len() {
                assert(stack1[k] == stack0[k]);
            }
        }
        assert forall|k: int| 0 <= k < stack1.len() implies #[trigger] stack1[k] < deps.len() by {
            if k < stack0.len() {
                assert(stack1[k] == stack0[k]);
            }
        }
        lemma_marks_pushed(states0, stack0, index);
    }
    let mut k: usize = 0;
    while k < deps_by_proc[index].len()
        invariant
            index < deps_by_proc@.len(),
            deps == deps_view(deps_by_proc@),
            deps[index as int] == deps_by_proc@[index as int]@,
            k <= deps[index as int].len(),
            stack@ == stack1,
            stack1 == stack0.push(index),
            stack1.len() <= deps.len(),
            states_wf(deps, states@, stack1),
            deps_by_proc@.len() == deps.len(),
            search_all(deps, deps[index as int], k as nat, done0, stack1) == Search::Done(
                visited(states@),
            ),
            stack0 == old(stack)@,
            done0 == visited(old(states)@),
            !done0.contains(index),
            !stack0.contains(index),
            stack0.len() < deps.len(),
        decreases deps[index as int].len() - k,
    {
        let d = deps_by_proc[index][k];
        proof {
            assert(deps[index as int][k as int] == d);
        }
        let ghost before = visited(states@);
        match visit_proc_deps(d, deps_by_proc, states, stack) {
            Ok(()) => {},
            Err(cycle) => {
                proof {
                    lemma_search_all_stops(
                        deps,
                        deps[index as int],
                        (k + 1) as nat,
                        deps[index as int].len(),
                        done0,
                        stack1,
                    );
                }
                return Err(cycle);
            },
        }
        k += 1;
    }
    let ghost states2 = states@;
    stack.pop();
    states[index] = VisitState::Visited;
    proof {
        let d = visited(states2);
        assert(stack@ =~= stack0);
        assert(visited(states@) =~= d.insert(index));
        assert(stack1[stack0.len() as int] == index);
        assert forall|m: int| 0 <= m < stack0.len() implies !visited(states@).contains(
            #[trigger] stack0[m],
        ) by {
            assert(stack1[m] == stack0[m]);
            assert(!d.contains(stack1[m]));
            assert(stack0.contains(stack0[m]));
        }
        assert forall|m: int| 0 <= m < stack0.len() implies #[trigger] stack0[m] < deps.len() by {
            assert(stack1[m] == stack0[m]);
        }
        assert(stack0.no_duplicates()) by {
            assert forall|a: int, b: int|
                0 <= a < stack0.len() && 0 <= b < stack0.len() && a != b implies stack0[a]
                != stack0[b] by {
                assert(stack1[a] == stack0[a] && stack1[b] == stack0[b]);
            }
        }
        assert forall|j: usize| j < states@.len() implies (#[trigger] states@[j as int] is Visiting
            <==> stack0.contains(j)) by {
            assert(states2[j as int] is Visiting <==> stack1.contains(j));
            if j != index {
                if stack1.contains(j) {
                    let m = choose|m: int| 0 <= m < stack1.len() && stack1[m] == j;
                    assert(stack0[m] == j);
                }
                if stack0.contains(j) {
                    let m = choose|m: int| 0 <= m < stack0.len() && stack0[m] == j;
                    assert(stack1[m] == j);
                }
            }
        }
    }
    Ok(())
}

proof fn lemma_marks_pushed(states: Seq<VisitState>, stack: Seq<usize>, index: usize)
    requires
        index < states.len(),
        forall|j: usize|
            j < states.len() ==> (#[trigger] states[j as int] is Visiting <==> stack.contains(j)),
    ensures
        forall|j: usize|
            j < states.len() ==> (#[trigger] states.update(index as int, VisitState::Visiting)[j as int] is Visiting
                <==> stack.push(index).contains(j)),
{
    let s2 = states.update(index as int, VisitState::Visiting);
    let t2 = stack.push(index);
    assert forall|j: usize| j < s2.len() implies (#[trigger] s2[j as int] is Visiting
        <==> t2.contains(j)) by {
        assert(states[j as int] is Visiting <==> stack.contains(j));
        assert(t2[stack.len() as int] == index);
        if stack.contains(j) {
            let m = choose|m: int| 0 <= m < stack.len() && stack[m] == j;
            assert(t2[m] == j);
        }
        if t2.contains(j) && j != index {
            let m = choose|m: int| 0 <= m < t2.len() && t2[m] == j;
            assert(stack[m] == j);
        }
    }
}

proof fn lemma_search_all_stops(
    deps: Seq<Seq<usize>>,
    list: Seq<usize>,
    i: nat,
    n: nat,
    done: Set<usize>,
    stack: Seq<usize>,
)
    requires
        i <= n,
        search_all(deps, list, i, done, stack) is Cycle,
    ensures
        search_all(deps, list, n, done, stack) == search_all(deps, list, i, done, stack),
    decreases n,
{
    if i < n {
        lemma_search_all_stops(deps, list, i, (n - 1) as nat, done, stack);
    }
}

proof fn lemma_search_upto_stops(deps: Seq<Seq<usize>>, i: nat, n: nat)
    requires
        i <= n,
        search_upto(deps, i) is Cycle,
    ensures
        search_upto(deps, n) == search_upto(deps, i),
    decreases n,
{
    if i < n {
        lemma_search_upto_stops(deps, i, (n - 1) as nat);
    }
}

/// Looks for a dependency cycle.
pub(crate) fn find_cycle(deps_by_proc: &Vec<Vec<usize>>) -> (r: Result<(), Vec<usize>>)
    requires
        deps_wf(deps_view(deps_by_proc@)),
    ensures
        match r {
            Ok(()) => first_cycle(deps_view(deps_by_proc@)) is None,
            Err(cycle) => first_cycle(deps_view(deps_by_proc@)) == Some(cycle@) && is_cycle(
                deps_view(deps_by_proc@),
                cycle@,
            ),
        },
{
    let n = deps_by_proc.len();
    let ghost deps = deps_view(deps_by_proc@);
    let mut states: Vec<VisitState> = Vec::new();
    let mut j: usize = 0;
    while j < n
        invariant
            j <= n,
            states@.len() == j,
            forall|x: int| 0 <= x < j ==> #[trigger] states@[x] is Unvisited,
        decreases n - j,
    {
        states.push(VisitState::Unvisited);
        j += 1;
    }
    let mut stack: Vec<usize> = Vec::new();
    let mut index: usize = 0;
    proof {
        assert(visited(states@) =~= Set::empty());
        assert(states_wf(deps, states@, stack@)) by {
            assert forall|x: usize| x < states@.len() implies (#[trigger] states@[x as int] is Visiting
                <==> stack@.contains(x)) by {
                assert(states@[x as int] is Unvisited);
            }
        }
    }
    while index < n
        invariant
            n == deps_by_proc@.len(),
            deps == deps_view(deps_by_proc@),
            deps_wf(deps),
            index <= n,
            stack@ == Seq::<usize>::empty(),
            states_wf(deps, states@, stack@),
            search_upto(deps, index as nat) == Search::Done(visited(states@)),
        decreases n - index,
    {
        match visit_proc_deps(index, deps_by_proc, &mut states, &mut stack) {
            Ok(()) => {},
            Err(cycle) => {
                proof {
                    lemma_search_upto_stops(deps, (index + 1) as nat, n as nat);
                    lemma_search_upto(deps, n as nat);
                }
                return Err(cycle);
            },
        }
        index += 1;
    }
    Ok(())
}

} // verus!
