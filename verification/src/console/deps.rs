//! Dependencies between configured processes.

use crate::config::proc::ProcConfig;
use crate::graph::cycles::{
    cycle_is_reported_unless_acyclic, find_cycle, first_cycle,
};
use crate::graph::{acyclic, deps_view, deps_wf};
use crate::kernel::task::TaskId;
use crate::text::strings_view;
use vstd::hash_map::StringHashMap;
use vstd::prelude::*;

verus! {

/// Why dependencies cannot be resolved.
#[derive(Debug)]
pub enum DepsError {
    /// There are not as many task ids as processes.
    CountMismatch,
    Duplicate(String),
    Unknown { proc: String, dep: String },
    /// The names along a cycle, the first one again at the end.
    Cycle(Vec<String>),
}

/// A dependency error, by its characters.
pub enum DepsProblem {
    CountMismatch,
    Duplicate(Seq<char>),
    Unknown(Seq<char>, Seq<char>),
    Cycle(Seq<Seq<char>>),
}

impl View for DepsError {
    type V = DepsProblem;

    open spec fn view(&self) -> DepsProblem {
        match self {
            DepsError::CountMismatch => DepsProblem::CountMismatch,
            DepsError::Duplicate(name) => DepsProblem::Duplicate(name@),
            DepsError::Unknown { proc, dep } => DepsProblem::Unknown(proc@, dep@),
            DepsError::Cycle(names) => DepsProblem::Cycle(strings_view(names@)),
        }
    }
}

/// The names with arrows between them.
pub open spec fn joined(names: Seq<Seq<char>>) -> Seq<char>
    decreases names.len(),
{
    if names.len() == 0 {
        Seq::empty()
    } else if names.len() == 1 {
        names[0]
    } else {
        joined(names.drop_last()) + " -> "@ + names.last()
    }
}

impl DepsProblem {
    pub open spec fn described(self) -> Seq<char> {
        match self {
            DepsProblem::CountMismatch => "Internal error: proc and task id counts differ."@,
            DepsProblem::Duplicate(name) => "Duplicate process name '"@ + name + "'."@,
            DepsProblem::Unknown(proc, dep) => "Process '"@ + proc
                + "' depends on unknown process '"@ + dep + "'."@,
            DepsProblem::Cycle(names) => "Process dependency cycle detected: "@ + joined(names)
                + "."@,
        }
    }
}

fn join_names(names: &Vec<String>) -> (r: String)
    ensures
        r@ == joined(strings_view(names@)),
{
    let ghost all = strings_view(names@);
    let mut s = String::new();
    let mut i: usize = 0;
    while i < names.len()
        invariant
            i <= names@.len(),
            all == strings_view(names@),
            s@ == joined(all.take(i as int)),
        decreases names@.len() - i,
    {
        let ghost before = s@;
        proof {
            assert(all.take(i + 1).drop_last() =~= all.take(i as int));
            assert(all.take(i + 1).last() == names@[i as int]@);
        }
        if i > 0 {
            s.append(" -> ");
        }
        s.append(names[i].as_str());
        proof {
            if i == 0 {
                assert(before =~= Seq::empty());
                assert(s@ =~= names@[0]@);
                assert(all.take(1)[0] == names@[0]@);
            }
        }
        i += 1;
    }
    proof {
        assert(all.take(i as int) =~= all);
    }
    s
}

impl DepsError {
    pub fn message(&self) -> (r: String)
        ensures
            r@ == self@.described(),
    {
        let mut s = String::new();
        match self {
            DepsError::CountMismatch => {
                s.append("Internal error: proc and task id counts differ.");
            },
            DepsError::Duplicate(name) => {
                s.append("Duplicate process name '");
                s.append(name.as_str());
                s.append("'.");
            },
            DepsError::Unknown { proc, dep } => {
                s.append("Process '");
                s.append(proc.as_str());
                s.append("' depends on unknown process '");
                s.append(dep.as_str());
                s.append("'.");
            },
            DepsError::Cycle(names) => {
                let text = join_names(names);
                s.append("Process dependency cycle detected: ");
                s.append(text.as_str());
                s.append(".");
            },
        }
        proof {
            assert(s@ =~= self@.described());
        }
        s
    }
}

/// The names of the processes.
pub open spec fn proc_names(procs: Seq<ProcConfig>) -> Seq<Seq<char>> {
    procs.map_values(|p: ProcConfig| p.path@)
}

/// The names that each process depends on.
pub open spec fn proc_deps(procs: Seq<ProcConfig>) -> Seq<Seq<Seq<char>>> {
    procs.map_values(|p: ProcConfig| strings_view(p.deps@))
}

/// The first process that has the name of an earlier one.
pub open spec fn first_duplicate(names: Seq<Seq<char>>, n: nat) -> Option<int>
    decreases n,
{
    if n == 0 {
        None
    } else {
        match first_duplicate(names, (n - 1) as nat) {
            Some(i) => Some(i),
            None => if names.take(n - 1).contains(names[n - 1]) {
                Some(n - 1)
            } else {
                None
            },
        }
    }
}

/// The position of the first unknown name among the first `k` dependencies of
/// process `i` and all dependencies of the processes before it.
pub open spec fn first_unknown(
    names: Seq<Seq<char>>,
    deps: Seq<Seq<Seq<char>>>,
    i: int,
    k: int,
) -> Option<(int, int)>
    decreases i, k,
{
    if k > 0 {
        match first_unknown(names, deps, i, k - 1) {
            Some(at) => Some(at),
            None => if names.contains(deps[i][k - 1]) {
                None
            } else {
                Some((i, k - 1))
            },
        }
    } else if i > 0 {
        first_unknown(names, deps, i - 1, deps[i - 1].len() as int)
    } else {
        None
    }
}

/// The index of a name.
pub open spec fn index_of(names: Seq<Seq<char>>, name: Seq<char>) -> int {
    choose|i: int| 0 <= i < names.len() && names[i] == name
}

/// The indexes that each process depends on.
pub open spec fn dep_indexes(names: Seq<Seq<char>>, deps: Seq<Seq<Seq<char>>>) -> Seq<Seq<usize>> {
    deps.map_values(
        |list: Seq<Seq<char>>| list.map_values(|name: Seq<char>| index_of(names, name) as usize),
    )
}

/// The task ids that each process depends on, or the first thing that is
/// wrong.
pub open spec fn resolved_deps(
    names: Seq<Seq<char>>,
    deps: Seq<Seq<Seq<char>>>,
    ids: Seq<TaskId>,
) -> Result<Seq<Seq<TaskId>>, DepsProblem> {
    if names.len() != ids.len() {
        Err(DepsProblem::CountMismatch)
    } else {
        match first_duplicate(names, names.len()) {
            Some(i) => Err(DepsProblem::Duplicate(names[i])),
            None => match first_unknown(names, deps, deps.len() as int, 0) {
                Some((i, k)) => Err(DepsProblem::Unknown(names[i], deps[i][k])),
                None => match first_cycle(dep_indexes(names, deps)) {
                    Some(c) => Err(DepsProblem::Cycle(c.map_values(|i: usize| names[i as int]))),
                    None => Ok(
                        dep_indexes(names, deps).map_values(
                            |list: Seq<usize>| list.map_values(|i: usize| ids[i as int]),
                        ),
                    ),
                },
            },
        }
    }
}

proof fn lemma_no_duplicates(names: Seq<Seq<char>>, n: nat)
    requires
        n <= names.len(),
        first_duplicate(names, n) is None,
    ensures
        names.take(n as int).no_duplicates(),
    decreases n,
{
    if n > 0 {
        lemma_no_duplicates(names, (n - 1) as nat);
        let t = names.take(n - 1);
        let s = names.take(n as int);
        assert forall|a: int, b: int| 0 <= a < s.len() && 0 <= b < s.len() && a != b implies s[a]
            != s[b] by {
            if a < n - 1 && b < n - 1 {
                assert(s[a] == t[a] && s[b] == t[b]);
            } else if a == n - 1 {
                assert(t[b] == s[b]);
                assert(t.contains(t[b]));
            } else {
                assert(t[a] == s[a]);
                assert(t.contains(t[a]));
            }
        }
    }
}

proof fn lemma_duplicate_stays(names: Seq<Seq<char>>, i: nat, n: nat)
    requires
        i <= n,
        first_duplicate(names, i) is Some,
    ensures
        first_duplicate(names, n) == first_duplicate(names, i),
    decreases n,
{
    if i < n {
        lemma_duplicate_stays(names, i, (n - 1) as nat);
    }
}

proof fn lemma_unknown_stays(
    names: Seq<Seq<char>>,
    deps: Seq<Seq<Seq<char>>>,
    i: int,
    k: int,
    i2: int,
    k2: int,
)
    requires
        first_unknown(names, deps, i, k) is Some,
        0 <= i <= i2,
        0 <= k,
        0 <= k2,
        i == i2 ==> k <= k2,
        i < i2 ==> k <= deps[i].len(),
    ensures
        first_unknown(names, deps, i2, k2) == first_unknown(names, deps, i, k),
    decreases i2, k2,
{
    if i == i2 && k == k2 {
    } else if k2 > 0 {
        lemma_unknown_stays(names, deps, i, k, i2, k2 - 1);
    } else {
        lemma_unknown_stays(names, deps, i, k, i2 - 1, deps[i2 - 1].len() as int);
    }
}

proof fn lemma_index_of(names: Seq<Seq<char>>, i: int)
    requires
        names.no_duplicates(),
        0 <= i < names.len(),
    ensures
        index_of(names, names[i]) == i,
{
    let j = index_of(names, names[i]);
    assert(0 <= j < names.len() && names[j] == names[i]);
}

/// What is known of the names seen so far: each one and its index.
spec fn indexes_names(map: Map<Seq<char>, usize>, names: Seq<Seq<char>>, n: int) -> bool {
    &&& forall|x: Seq<char>| #[trigger]
        map.dom().contains(x) ==> map[x] < n && names[map[x] as int] == x
    &&& forall|i: int| 0 <= i < n ==> map.dom().contains(#[trigger] names[i])
}

/// The index of every name, unless one occurs twice.
fn index_names(procs: &[ProcConfig]) -> (r: Result<StringHashMap<usize>, DepsError>)
    ensures
        ({
            let names = proc_names(procs@);
            match first_duplicate(names, names.len()) {
                Some(i) => r matches Err(e) && e@ == DepsProblem::Duplicate(names[i]),
                None => r matches Ok(map) && indexes_names(map@, names, names.len() as int)
                    && names.no_duplicates(),
            }
        }),
{
    let ghost names = proc_names(procs@);
    let mut map: StringHashMap<usize> = StringHashMap::new();
    let mut i: usize = 0;
    while i < procs.len()
        invariant
            i <= procs@.len(),
            names == proc_names(procs@),
            first_duplicate(names, i as nat) is None,
            indexes_names(map@, names, i as int),
        decreases procs@.len() - i,
    {
        let ghost name = procs@[i as int].path@;
        proof {
            assert(names[i as int] == name);
        }
        if map.contains_key(procs[i].path.as_str()) {
            proof {
                let j = map@[name] as int;
                assert(map@.dom().contains(name));
                assert(names.take(i as int)[j] == name);
                assert(first_duplicate(names, (i + 1) as nat) == Some(i as int));
                lemma_duplicate_stays(names, (i + 1) as nat, names.len());
            }
            return Err(DepsError::Duplicate(procs[i].path.clone()));
        }
        proof {
            if names.take(i as int).contains(name) {
                let j = choose|j: int| 0 <= j < i && names.take(i as int)[j] == name;
                assert(names[j] == name);
                assert(map@.dom().contains(names[j]));
            }
        }
        let ghost before = map@;
        map.insert(procs[i].path.clone(), i);
        proof {
            assert forall|j: int| 0 <= j < i + 1 implies map@.dom().contains(#[trigger] names[j]) by {
                if j < i {
                    assert(before.dom().contains(names[j]));
                }
            }
            assert forall|x: Seq<char>| #[trigger] map@.dom().contains(x) implies map@[x] < i + 1
                && names[map@[x] as int] == x by {
                if x != name {
                    assert(before.dom().contains(x));
                }
            }
        }
        i += 1;
    }
    proof {
        lemma_no_duplicates(names, names.len());
        assert(names.take(names.len() as int) =~= names);
    }
    Ok(map)
}

/// The dependencies as indexes, unless one is unknown.
fn index_deps(procs: &[ProcConfig], map: &StringHashMap<usize>) -> (r: Result<
    Vec<Vec<usize>>,
    DepsError,
>)
    requires
        indexes_names(map@, proc_names(procs@), procs@.len() as int),
        proc_names(procs@).no_duplicates(),
    ensures
        ({
            let names = proc_names(procs@);
            let deps = proc_deps(procs@);
            match first_unknown(names, deps, deps.len() as int, 0) {
                Some((i, k)) => r matches Err(e) && e@ == DepsProblem::Unknown(
                    names[i],
                    deps[i][k],
                ),
                None => r matches Ok(indexes) && deps_view(indexes@) == dep_indexes(names, deps)
                    && deps_wf(dep_indexes(names, deps)),
            }
        }),
{
    let ghost names = proc_names(procs@);
    let ghost deps = proc_deps(procs@);
    let ghost indexes = dep_indexes(names, deps);
    let mut out: Vec<Vec<usize>> = Vec::new();
    let mut i: usize = 0;
    while i < procs.len()
        invariant
            i <= procs@.len(),
            names == proc_names(procs@),
            deps == proc_deps(procs@),
            indexes == dep_indexes(names, deps),
            names.no_duplicates(),
            indexes_names(map@, names, procs@.len() as int),
            first_unknown(names, deps, i as int, 0) is None,
            out@.len() == i,
            forall|j: int| 0 <= j < i ==> #[trigger] out@[j]@ == indexes[j],
            forall|j: int, k: int|
                0 <= j < i && 0 <= k < indexes[j].len() ==> #[trigger] indexes[j][k]
                    < procs@.len(),
        decreases procs@.len() - i,
    {
        let mut list: Vec<usize> = Vec::new();
        let mut k: usize = 0;
        proof {
            assert(deps[i as int] == strings_view(procs@[i as int].deps@));
        }
        while k < procs[i as usize].deps.len()
            invariant
                i < procs@.len(),
                names == proc_names(procs@),
                deps == proc_deps(procs@),
                indexes == dep_indexes(names, deps),
                deps[i as int] == strings_view(procs@[i as int].deps@),
                names.no_duplicates(),
                indexes_names(map@, names, procs@.len() as int),
                k <= deps[i as int].len(),
                first_unknown(names, deps, i as int, k as int) is None,
                list@ == indexes[i as int].take(k as int),
                forall|l: int| 0 <= l < k ==> #[trigger] list@[l] < procs@.len(),
            decreases deps[i as int].len() - k,
        {
            let dep_name = &procs[i].deps[k];
            let ghost dep = dep_name@;
            proof {
                assert(deps[i as int][k as int] == dep);
            }
            match map.get(dep_name.as_str()) {
                Some(index) => {
                    let index: usize = *index;
                    proof {
                        assert(map@.dom().contains(dep));
                        assert(names[index as int] == dep);
                        assert(names.contains(dep));
                        lemma_index_of(names, index as int);
                        assert(indexes[i as int][k as int] == index);
                        assert(indexes[i as int].take(k + 1) =~= indexes[i as int].take(
                            k as int,
                        ).push(index));
                    }
                    list.push(index);
                },
                None => {
                    proof {
                        if names.contains(dep) {
                            let j = choose|j: int| 0 <= j < names.len() && names[j] == dep;
                            assert(map@.dom().contains(names[j]));
                        }
                        assert(first_unknown(names, deps, i as int, k + 1) == Some(
                            (i as int, k as int),
                        ));
                        lemma_unknown_stays(
                            names,
                            deps,
                            i as int,
                            k + 1,
                            deps.len() as int,
                            0,
                        );
                    }
                    return Err(
                        DepsError::Unknown { proc: procs[i].path.clone(), dep: dep_name.clone() },
                    );
                },
            }
            k += 1;
        }
        proof {
            assert(indexes[i as int].take(k as int) =~= indexes[i as int]);
            assert(first_unknown(names, deps, i + 1, 0) == first_unknown(
                names,
                deps,
                i as int,
                k as int,
            ));
        }
        out.push(list);
        i += 1;
    }
    proof {
        assert(deps_view(out@) =~= indexes);
    }
    Ok(out)
}

fn names_along(procs: &[ProcConfig], cycle: &Vec<usize>) -> (r: Vec<String>)
    requires
        forall|k: int| 0 <= k < cycle@.len() ==> #[trigger] cycle@[k] < procs@.len(),
    ensures
        strings_view(r@) == cycle@.map_values(|i: usize| proc_names(procs@)[i as int]),
{
    let ghost names = proc_names(procs@);
    let mut out: Vec<String> = Vec::new();
    let mut i: usize = 0;
    while i < cycle.len()
        invariant
            i <= cycle@.len(),
            names == proc_names(procs@),
            forall|k: int| 0 <= k < cycle@.len() ==> #[trigger] cycle@[k] < procs@.len(),
            out@.len() == i,
            forall|k: int| 0 <= k < i ==> (#[trigger] out@[k])@ == names[cycle@[k] as int],
        decreases cycle@.len() - i,
    {
        out.push(procs[cycle[i]].path.clone());
        i += 1;
    }
    proof {
        assert(strings_view(out@) =~= cycle@.map_values(|i: usize| names[i as int]));
    }
    out
}

pub open spec fn ids_view(v: Seq<Vec<TaskId>>) -> Seq<Seq<TaskId>> {
    v.map_values(|list: Vec<TaskId>| list@)
}

fn ids_of(indexes: &Vec<Vec<usize>>, ids: &[TaskId]) -> (r: Vec<Vec<TaskId>>)
    requires
        deps_wf(deps_view(indexes@)),
        indexes@.len() == ids@.len(),
    ensures
        ids_view(r@) == deps_view(indexes@).map_values(
            |list: Seq<usize>| list.map_values(|i: usize| ids@[i as int]),
        ),
{
    let ghost deps = deps_view(indexes@);
    let ghost want = deps.map_values(
        |list: Seq<usize>| list.map_values(|i: usize| ids@[i as int]),
    );
    let mut out: Vec<Vec<TaskId>> = Vec::new();
    let mut i: usize = 0;
    while i < indexes.len()
        invariant
            i <= indexes@.len(),
            indexes@.len() == ids@.len(),
            deps == deps_view(indexes@),
            deps_wf(deps),
            want == deps.map_values(
                |list: Seq<usize>| list.map_values(|i: usize| ids@[i as int]),
            ),
            out@.len() == i,
            forall|j: int| 0 <= j < i ==> (#[trigger] out@[j])@ == want[j],
        decreases indexes@.len() - i,
    {
        let mut list: Vec<TaskId> = Vec::new();
        let mut k: usize = 0;
        proof {
            assert(deps[i as int] == indexes@[i as int]@);
        }
        while k < indexes[i].len()
            invariant
                i < indexes@.len(),
                indexes@.len() == ids@.len(),
                deps == deps_view(indexes@),
                deps_wf(deps),
                deps[i as int] == indexes@[i as int]@,
                k <= deps[i as int].len(),
                list@.len() == k,
                forall|l: int| 0 <= l < k ==> #[trigger] list@[l] == ids@[deps[i as int][l] as int],
            decreases deps[i as int].len() - k,
        {
            proof {
                assert(deps[i as int][k as int] < deps.len());
            }
            list.push(ids[indexes[i][k]]);
            k += 1;
        }
        proof {
            assert(list@ =~= want[i as int]);
        }
        out.push(list);
        i += 1;
    }
    proof {
        assert(ids_view(out@) =~= want);
    }
    out
}

/// Maps the dependencies of the processes to task ids. Names have to be
/// unique, dependencies known and without cycles.
pub fn resolve_proc_deps(proc_configs: &[ProcConfig], task_ids: &[TaskId]) -> (r: Result<
    Vec<Vec<TaskId>>,
    DepsError,
>)
    ensures
        match r {
            Ok(deps) => resolved_deps(
                proc_names(proc_configs@),
                proc_deps(proc_configs@),
                task_ids@,
            ) == Ok::<Seq<Seq<TaskId>>, DepsProblem>(ids_view(deps@)),
            Err(e) => resolved_deps(
                proc_names(proc_configs@),
                proc_deps(proc_configs@),
                task_ids@,
            ) == Err::<Seq<Seq<TaskId>>, DepsProblem>(e@),
        },
{
    if proc_configs.len() != task_ids.len() {
        return Err(DepsError::CountMismatch);
    }
    let map = match index_names(proc_configs) {
        Ok(map) => map,
        Err(e) => {
            return Err(e);
        },
    };
    let indexes = match index_deps(proc_configs, &map) {
        Ok(indexes) => indexes,
        Err(e) => {
            return Err(e);
        },
    };
    match validate_proc_dep_cycles(proc_configs, &indexes) {
        Ok(()) => {},
        Err(e) => {
            return Err(e);
        },
    }
    Ok(ids_of(&indexes, task_ids))
}

fn validate_proc_dep_cycles(proc_configs: &[ProcConfig], deps_by_proc: &Vec<Vec<usize>>) -> (r:
    Result<(), DepsError>)
    requires
        deps_by_proc@.len() == proc_configs@.len(),
        deps_wf(deps_view(deps_by_proc@)),
    ensures
        match first_cycle(deps_view(deps_by_proc@)) {
            None => r is Ok,
            Some(c) => r matches Err(e) && e@ == DepsProblem::Cycle(
                c.map_values(|i: usize| proc_names(proc_configs@)[i as int]),
            ),
        },
{
    match find_cycle(deps_by_proc) {
        Ok(()) => Ok(()),
        Err(cycle) => Err(DepsError::Cycle(names_along(proc_configs, &cycle))),
    }
}

/// Dependencies of uniquely named processes on each other are resolved
/// exactly when they form no cycle.
pub proof fn resolved_unless_cyclic(
    names: Seq<Seq<char>>,
    deps: Seq<Seq<Seq<char>>>,
    ids: Seq<TaskId>,
)
    requires
        names.len() == ids.len() == deps.len(),
        names.len() <= usize::MAX,
        names.no_duplicates(),
        forall|i: int, k: int|
            0 <= i < deps.len() && 0 <= k < deps[i].len() ==> names.contains(
                #[trigger] deps[i][k],
            ),
    ensures
        resolved_deps(names, deps, ids) is Ok <==> acyclic(dep_indexes(names, deps)),
        resolved_deps(names, deps, ids) matches Err(e) ==> e is Cycle,
{
    lemma_unique_names(names, names.len());
    lemma_known_names(names, deps, deps.len() as int, 0);
    let indexes = dep_indexes(names, deps);
    assert(deps_wf(indexes)) by {
        assert forall|i: int, k: int|
            0 <= i < indexes.len() && 0 <= k < indexes[i].len() implies #[trigger] indexes[i][k]
            < indexes.len() by {
            let name = deps[i][k];
            assert(names.contains(deps[i][k]));
            let j = choose|j: int| 0 <= j < names.len() && names[j] == name;
            lemma_index_of(names, j);
        }
    }
    cycle_is_reported_unless_acyclic(indexes);
}

proof fn lemma_unique_names(names: Seq<Seq<char>>, n: nat)
    requires
        names.no_duplicates(),
        n <= names.len(),
    ensures
        first_duplicate(names, n) is None,
    decreases n,
{
    if n > 0 {
        lemma_unique_names(names, (n - 1) as nat);
        let t = names.take(n - 1);
        if t.contains(names[n - 1]) {
            let j = choose|j: int| 0 <= j < t.len() && t[j] == names[n - 1];
            assert(names[j] == names[n - 1]);
        }
    }
}

proof fn lemma_known_names(names: Seq<Seq<char>>, deps: Seq<Seq<Seq<char>>>, i: int, k: int)
    requires
        0 <= i <= deps.len(),
        0 <= k,
        i < deps.len() ==> k <= deps[i].len(),
        i == deps.len() ==> k == 0,
        forall|i: int, k: int|
            0 <= i < deps.len() && 0 <= k < deps[i].len() ==> names.contains(
                #[trigger] deps[i][k],
            ),
    ensures
        first_unknown(names, deps, i, k) is None,
    decreases i, k,
{
    if k > 0 {
        lemma_known_names(names, deps, i, k - 1);
        assert(names.contains(deps[i][k - 1]));
    } else if i > 0 {
        lemma_known_names(names, deps, i - 1, deps[i - 1].len() as int);
    }
}

} // verus!
