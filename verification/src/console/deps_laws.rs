//! What the names of dependencies stand for.

use crate::config::config::Config;
use crate::console::deps::{
    dep_indexes, first_duplicate, first_unknown, index_of, proc_deps, proc_names, resolved_deps,
    DepsProblem,
};
use crate::console::effect::EffectModel;
use crate::console::main_loop::{ids_from, nth_id, spawns_upto, start_problem, started};
use crate::console::spawn_laws::task_has_the_settings;
use crate::console::turn::CoreModel;
use crate::graph::cycles::{first_cycle, reported_cycle_is_a_cycle};
use crate::graph::deps_wf;
use crate::kernel::task::TaskId;
use vstd::prelude::*;

verus! {

/// A name that two processes have.
pub open spec fn is_shared(names: Seq<Seq<char>>, name: Seq<char>) -> bool {
    exists|i: int, j: int|
        0 <= i < j < names.len() && #[trigger] names[i] == name && #[trigger] names[j] == name
}

/// A process depends on a name that no process has.
pub open spec fn is_dangling(
    names: Seq<Seq<char>>,
    deps: Seq<Seq<Seq<char>>>,
    proc: Seq<char>,
    dep: Seq<char>,
) -> bool {
    &&& !names.contains(dep)
    &&& exists|i: int, k: int|
        0 <= i < deps.len() && 0 <= k < deps[i].len() && #[trigger] deps[i][k] == dep && names[i]
            == proc
}

/// A process of the one name depends on the other.
pub open spec fn depends(
    names: Seq<Seq<char>>,
    deps: Seq<Seq<Seq<char>>>,
    from: Seq<char>,
    to: Seq<char>,
) -> bool {
    exists|i: int, k: int|
        0 <= i < deps.len() && 0 <= k < deps[i].len() && names[i] == from && #[trigger] deps[i][k]
            == to
}

proof fn lemma_duplicate(names: Seq<Seq<char>>, n: nat)
    requires
        n <= names.len(),
    ensures
        match first_duplicate(names, n) {
            Some(j) => 0 <= j < n && is_shared(names, names[j]),
            None => forall|i: int, j: int|
                0 <= i < j < n ==> #[trigger] names[i] != #[trigger] names[j],
        },
    decreases n,
{
    if n > 0 {
        lemma_duplicate(names, (n - 1) as nat);
        let t = names.take(n - 1);
        if first_duplicate(names, (n - 1) as nat) is None {
            if t.contains(names[n - 1]) {
                let i = choose|i: int| 0 <= i < t.len() && t[i] == names[n - 1];
                assert(names[i] == names[n - 1]);
            } else {
                assert forall|i: int, j: int| 0 <= i < j < n implies #[trigger] names[i]
                    != #[trigger] names[j] by {
                    if j == n - 1 {
                        assert(t[i] == names[i]);
                        assert(t.contains(t[i]));
                    }
                }
            }
        }
    }
}

proof fn lemma_unknown(names: Seq<Seq<char>>, deps: Seq<Seq<Seq<char>>>, i: int, k: int)
    requires
        0 <= i <= deps.len(),
        0 <= k,
        i < deps.len() ==> k <= deps[i].len(),
        i == deps.len() ==> k == 0,
    ensures
        match first_unknown(names, deps, i, k) {
            Some((a, b)) => 0 <= a < deps.len() && 0 <= b < deps[a].len() && !names.contains(
                deps[a][b],
            ),
            None => forall|a: int, b: int|
                0 <= a < deps.len() && 0 <= b < deps[a].len() && (a < i || (a == i && b < k))
                    ==> names.contains(#[trigger] deps[a][b]),
        },
    decreases i, k,
{
    if k > 0 {
        lemma_unknown(names, deps, i, k - 1);
    } else if i > 0 {
        lemma_unknown(names, deps, i - 1, deps[i - 1].len() as int);
    }
}

proof fn lemma_indexes(names: Seq<Seq<char>>, deps: Seq<Seq<Seq<char>>>)
    requires
        names.len() == deps.len(),
        names.len() <= usize::MAX,
        first_duplicate(names, names.len()) is None,
        first_unknown(names, deps, deps.len() as int, 0) is None,
    ensures
        deps_wf(dep_indexes(names, deps)),
        forall|i: int, k: int, j: int|
            0 <= i < deps.len() && 0 <= k < deps[i].len() && 0 <= j < names.len()
                && #[trigger] deps[i][k] == #[trigger] names[j] ==> dep_indexes(
                names,
                deps,
            )[i][k] == j,
        forall|i: int, k: int|
            0 <= i < deps.len() && 0 <= k < deps[i].len() ==> #[trigger] names[dep_indexes(
                names,
                deps,
            )[i][k] as int] == deps[i][k],
{
    let indexes = dep_indexes(names, deps);
    lemma_duplicate(names, names.len());
    lemma_unknown(names, deps, deps.len() as int, 0);
    assert forall|i: int, k: int| 0 <= i < deps.len() && 0 <= k < deps[i].len() implies {
        &&& 0 <= index_of(names, #[trigger] deps[i][k]) < names.len()
        &&& names[index_of(names, deps[i][k])] == deps[i][k]
        &&& indexes[i][k] == index_of(names, deps[i][k])
    } by {
        assert(names.contains(deps[i][k]));
        let j = choose|j: int| 0 <= j < names.len() && names[j] == deps[i][k];
        assert(0 <= j < names.len() && names[j] == deps[i][k]);
    }
    assert forall|i: int, k: int| 0 <= i < indexes.len() && 0 <= k < indexes[i].len() implies (
    #[trigger] indexes[i][k]) < indexes.len() by {
        assert(deps[i][k] == deps[i][k]);
    }
    assert forall|i: int, k: int, j: int|
        0 <= i < deps.len() && 0 <= k < deps[i].len() && 0 <= j < names.len()
            && #[trigger] deps[i][k] == #[trigger] names[j] implies indexes[i][k] == j by {
        let m = index_of(names, deps[i][k]);
        if m < j {
            assert(names[m] != names[j]);
        } else if j < m {
            assert(names[j] != names[m]);
        }
    }
    assert forall|i: int, k: int|
        0 <= i < deps.len() && 0 <= k < deps[i].len() implies #[trigger] names[indexes[i][k] as int]
        == deps[i][k] by {
        assert(deps[i][k] == deps[i][k]);
    }
}

/// Where dependencies are resolved, each name has become the task of the
/// process of that name.
pub proof fn names_become_their_tasks(
    names: Seq<Seq<char>>,
    deps: Seq<Seq<Seq<char>>>,
    ids: Seq<TaskId>,
    i: int,
    k: int,
    j: int,
)
    requires
        names.len() == deps.len(),
        names.len() <= usize::MAX,
        resolved_deps(names, deps, ids) is Ok,
        0 <= i < deps.len(),
        0 <= k < deps[i].len(),
    ensures
        ({
            let tasks = resolved_deps(names, deps, ids)->Ok_0;
            &&& tasks.len() == deps.len()
            &&& tasks[i].len() == deps[i].len()
            &&& names.contains(deps[i][k])
            &&& 0 <= j < names.len() && names[j] == deps[i][k] ==> tasks[i][k] == ids[j]
        }),
{
    lemma_unknown(names, deps, deps.len() as int, 0);
    lemma_indexes(names, deps);
    assert(names.contains(deps[i][k]));
}

/// Dependencies are not resolved only for one of these reasons, and the reason
/// that is given is there: a name that two processes have, a dependency that no
/// process has, or a cycle, whose names depend each on the next one.
pub proof fn problems_are_there(
    names: Seq<Seq<char>>,
    deps: Seq<Seq<Seq<char>>>,
    ids: Seq<TaskId>,
)
    requires
        names.len() == deps.len() == ids.len(),
        names.len() <= usize::MAX,
    ensures
        match resolved_deps(names, deps, ids) {
            Ok(_) => {
                &&& forall|name: Seq<char>| !#[trigger] is_shared(names, name)
                &&& forall|proc: Seq<char>, dep: Seq<char>|
                    !#[trigger] is_dangling(names, deps, proc, dep)
            },
            Err(DepsProblem::CountMismatch) => false,
            Err(DepsProblem::Duplicate(name)) => is_shared(names, name),
            Err(DepsProblem::Unknown(proc, dep)) => is_dangling(names, deps, proc, dep),
            Err(DepsProblem::Cycle(c)) => {
                &&& c.len() >= 2
                &&& c[0] == c.last()
                &&& forall|m: int|
                    0 <= m < c.len() - 1 ==> depends(names, deps, #[trigger] c[m], c[m + 1])
            },
        },
{
    lemma_duplicate(names, names.len());
    lemma_unknown(names, deps, deps.len() as int, 0);
    if let Some((i, k)) = first_unknown(names, deps, deps.len() as int, 0) {
        assert(deps[i][k] == deps[i][k]);
    } else if first_duplicate(names, names.len()) is None {
        lemma_indexes(names, deps);
        let indexes = dep_indexes(names, deps);
        reported_cycle_is_a_cycle(indexes);
        match first_cycle(indexes) {
            Some(along) => {
                let c = along.map_values(|i: usize| names[i as int]);
                assert forall|m: int| 0 <= m < c.len() - 1 implies depends(
                    names,
                    deps,
                    #[trigger] c[m],
                    c[m + 1],
                ) by {
                    let i = along[m] as int;
                    assert(indexes[i].contains(along[m + 1]));
                    let k = choose|k: int| 0 <= k < indexes[i].len() && indexes[i][k] == along[m
                        + 1];
                    assert(names[indexes[i][k] as int] == deps[i][k]);
                }
            },
            None => {},
        }
    }
}

proof fn lemma_nth(first: usize, n: nat)
    requires
        first + n <= usize::MAX,
    ensures
        nth_id(first, n) == first + n,
    decreases n,
{
    if n > 0 {
        lemma_nth(first, (n - 1) as nat);
    }
}

proof fn lemma_spawned(
    config: Config,
    ids: Seq<TaskId>,
    deps: Seq<Seq<TaskId>>,
    n: nat,
    i: int,
)
    requires
        n <= config.procs@.len(),
        0 <= i < n,
    ensures
        ({
            let all = spawns_upto(config, ids, deps, n);
            &&& all.len() == n
            &&& runs(all[i], config, i, ids[i], deps[i])
        }),
    decreases n,
{
    reveal_with_fuel(spawns_upto, 2);
    if i < n - 1 {
        lemma_spawned(config, ids, deps, (n - 1) as nat, i);
    } else {
        if n > 1 {
            lemma_spawned(config, ids, deps, (n - 1) as nat, 0);
        }
        let s = config.proc_defaults@.overlaid(config.procs@[i]@);
        task_has_the_settings(s, deps[i]);
    }
}

/// The effect runs configured process `i` as a task that waits for others, with
/// what the process does not set taken from the defaults.
pub open spec fn runs(
    e: EffectModel,
    config: Config,
    i: int,
    id: TaskId,
    waits_for: Seq<TaskId>,
) -> bool {
    let own = config.procs@[i]@;
    let common = config.proc_defaults@;
    match e {
        EffectModel::Spawn(to, path, settings) => {
            &&& to == id
            &&& path is Some
            &&& settings.label == Some(own.path)
            &&& settings.deps == waits_for
            &&& own.autostart matches Some(b) ==> settings.autostart == b
            &&& own.autostart is None ==> settings.autostart == (common.autostart == Some(true))
            &&& own.autorestart matches Some(b) ==> settings.autorestart == b
            &&& own.autorestart is None ==> settings.autorestart == (common.autorestart == Some(
                true,
            ))
            &&& own.oneshot matches Some(b) ==> settings.oneshot == b
            &&& own.oneshot is None ==> settings.oneshot == (common.oneshot == Some(true))
            &&& own.stop matches Some(stop) ==> settings.stop == stop
        },
        _ => false,
    }
}

/// Every configured process is run once, in the order of the configuration,
/// with the next ids, and waits for the tasks of the processes that it names.
/// Where the dependencies cannot be resolved, nothing is run.
pub proof fn every_process_is_run(core: CoreModel, config: Config, i: int)
    requires
        core.next_id + config.procs@.len() <= usize::MAX,
        0 <= i < config.procs@.len(),
    ensures
        ({
            let n = config.procs@.len();
            let after = started(core, config);
            let asked = after.out.skip(core.out.len() as int);
            let (names, deps) = (proc_names(config.procs@), proc_deps(config.procs@));
            &&& after.next_id == core.next_id + n
            &&& after.state == core.state
            &&& core.out == after.out.take(core.out.len() as int)
            &&& start_problem(core, config) is Some ==> asked.len() == 0
            &&& start_problem(core, config) is None ==> asked.len() == n && exists|waits: Seq<TaskId>|
                {
                    &&& #[trigger] runs(
                        asked[i],
                        config,
                        i,
                        TaskId((core.next_id + i) as usize),
                        waits,
                    )
                    &&& waits.len() == deps[i].len()
                    &&& forall|k: int, j: int|
                        0 <= k < waits.len() && 0 <= j < n && #[trigger] names[j]
                            == #[trigger] deps[i][k] ==> waits[k] == TaskId(
                            (core.next_id + j) as usize,
                        )
                }
        }),
{
    let n = config.procs@.len();
    let ids = ids_from(core.next_id, n);
    let (names, deps) = (proc_names(config.procs@), proc_deps(config.procs@));
    let after = started(core, config);
    let asked = after.out.skip(core.out.len() as int);
    lemma_nth(core.next_id, n);
    assert forall|j: int| 0 <= j < n implies #[trigger] ids[j] == TaskId(
        (core.next_id + j) as usize,
    ) by {
        lemma_nth(core.next_id, j as nat);
    }
    match resolved_deps(names, deps, ids) {
        Ok(tasks) => {
            assert(asked =~= spawns_upto(config, ids, tasks, n));
            lemma_spawned(config, ids, tasks, n, i);
            let waits = tasks[i];
            assert(waits.len() == deps[i].len()) by {
                if deps[i].len() > 0 {
                    names_become_their_tasks(names, deps, ids, i, 0, 0);
                }
            }
            assert forall|k: int, j: int|
                0 <= k < waits.len() && 0 <= j < n && #[trigger] names[j]
                    == #[trigger] deps[i][k] implies waits[k] == TaskId(
                (core.next_id + j) as usize,
            ) by {
                names_become_their_tasks(names, deps, ids, i, k, j);
            }
            assert(runs(asked[i], config, i, TaskId((core.next_id + i) as usize), waits));
        },
        Err(_) => {
            assert(asked =~= Seq::empty());
        },
    }
}

} // verus!
