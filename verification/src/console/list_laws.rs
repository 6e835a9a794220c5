//! What the console shows of tasks that were there before it, and how it names
//! and sizes them.

use crate::config::config::Config;
use crate::console::action_laws::is_free;
use crate::console::app::LoopAction;
use crate::console::effect::{EffectModel, TaskOpModel};
use crate::console::main_loop::{next_of, resizes, term_size, Next};
use crate::console::names::{free_from, numbers_tried, segment_of, taken, unique_name};
use crate::console::notify::{
    configured_deps, fresh_proc, refreshed, with_listed_procs, with_listed_rows, TaskInfo,
};
use crate::console::proc::child::{kind_of_segment, status_shown, ChildKind};
use crate::console::proc::view::{child_index, ProcModel};
use crate::console::state::{lemma_proc_index, proc_index, StateModel};
use crate::console::turn::{CoreModel, Turn};
use crate::kernel::path::{path_depth, path_name, path_parent};
use crate::kernel::screen_cmd::{TaskScreenCmd, Winsize};
use crate::kernel::task::{TaskId, TaskStatus};
use crate::term::rect::Size;
use crate::term::screen::SharedVt;
use crate::text::{decimal, strings_view};
use vstd::prelude::*;

verus! {

proof fn lemma_configured_deps(config: Config, name: Seq<char>, n: nat, i: int)
    requires
        n <= i < config.procs@.len(),
        config.procs@[i].path@ == name,
        forall|j: int| n <= j < i ==> (#[trigger] config.procs@[j]).path@ != name,
    ensures
        configured_deps(config, name, n) == strings_view(config.procs@[i].deps@),
    decreases i - n,
{
    if n < i {
        assert(config.procs@[n as int].path@ != name);
        lemma_configured_deps(config, name, n + 1, i);
    }
}

/// A process is shown with the dependencies that are configured for its name,
/// and with a row for them if there are any.
pub proof fn process_is_shown_with_its_dependencies(
    config: Config,
    id: TaskId,
    status: TaskStatus,
    vt: SharedVt,
    path: Option<Seq<char>>,
    deps_vt: SharedVt,
    i: int,
)
    requires
        0 <= i < config.procs@.len(),
        forall|j: int|
            0 <= j < i ==> (#[trigger] config.procs@[j]).path@ != config.procs@[i].path@,
    ensures
        ({
            let name = config.procs@[i].path@;
            let proc = fresh_proc(config, id, name, status, vt, path, deps_vt);
            &&& proc.deps == strings_view(config.procs@[i].deps@)
            &&& config.procs@[i].deps@.len() == 0 ==> proc.children.len() == 0
            &&& config.procs@[i].deps@.len() > 0 ==> proc.children.len() == 1
                && proc.children[0].kind == ChildKind::Deps && proc.children[0].vt == deps_vt
                && proc.children[0].task_id is None
        }),
{
    lemma_configured_deps(config, config.procs@[i].path@, 0, i);
}

/// The task of a hook or a check becomes a row of the process whose path is the
/// one above its own: of the kind that its path tells, with its terminal and
/// its status.
pub proof fn row_is_attached_to_its_process(
    state: StateModel,
    id: TaskId,
    path: Seq<char>,
    label: Option<Seq<char>>,
    status: TaskStatus,
    vt: SharedVt,
    now: u64,
    i: int,
)
    requires
        0 <= i < state.procs.len(),
        path_parent(path) is Some,
        state.procs[i].path == path_parent(path),
        forall|j: int| 0 <= j < i ==> (#[trigger] state.procs[j]).path != path_parent(path),
        kind_of_segment(path_name(path)) is Some,
        child_index(state.procs[i].children, id) is None,
    ensures
        ({
            let after = state.attached(id, path, label, status, vt, now);
            let kind = kind_of_segment(path_name(path))->0;
            let row = after.procs[i].children.last();
            &&& after == (StateModel {
                procs: state.procs.update(
                    i,
                    ProcModel {
                        children: state.procs[i].children.push(row),
                        ..state.procs[i]
                    },
                ),
                ..state
            })
            &&& row.task_id == Some(id)
            &&& row.kind == kind
            &&& row.vt == vt
            &&& row.status == status_shown(status)
            &&& kind matches ChildKind::Hook(event) ==> row.name == event.text()
            &&& kind is Check && label is Some ==> row.name == label->0
            &&& kind is Check && label is None ==> row.name == path_name(path)
        }),
{
    lemma_path_found(state.procs, path_parent(path)->0, 0, i);
}

proof fn lemma_path_found(procs: Seq<ProcModel>, path: Seq<char>, n: nat, i: int)
    requires
        n <= i < procs.len(),
        procs[i].path == Some(path),
        forall|j: int| n <= j < i ==> (#[trigger] procs[j]).path != Some(path),
    ensures
        crate::console::notify::path_index(procs, path, n) == Some(i),
    decreases i - n,
{
    if n < i {
        assert(procs[n as int].path != Some(path));
        lemma_path_found(procs, path, n + 1, i);
    }
}

/// A process of a task is among those that are shown.
pub open spec fn is_shown(procs: Seq<ProcModel>, id: TaskId) -> bool {
    exists|i: int| 0 <= i < procs.len() && (#[trigger] procs[i]).id == id
}

/// A task of the top level that has a screen.
pub open spec fn is_process(task: TaskInfo) -> bool {
    task.vt is Some && (task.path is Some ==> path_depth(task.path->0@) < 2)
}

proof fn lemma_listed(core: CoreModel, config: Config, list: Seq<TaskInfo>, n: nat)
    requires
        n <= list.len(),
    ensures
        ({
            let after = with_listed_procs(core, config, list, n).state.procs;
            &&& core.state.procs.len() <= after.len()
            &&& core.state.procs == after.take(core.state.procs.len() as int)
            &&& forall|k: int|
                0 <= k < n && is_process(#[trigger] list[k]) ==> is_shown(after, list[k].id)
            &&& forall|i: int|
                core.state.procs.len() <= i < after.len() ==> comes_from(
                    #[trigger] after[i],
                    list,
                )
        }),
    decreases n,
{
    let after = with_listed_procs(core, config, list, n).state.procs;
    if n > 0 {
        lemma_listed(core, config, list, (n - 1) as nat);
        let before = with_listed_procs(core, config, list, (n - 1) as nat).state.procs;
        let task = list[n - 1];
        lemma_proc_index(before, task.id);
        if after.len() == before.len() {
            assert(after =~= before);
        } else {
            assert(after.drop_last() =~= before);
            assert(after.last().id == task.id);
            assert(after[after.len() - 1].id == task.id);
        }
        assert(core.state.procs =~= after.take(core.state.procs.len() as int)) by {
            assert forall|i: int| 0 <= i < core.state.procs.len() implies after[i]
                == core.state.procs[i] by {
                assert(before.take(core.state.procs.len() as int)[i] == before[i]);
                assert(after[i] == before[i]);
            }
        }
        assert forall|k: int| 0 <= k < n && is_process(#[trigger] list[k]) implies is_shown(
            after,
            list[k].id,
        ) by {
            if k < n - 1 {
                assert(is_shown(before, list[k].id));
                let i = choose|i: int|
                    0 <= i < before.len() && (#[trigger] before[i]).id == list[k].id;
                assert(after[i] == before[i]);
            } else if after.len() == before.len() {
                let i = proc_index(before, task.id)->0;
                assert(after[i].id == task.id);
            }
        }
        assert forall|i: int| core.state.procs.len() <= i < after.len() implies comes_from(
            #[trigger] after[i],
            list,
        ) by {
            if i < before.len() {
                assert(after[i] == before[i]);
            } else {
                assert(list[n - 1].id == after[i].id);
            }
        }
    } else {
        assert(core.state.procs =~= after.take(core.state.procs.len() as int));
    }
}

/// The process is one of a list: it has the task, the terminal and the status of
/// a task of the list.
pub open spec fn comes_from(proc: ProcModel, list: Seq<TaskInfo>) -> bool {
    exists|k: int|
        0 <= k < list.len() && is_process(#[trigger] list[k]) && list[k].id == proc.id
            && list[k].vt == Some(proc.vt) && list[k].status == proc.status
}

proof fn lemma_rows_keep(state: StateModel, list: Seq<TaskInfo>, n: nat, now: u64)
    requires
        n <= list.len(),
    ensures
        ({
            let after = with_listed_rows(state, list, n, now);
            &&& after.procs.len() == state.procs.len()
            &&& forall|i: int|
                0 <= i < state.procs.len() ==> (#[trigger] after.procs[i]).id == state.procs[i].id
                    && after.procs[i].status == state.procs[i].status && after.procs[i].vt
                    == state.procs[i].vt
        }),
    decreases n,
{
    if n > 0 {
        lemma_rows_keep(state, list, (n - 1) as nat, now);
        let before = with_listed_rows(state, list, (n - 1) as nat, now);
        let after = with_listed_rows(state, list, n, now);
        assert forall|i: int| 0 <= i < state.procs.len() implies (#[trigger] after.procs[i]).id
            == state.procs[i].id && after.procs[i].status == state.procs[i].status
            && after.procs[i].vt == state.procs[i].vt by {
            assert(before.procs[i].id == state.procs[i].id);
        }
    }
}

/// Every task of the top level that is listed is shown, and what is shown was
/// shown before or is listed.
pub proof fn listed_tasks_are_shown(
    core: CoreModel,
    config: Config,
    list: Seq<TaskInfo>,
    now: u64,
    k: int,
    i: int,
)
    ensures
        ({
            let after = refreshed(core, config, list, now).state.procs;
            let old_procs = core.state.procs;
            &&& 0 <= k < list.len() && is_process(list[k]) ==> is_shown(after, list[k].id)
            &&& 0 <= i < old_procs.len() ==> after.len() >= old_procs.len() && after[i].id
                == old_procs[i].id
            &&& old_procs.len() <= i < after.len() ==> comes_from(after[i], list)
        }),
{
    let mid = with_listed_procs(core, config, list, list.len());
    lemma_listed(core, config, list, list.len());
    lemma_rows_keep(mid.state, list, list.len(), now);
    let after = refreshed(core, config, list, now).state.procs;
    if 0 <= k < list.len() && is_process(list[k]) {
        assert(is_shown(mid.state.procs, list[k].id));
        let j = choose|j: int|
            0 <= j < mid.state.procs.len() && (#[trigger] mid.state.procs[j]).id == list[k].id;
        assert(after[j].id == mid.state.procs[j].id);
    }
    if 0 <= i < core.state.procs.len() {
        assert(mid.state.procs.take(core.state.procs.len() as int)[i] == mid.state.procs[i]);
        assert(after[i].id == mid.state.procs[i].id);
    }
    if core.state.procs.len() <= i < after.len() {
        let m = mid.state.procs[i];
        assert(comes_from(m, list));
        assert(after[i].id == m.id);
        let q = choose|q: int|
            0 <= q < list.len() && is_process(#[trigger] list[q]) && list[q].id == m.id
                && list[q].vt == Some(m.vt) && list[q].status == m.status;
        assert(list[q].id == after[i].id);
    }
}

/// The name with a number behind it.
pub open spec fn with_number(base: Seq<char>, n: nat) -> Seq<char> {
    base + seq!['-'] + decimal(n)
}

proof fn lemma_first_free(
    procs: Seq<ProcModel>,
    base: Seq<char>,
    but: Option<TaskId>,
    n: nat,
    left: nat,
    m: nat,
)
    requires
        n <= m <= n + left,
        is_free(procs, with_number(base, m), but),
        forall|k: nat| n <= k < m ==> !is_free(procs, #[trigger] with_number(base, k), but),
    ensures
        free_from(procs, base, but, n, left) == with_number(base, m),
    decreases left,
{
    reveal_strlit("-");
    assert("-"@ =~= seq!['-']);
    assert(crate::console::names::numbered(base, n) == with_number(base, n));
    lemma_taken(procs, with_number(base, n), but);
    if n < m {
        assert(!is_free(procs, with_number(base, n), but));
        lemma_first_free(procs, base, but, n + 1, (left - 1) as nat, m);
    }
}

proof fn lemma_taken(procs: Seq<ProcModel>, name: Seq<char>, but: Option<TaskId>)
    ensures
        taken(procs, name, but) == !is_free(procs, name, but),
{
    if taken(procs, name, but) {
        let i = choose|i: int|
            0 <= i < procs.len() && Some((#[trigger] procs[i]).id) != but && procs[i].name == name;
        assert(procs[i].name == name);
    }
}

/// A name that another process has gets a number, the lowest from two on that
/// makes it a name of its own.
pub proof fn numbers_make_names_unique(
    procs: Seq<ProcModel>,
    base: Seq<char>,
    but: Option<TaskId>,
    m: nat,
)
    requires
        !is_free(procs, base, but),
        2 <= m <= 2 + numbers_tried(procs),
        is_free(procs, with_number(base, m), but),
        forall|k: nat| 2 <= k < m ==> !is_free(procs, #[trigger] with_number(base, k), but),
    ensures
        unique_name(procs, base, but) == with_number(base, m),
{
    lemma_taken(procs, base, but);
    lemma_first_free(procs, base, but, 2, numbers_tried(procs), m);
}

/// The path of a process ends with its name, and with its number behind it
/// where that name is in use; a slash becomes an underscore.
pub proof fn segment_is_the_name(name: Seq<char>, id: TaskId, used: Set<Seq<char>>)
    requires
        name.len() > 0,
        !name.contains('/'),
    ensures
        !used.contains(name) ==> segment_of(name, id, used) == name,
        used.contains(name) ==> segment_of(name, id, used) == with_number(name, id.0 as nat),
{
    reveal_strlit("-");
    assert("-"@ =~= seq!['-']);
    assert(crate::kernel::path::as_component(name) =~= name) by {
        assert forall|i: int| 0 <= i < name.len() implies name[i] != '/' by {
            assert(name.contains(name[i]));
        }
    }
}

/// The loop ends when it is told to or when the console quits and nothing is up
/// any more; else it goes on and draws if there is something new to see.
pub proof fn loop_goes_on_until_told(t: Turn)
    ensures
        t.act is ForceQuit ==> next_of(t) == Next::Leave,
        t.core.state.quitting && t.core.state.all_down() ==> next_of(t) == Next::Leave,
        !t.core.state.quitting && t.act is Render ==> next_of(t) == (Next::Stay { render: true }),
        !t.core.state.quitting && t.act is Skip ==> next_of(t) == (Next::Stay { render: false }),
        !t.core.state.all_down() && !(t.act is ForceQuit) ==> next_of(t) == (Next::Stay {
            render: t.act is Render,
        }),
{
    match t.act {
        LoopAction::Render => {},
        LoopAction::Skip => {},
        LoopAction::ForceQuit => {},
    }
}

/// Every process is told the size of the screen.
pub proof fn every_process_gets_the_size(core: CoreModel, size: Size, i: int)
    requires
        0 <= i < core.state.procs.len(),
    ensures
        resizes(core, size).len() == core.state.procs.len(),
        resizes(core, size)[i] == EffectModel::Task(
            core.state.procs[i].id,
            TaskOpModel::Screen(
                TaskScreenCmd::Resize {
                    size: Winsize::of_cells(size.width, size.height),
                    observer_id: core.task_id,
                },
            ),
        ),
        Winsize::of_cells(size.width, size.height).x == size.width,
        Winsize::of_cells(size.width, size.height).y == size.height,
{
}

/// The screen of a process is what the list, the keys and the frame leave of the
/// terminal.
pub proof fn screen_is_what_is_left(core: CoreModel, config: Config)
    requires
        !(core.state.scope is TermZoom),
        core.screen_size.width >= config.proc_list_width + 2,
        core.screen_size.height >= 5,
    ensures
        term_size(core, config).width == core.screen_size.width - config.proc_list_width - 2,
        term_size(core, config).height == core.screen_size.height - 2 - (if core.state.hide_keymap {
            0int
        } else {
            3int
        }),
{
}

} // verus!
