//! What the console shows of what happens to the tasks.

use crate::config::config::Config;
use crate::console::action_laws::tasks_differ;
use crate::console::effect::{EffectModel, TaskOpModel};
use crate::console::main_loop::term_size;
use crate::console::notify::{
    all_finished, notified, screen_notified, FramedScreenNotify, TaskNotify,
};
use crate::console::proc::child::{status_shown, ChildModel, ChildStatus};
use crate::console::proc::view::{child_index, ProcModel};
use crate::console::state::{lemma_proc_index, proc_index, StateModel};
use crate::console::turn::{step, CoreModel, Turn};
use crate::kernel::path::{path_name, TaskPath};
use crate::kernel::screen_cmd::TaskScreenCmd;
use crate::kernel::task::{TaskId, TaskStatus};
use crate::term::screen::SharedVt;
use crate::text::decimal;
use vstd::prelude::*;

verus! {

/// Process `i` is replaced, and everything else is as it was.
pub open spec fn only_changes(t: Turn, after: Turn, i: int, proc: ProcModel) -> bool {
    after.core == (CoreModel {
        state: StateModel { procs: t.core.state.procs.update(i, proc), ..t.core.state },
        ..t.core
    })
}

/// The process of a task whose status changes shows the new status, and no
/// other process changes.
pub proof fn status_is_that_of_the_task(
    t: Turn,
    config: Config,
    i: int,
    status: TaskStatus,
    code: u32,
    now: u64,
)
    requires
        tasks_differ(t.core.state.procs),
        0 <= i < t.core.state.procs.len(),
    ensures
        ({
            let proc = t.core.state.procs[i];
            let id = proc.id;
            &&& only_changes(
                t,
                notified(t, config, id, TaskNotify::Started, now),
                i,
                ProcModel { status: TaskStatus::Running, ..proc },
            )
            &&& !(status is Completed) || config.on_all_finished is None ==> only_changes(
                t,
                notified(t, config, id, TaskNotify::StatusChanged(status), now),
                i,
                ProcModel { status, ..proc },
            )
            &&& config.on_all_finished is None ==> only_changes(
                t,
                notified(t, config, id, TaskNotify::Stopped(code), now),
                i,
                ProcModel { status: TaskStatus::Exited(code), ..proc },
            )
        }),
{
    reveal(all_finished);
    lemma_found(t.core.state.procs, i);
}

proof fn lemma_found(procs: Seq<ProcModel>, i: int)
    requires
        tasks_differ(procs),
        0 <= i < procs.len(),
    ensures
        proc_index(procs, procs[i].id) == Some(i),
{
    lemma_proc_index(procs, procs[i].id);
    if let Some(k) = proc_index(procs, procs[i].id) {
        if k < i {
            assert(procs[k].id != procs[i].id);
        } else if i < k {
            assert(procs[i].id != procs[k].id);
        }
    }
}

/// The processes are down, whatever the task of process `i` was before.
pub open spec fn rest_is_down(procs: Seq<ProcModel>, i: int) -> bool {
    forall|j: int|
        0 <= j < procs.len() && j != i ==> match (#[trigger] procs[j]).status {
            TaskStatus::Starting | TaskStatus::Running | TaskStatus::Unhealthy => false,
            _ => true,
        }
}

/// When the last process that was up ends, what is configured for that moment
/// is done; while another one is up, it is not.
pub proof fn end_of_the_last_is_acted_on(t: Turn, config: Config, i: int, code: u32, now: u64)
    requires
        tasks_differ(t.core.state.procs),
        0 <= i < t.core.state.procs.len(),
        config.on_all_finished is Some,
    ensures
        ({
            let proc = t.core.state.procs[i];
            let ended = ProcModel { status: TaskStatus::Exited(code), ..proc };
            let done = ProcModel { status: TaskStatus::Completed, ..proc };
            let exited = notified(t, config, proc.id, TaskNotify::Stopped(code), now);
            let completed = notified(
                t,
                config,
                proc.id,
                TaskNotify::StatusChanged(TaskStatus::Completed),
                now,
            );
            let with = |p: ProcModel|
                t.with_state(
                    StateModel { procs: t.core.state.procs.update(i, p), ..t.core.state },
                );
            if rest_is_down(t.core.state.procs, i) {
                &&& exited.core == step(with(ended), config, config.on_all_finished->0).core
                &&& completed.core == step(with(done), config, config.on_all_finished->0).core
            } else {
                &&& exited.core == with(ended).core
                &&& completed.core == with(done).core
            }
        }),
{
    let procs = t.core.state.procs;
    let ended = ProcModel { status: TaskStatus::Exited(code), ..procs[i] };
    let done = ProcModel { status: TaskStatus::Completed, ..procs[i] };
    let a = StateModel { procs: procs.update(i, ended), ..t.core.state };
    let b = StateModel { procs: procs.update(i, done), ..t.core.state };
    lemma_ends(t, config, i, code, now);
    lemma_all_down(t.core.state, i, ended);
    lemma_all_down(t.core.state, i, done);
    lemma_acted_on(t.with_state(a), config);
    lemma_acted_on(t.with_state(b), config);
}

proof fn lemma_ends(t: Turn, config: Config, i: int, code: u32, now: u64)
    requires
        tasks_differ(t.core.state.procs),
        0 <= i < t.core.state.procs.len(),
    ensures
        ({
            let proc = t.core.state.procs[i];
            let ended = ProcModel { status: TaskStatus::Exited(code), ..proc };
            let done = ProcModel { status: TaskStatus::Completed, ..proc };
            let with = |p: ProcModel|
                t.with_state(
                    StateModel { procs: t.core.state.procs.update(i, p), ..t.core.state },
                );
            &&& notified(t, config, proc.id, TaskNotify::Stopped(code), now) == all_finished(
                with(ended),
                config,
            ).rendered()
            &&& notified(
                t,
                config,
                proc.id,
                TaskNotify::StatusChanged(TaskStatus::Completed),
                now,
            ) == all_finished(with(done), config).rendered()
        }),
{
    lemma_found(t.core.state.procs, i);
}

proof fn lemma_all_down(state: StateModel, i: int, proc: ProcModel)
    requires
        0 <= i < state.procs.len(),
        proc.status is Exited || proc.status is Completed,
    ensures
        (StateModel { procs: state.procs.update(i, proc), ..state }).all_down() == rest_is_down(
            state.procs,
            i,
        ),
{
    let procs = state.procs;
    let a = StateModel { procs: procs.update(i, proc), ..state };
    if rest_is_down(procs, i) {
        assert forall|j: int| 0 <= j < a.procs.len() implies !(
        #[trigger] a.procs[j]).status.up() by {
            if j != i {
                assert(a.procs[j] == procs[j]);
            }
        }
    } else {
        let j = choose|j: int|
            0 <= j < procs.len() && j != i && !(match (#[trigger] procs[j]).status {
                TaskStatus::Starting | TaskStatus::Running | TaskStatus::Unhealthy => false,
                _ => true,
            });
        assert(a.procs[j] == procs[j]);
        assert(a.procs[j].status.up());
    }
}

proof fn lemma_acted_on(t: Turn, config: Config)
    requires
        config.on_all_finished is Some,
    ensures
        t.core.state.all_down() ==> all_finished(t, config) == step(
            t,
            config,
            config.on_all_finished->0,
        ),
        !t.core.state.all_down() ==> all_finished(t, config) == t,
{
    reveal(all_finished);
}

/// A task that is gone is shown no more; all the others stay.
pub proof fn removed_task_is_gone(t: Turn, config: Config, id: TaskId, p: ProcModel, now: u64)
    ensures
        ({
            let after = notified(t, config, id, TaskNotify::Removed, now).core;
            &&& after.state.procs.contains(p) <==> t.core.state.procs.contains(p) && p.id != id
            &&& after.out == t.core.out
            &&& after.state == (StateModel { procs: after.state.procs, ..t.core.state })
        }),
{
    let procs = t.core.state.procs;
    let keep = |q: ProcModel| q.id != id;
    let left = procs.filter(keep);
    if procs.contains(p) && keep(p) {
        let i = choose|i: int| 0 <= i < procs.len() && procs[i] == p;
        procs.lemma_filter_contains(keep, i);
    }
    if left.contains(p) {
        let k = choose|k: int| 0 <= k < left.len() && left[k] == p;
        procs.lemma_filter_pred(keep, k);
        procs.lemma_filter_contains_rev(keep, p);
    }
}

/// A task of the top level is shown last in the list, under its label, or else
/// the last part of its path, or else its number, and its screen is observed at
/// the size that there is for it. A task that is shown already is not shown
/// twice.
pub proof fn new_task_is_shown(
    t: Turn,
    config: Config,
    id: TaskId,
    path: Option<TaskPath>,
    label: Option<String>,
    status: TaskStatus,
    vt: SharedVt,
    now: u64,
)
    requires
        path is Some ==> crate::kernel::path::path_depth(path->0@) < 2,
    ensures
        ({
            let procs = t.core.state.procs;
            let after = notified(
                t,
                config,
                id,
                TaskNotify::Added { path, label, status, vt: Some(vt) },
                now,
            ).core;
            if exists|i: int| 0 <= i < procs.len() && (#[trigger] procs[i]).id == id {
                after == t.core
            } else {
                let shown = after.state.procs.last();
                &&& after.state.procs == procs.push(shown)
                &&& shown.id == id
                &&& shown.status == status
                &&& shown.vt == vt
                &&& !shown.expanded
                &&& !shown.changed
                &&& shown.focused_child is None
                &&& label matches Some(l) ==> shown.name == l@
                &&& label is None && path is Some ==> shown.name == path_name(path->0@)
                &&& label is None && path is None ==> shown.name == "proc-"@ + decimal(
                    id.0 as nat,
                )
                &&& after.out.len() == t.core.out.len() + 1
                &&& after.out == t.core.out.push(after.out.last())
                &&& match after.out.last() {
                    EffectModel::Task(
                        to,
                        TaskOpModel::Screen(TaskScreenCmd::Observe { size, observer_id }),
                    ) => {
                        &&& to == id
                        &&& observer_id == t.core.task_id
                        &&& size.x == term_size(t.core, config).width
                        &&& size.y == term_size(t.core, config).height
                    },
                    _ => false,
                }
            }
        }),
{
    lemma_proc_index(t.core.state.procs, id);
}

/// A process whose label changes is shown under the new one.
pub proof fn label_is_the_name(t: Turn, config: Config, i: int, label: String, now: u64)
    requires
        tasks_differ(t.core.state.procs),
        0 <= i < t.core.state.procs.len(),
    ensures
        ({
            let proc = t.core.state.procs[i];
            only_changes(
                t,
                notified(t, config, proc.id, TaskNotify::LabelChanged(Some(label)), now),
                i,
                ProcModel { name: label@, ..proc },
            )
        }),
{
    lemma_found(t.core.state.procs, i);
}

/// What a process prints is news, unless the process is looked at.
pub proof fn output_is_news_unless_seen(t: Turn, i: int)
    requires
        tasks_differ(t.core.state.procs),
        0 <= i < t.core.state.procs.len(),
    ensures
        ({
            let proc = t.core.state.procs[i];
            let after = screen_notified(t, FramedScreenNotify::Render { task_id: proc.id });
            only_changes(
                t,
                after,
                i,
                if i == t.core.state.list.selected {
                    proc
                } else {
                    ProcModel { changed: true, ..proc }
                },
            )
        }),
{
    let procs = t.core.state.procs;
    lemma_found(procs, i);
    assert(procs.update(i, procs[i]) =~= procs);
    let sel = t.core.state.list.selected;
    if sel < procs.len() && sel != i {
        if sel < i {
            assert(procs[sel as int].id != procs[i].id);
        } else {
            assert(procs[i].id != procs[sel as int].id);
        }
    }
}

/// A process that is in copy mode shows the copy, and its own screen again
/// afterwards.
pub proof fn copy_is_shown_while_copying(t: Turn, i: int, vt: Option<SharedVt>)
    requires
        tasks_differ(t.core.state.procs),
        0 <= i < t.core.state.procs.len(),
        t.core.state.procs[i].focused_child is None,
    ensures
        ({
            let proc = t.core.state.procs[i];
            let after = screen_notified(
                t,
                FramedScreenNotify::CopyPresent { task_id: proc.id, vt },
            );
            &&& only_changes(t, after, i, ProcModel { present: vt, ..proc })
            &&& after.core.state.procs[i].shown_vt() == (match vt {
                Some(copy) => copy,
                None => proc.vt,
            })
        }),
{
    lemma_found(t.core.state.procs, i);
}

/// A text that is copied goes to the clipboard as it is.
pub proof fn copied_text_goes_to_the_clipboard(t: Turn, text: String)
    ensures
        screen_notified(t, FramedScreenNotify::Yank { text }).core == (CoreModel {
            out: t.core.out.push(EffectModel::Copy(text@)),
            ..t.core
        }),
{
}

/// A row tells a run that went well from one that failed, one that is going on
/// and none at all: it shows the code of an exit, zero for success and one for
/// a check that fails.
pub proof fn row_shows_the_run(row: ChildModel, code: u32, now: u64)
    ensures
        status_shown(TaskStatus::NotStarted) == ChildStatus::Idle,
        status_shown(TaskStatus::Starting) == ChildStatus::Running,
        status_shown(TaskStatus::Running) == ChildStatus::Running,
        status_shown(TaskStatus::Completed) == ChildStatus::LastExit(0),
        status_shown(TaskStatus::Unhealthy) == ChildStatus::LastExit(1),
        code <= i32::MAX ==> status_shown(TaskStatus::Exited(code)) == ChildStatus::LastExit(
            code as i32,
        ),
        status_shown(TaskStatus::Exited(code)) == ChildStatus::LastExit(0) <==> code == 0,
        status_shown(TaskStatus::Exited(code)) matches ChildStatus::LastExit(c) && (c == code || c
            == code - 0x1_0000_0000),
        row.with_status(status_shown(TaskStatus::Exited(code)), now).shown(now) == status_shown(
            TaskStatus::Exited(code),
        ),
{
}

/// The row of task `id` is number `k` below process `i`, and it is the only one
/// of that task.
pub open spec fn row_is(procs: Seq<ProcModel>, id: TaskId, i: int, k: int) -> bool {
    &&& 0 <= i < procs.len()
    &&& 0 <= k < procs[i].children.len()
    &&& procs[i].children[k].task_id == Some(id)
    &&& forall|j: int| 0 <= j < procs.len() ==> (#[trigger] procs[j]).id != id
    &&& forall|j: int, m: int|
        0 <= j < procs.len() && 0 <= m < procs[j].children.len() && (j != i || m != k)
            ==> (#[trigger] procs[j].children[m]).task_id != Some(id)
}

proof fn lemma_child_index(children: Seq<ChildModel>, id: TaskId)
    ensures
        match child_index(children, id) {
            Some(k) => 0 <= k < children.len() && children[k].task_id == Some(id),
            None => forall|m: int|
                0 <= m < children.len() ==> (#[trigger] children[m]).task_id != Some(id),
        },
    decreases children.len(),
{
    if children.len() > 0 && children[0].task_id != Some(id) {
        let rest = children.skip(1);
        lemma_child_index(rest, id);
        assert forall|m: int| 0 < m < children.len() implies children[m] == rest[m - 1] by {}
    }
}

proof fn lemma_owner(procs: Seq<ProcModel>, id: TaskId, i: int, k: int, n: nat)
    requires
        row_is(procs, id, i, k),
        n <= i,
    ensures
        crate::console::notify::owner_index(procs, id, n) == Some(i),
        child_index(procs[i].children, id) == Some(k),
    decreases procs.len() - n,
{
    lemma_child_index(procs[i].children, id);
    match child_index(procs[i].children, id) {
        Some(m) => {
            if m != k {
                assert(procs[i].children[m].task_id != Some(id));
            }
        },
        None => {
            assert(procs[i].children[k].task_id != Some(id));
        },
    }
    if n < i {
        lemma_child_index(procs[n as int].children, id);
        if let Some(m) = child_index(procs[n as int].children, id) {
            assert(procs[n as int].children[m].task_id != Some(id));
        }
        lemma_owner(procs, id, i, k, n + 1);
    }
}

/// A hook or a check whose task changes shows that in its row, and nothing else
/// changes.
pub proof fn row_follows_its_task(
    t: Turn,
    config: Config,
    id: TaskId,
    i: int,
    k: int,
    code: u32,
    now: u64,
)
    requires
        row_is(t.core.state.procs, id, i, k),
    ensures
        ({
            let procs = t.core.state.procs;
            let row = procs[i].children[k];
            let runs = notified(t, config, id, TaskNotify::Started, now);
            let ends = notified(t, config, id, TaskNotify::Stopped(code), now);
            let with = |r: ChildModel|
                ProcModel { children: procs[i].children.update(k, r), ..procs[i] };
            &&& only_changes(t, runs, i, with(runs.core.state.procs[i].children[k]))
            &&& runs.core.state.procs[i].children[k].status == ChildStatus::Running
            &&& only_changes(t, ends, i, with(ends.core.state.procs[i].children[k]))
            &&& ends.core.state.procs[i].children[k].status == status_shown(
                TaskStatus::Exited(code),
            )
            &&& ends.core.state.procs[i].children[k].name == row.name
            &&& ends.core.state.procs[i].children[k].kind == row.kind
        }),
{
    let procs = t.core.state.procs;
    lemma_proc_index(procs, id);
    lemma_owner(procs, id, i, k, 0);
    let row = procs[i].children[k];
    let a = row.with_status(status_shown(TaskStatus::Running), now);
    let b = row.with_status(status_shown(TaskStatus::Exited(code)), now);
    assert(procs[i].children.update(k, a)[k] == a);
    assert(procs[i].children.update(k, b)[k] == b);
}

} // verus!
