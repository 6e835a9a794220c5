//! What is set up for the rows of a process.

use crate::config::health::{HealthCheckModel, HookEvent, HookSetModel};
use crate::kernel::path::valid_path;
use crate::kernel::task::TaskId;
use crate::mprocs::proc::children::{ChildKind, ProcChildModel};
use crate::mprocs::proc::launch::{hook_terminals, path_below, ChildTaskModel, Launch};
use crate::task::hook_map::HookMap;
use crate::term::screen::SharedVt;
use crate::text::decimal;
use vstd::prelude::*;

verus! {

/// A row of this kind and name, with its own task and terminal, is there.
pub open spec fn has_row(
    l: Launch,
    id: TaskId,
    kind: ChildKind,
    name: Seq<char>,
    vt: SharedVt,
    path: Option<Seq<char>>,
) -> bool {
    exists|k: int|
        0 <= k < l.rows.len() && k < l.tasks.len() && (#[trigger] l.rows[k])
            == ProcChildModel::idle(id, kind, name, vt) && l.tasks[k] == (ChildTaskModel {
            id,
            path,
            vt,
        })
}

/// There are as many tasks as rows.
pub open spec fn rows_have_tasks(l: Launch) -> bool {
    l.rows.len() == l.tasks.len()
}

/// The row of an event is there exactly if the event has a hook, and runs as the
/// task that is kept for the event.
pub open spec fn hook_has_its_row(
    l: Launch,
    parent: Option<Seq<char>>,
    hook_vts: HookMap<SharedVt>,
    event: HookEvent,
) -> bool {
    &&& l.hook_task_ids.at(event) is Some <==> hook_vts.at(event) is Some
    &&& hook_vts.at(event) matches Some(vt) ==> has_row(
        l,
        l.hook_task_ids.at(event)->0,
        ChildKind::Hook(event),
        event.text(),
        vt,
        path_below(parent, "/hook/"@ + event.text()),
    )
}

proof fn lemma_other(
    l: Launch,
    parent: Option<Seq<char>>,
    hook_vts: HookMap<SharedVt>,
    event: HookEvent,
    other: HookEvent,
)
    requires
        event != other,
        rows_have_tasks(l),
        hook_has_its_row(l, parent, hook_vts, event),
    ensures
        rows_have_tasks(l.with_hook(parent, hook_vts, other)),
        hook_has_its_row(l.with_hook(parent, hook_vts, other), parent, hook_vts, event),
{
    if let Some(vt) = hook_vts.at(event) {
        let id = l.hook_task_ids.at(event)->0;
        let row = ProcChildModel::idle(id, ChildKind::Hook(event), event.text(), vt);
        let path = path_below(parent, "/hook/"@ + event.text());
        let k = choose|k: int|
            0 <= k < l.rows.len() && k < l.tasks.len() && (#[trigger] l.rows[k]) == row
                && l.tasks[k] == (ChildTaskModel { id, path, vt });
        let next = l.with_hook(parent, hook_vts, other);
        assert(next.rows[k] == l.rows[k]);
        assert(next.tasks[k] == l.tasks[k]);
    }
}

proof fn lemma_own(
    l: Launch,
    parent: Option<Seq<char>>,
    hook_vts: HookMap<SharedVt>,
    event: HookEvent,
)
    requires
        rows_have_tasks(l),
        l.hook_task_ids.at(event) is None,
    ensures
        rows_have_tasks(l.with_hook(parent, hook_vts, event)),
        hook_has_its_row(l.with_hook(parent, hook_vts, event), parent, hook_vts, event),
{
    let next = l.with_hook(parent, hook_vts, event);
    if hook_vts.at(event) is Some {
        assert(next.rows.last() == next.rows[next.rows.len() - 1]);
    }
}

/// Every hook of a process has a row of its own, named after its event, with
/// its terminal and a task, and no other event has one.
pub proof fn every_hook_has_its_row(
    first_id: nat,
    parent: Option<Seq<char>>,
    hook_vts: HookMap<SharedVt>,
    event: HookEvent,
)
    ensures
        hook_has_its_row(
            Launch::start(first_id).with_hooks(parent, hook_vts),
            parent,
            hook_vts,
            event,
        ),
        rows_have_tasks(Launch::start(first_id).with_hooks(parent, hook_vts)),
{
    let l = Launch::start(first_id);
    let a = l.with_hook(parent, hook_vts, HookEvent::Started);
    let b = a.with_hook(parent, hook_vts, HookEvent::Running);
    let c = b.with_hook(parent, hook_vts, HookEvent::Unhealthy);
    let d = c.with_hook(parent, hook_vts, HookEvent::Stopped);
    match event {
        HookEvent::Started => {
            lemma_own(l, parent, hook_vts, event);
            lemma_other(a, parent, hook_vts, event, HookEvent::Running);
            lemma_other(b, parent, hook_vts, event, HookEvent::Unhealthy);
            lemma_other(c, parent, hook_vts, event, HookEvent::Stopped);
            lemma_other(d, parent, hook_vts, event, HookEvent::Failed);
        },
        HookEvent::Running => {
            lemma_own(a, parent, hook_vts, event);
            lemma_other(b, parent, hook_vts, event, HookEvent::Unhealthy);
            lemma_other(c, parent, hook_vts, event, HookEvent::Stopped);
            lemma_other(d, parent, hook_vts, event, HookEvent::Failed);
        },
        HookEvent::Unhealthy => {
            lemma_own(b, parent, hook_vts, event);
            lemma_other(c, parent, hook_vts, event, HookEvent::Stopped);
            lemma_other(d, parent, hook_vts, event, HookEvent::Failed);
        },
        HookEvent::Stopped => {
            lemma_own(c, parent, hook_vts, event);
            lemma_other(d, parent, hook_vts, event, HookEvent::Failed);
        },
        HookEvent::Failed => {
            lemma_own(d, parent, hook_vts, event);
        },
    }
}

/// Check number `k` has its row behind the first `h` ones.
pub open spec fn check_has_its_row(
    l: Launch,
    parent: Option<Seq<char>>,
    defs: Seq<HealthCheckModel>,
    first_id: nat,
    first_vt: nat,
    h: int,
    k: int,
) -> bool {
    let (id, vt) = (TaskId((first_id + k) as usize), SharedVt((first_vt + k) as usize));
    let title = if defs[k].name.len() > 0 {
        defs[k].name
    } else {
        "check["@ + decimal(k as nat) + "]"@
    };
    &&& l.check_task_ids[k] == id
    &&& l.rows[h + k] == ProcChildModel::idle(id, ChildKind::Check(k as usize), title, vt)
    &&& l.tasks[h + k] == (ChildTaskModel {
        id,
        path: path_below(parent, "/check/"@ + title),
        vt,
    })
}

/// Every check of a process has a row of its own behind those of the hooks, in
/// the order of the checks, called by its name or by its number, with the next
/// task and the next terminal.
pub proof fn every_check_has_its_row(
    l: Launch,
    parent: Option<Seq<char>>,
    defs: Seq<HealthCheckModel>,
    first_vt: nat,
    n: nat,
)
    requires
        n <= defs.len(),
        rows_have_tasks(l),
        l.check_task_ids.len() == 0,
    ensures
        ({
            let all = l.with_checks(parent, defs, first_vt, n);
            &&& rows_have_tasks(all)
            &&& all.rows.len() == l.rows.len() + n
            &&& all.check_task_ids.len() == n
            &&& all.next_id == l.next_id + n
            &&& all.hook_task_ids == l.hook_task_ids
            &&& l.rows == all.rows.take(l.rows.len() as int)
            &&& forall|k: int|
                0 <= k < n ==> #[trigger] check_has_its_row(
                    all,
                    parent,
                    defs,
                    l.next_id,
                    first_vt,
                    l.rows.len() as int,
                    k,
                )
        }),
    decreases n,
{
    let all = l.with_checks(parent, defs, first_vt, n);
    let h = l.rows.len() as int;
    if n > 0 {
        every_check_has_its_row(l, parent, defs, first_vt, (n - 1) as nat);
        let before = l.with_checks(parent, defs, first_vt, (n - 1) as nat);
        assert(all.rows.take(h) =~= before.rows.take(h));
        assert forall|k: int| 0 <= k < n implies #[trigger] check_has_its_row(
            all,
            parent,
            defs,
            l.next_id,
            first_vt,
            h,
            k,
        ) by {
            if k < n - 1 {
                assert(check_has_its_row(before, parent, defs, l.next_id, first_vt, h, k));
            }
        }
    } else {
        assert(all.rows.take(h) =~= l.rows);
    }
}

/// The path of a row is that of the process with the kind and the name of the
/// row behind it.
pub proof fn row_stands_below_its_process(p: Seq<char>, tail: Seq<char>)
    ensures
        path_below(None, tail) is None,
        valid_path(p + tail) ==> path_below(Some(p), tail) == Some(p + tail),
        !valid_path(p + tail) ==> path_below(Some(p), tail) is None,
{
}

/// Every hook has a terminal of its own, and no other event has one.
pub proof fn every_hook_has_its_terminal(
    hooks: HookSetModel,
    first: nat,
    e: HookEvent,
    f: HookEvent,
)
    requires
        first + 5 <= usize::MAX,
    ensures
        ({
            let (vts, end) = hook_terminals(hooks, first);
            &&& vts.at(e) is Some <==> hooks.at(e) is Some
            &&& vts.at(e) matches Some(vt) ==> first <= vt.0 < end
            &&& e != f && vts.at(e) is Some && vts.at(f) is Some ==> vts.at(e) != vts.at(f)
            &&& first <= end <= first + 5
        }),
{
}

} // verus!
