//! What is set up for the checks and the hooks of a process.

use crate::config::health::{HealthCheckModel, HookEvent, HookSetModel};
use crate::kernel::task::TaskId;
use crate::task::proc_task::{check_segment, hook_segment, PendingModel, SetUp};
use crate::term::screen::SharedVt;
use vstd::prelude::*;

verus! {

/// A task of this number, with this terminal and path, is to be registered.
pub open spec fn registers(up: SetUp, id: TaskId, vt: SharedVt, path: Seq<char>) -> bool {
    exists|k: int|
        0 <= k < up.children.len() && (#[trigger] up.children[k]).id == id && up.children[k].vt
            == vt && up.children[k].path == path
}

proof fn lemma_hook_keeps(
    up: SetUp,
    p: Seq<char>,
    hooks: HookSetModel,
    event: HookEvent,
    id: TaskId,
    vt: SharedVt,
    path: Seq<char>,
)
    requires
        registers(up, id, vt, path),
    ensures
        registers(up.with_hook(Some(p), hooks, event), id, vt, path),
{
    let k = choose|k: int|
        0 <= k < up.children.len() && (#[trigger] up.children[k]).id == id && up.children[k].vt
            == vt && up.children[k].path == path;
    let next = up.with_hook(Some(p), hooks, event);
    assert(next.children[k] == up.children[k]);
}

proof fn lemma_hook_registered(up: SetUp, p: Seq<char>, hooks: HookSetModel, event: HookEvent)
    requires
        p.len() > 1,
        hooks.at(event) is Some,
    ensures
        ({
            let next = up.with_hook(Some(p), hooks, event);
            &&& next.hook_task_ids.at(event) is Some
            &&& next.hook_vts.at(event) is Some
            &&& registers(
                next,
                next.hook_task_ids.at(event)->0,
                next.hook_vts.at(event)->0,
                p.push('/') + hook_segment(event),
            )
        }),
{
    let next = up.with_hook(Some(p), hooks, event);
    assert(next.children.last() == next.children[next.children.len() - 1]);
}

/// The hook of an event is set up exactly if there is one.
pub open spec fn hook_is_set_up(
    up: SetUp,
    p: Seq<char>,
    hooks: HookSetModel,
    event: HookEvent,
) -> bool {
    &&& up.hook_task_ids.at(event) is Some <==> hooks.at(event) is Some
    &&& up.hook_vts.at(event) is Some <==> hooks.at(event) is Some
    &&& hooks.at(event) is Some ==> registers(
        up,
        up.hook_task_ids.at(event)->0,
        up.hook_vts.at(event)->0,
        p.push('/') + hook_segment(event),
    )
}

proof fn lemma_other_hook(
    up: SetUp,
    p: Seq<char>,
    hooks: HookSetModel,
    event: HookEvent,
    other: HookEvent,
)
    requires
        event != other,
        hook_is_set_up(up, p, hooks, event),
    ensures
        hook_is_set_up(up.with_hook(Some(p), hooks, other), p, hooks, event),
{
    if hooks.at(event) is Some {
        lemma_hook_keeps(
            up,
            p,
            hooks,
            other,
            up.hook_task_ids.at(event)->0,
            up.hook_vts.at(event)->0,
            p.push('/') + hook_segment(event),
        );
    }
}

proof fn lemma_own_hook(up: SetUp, p: Seq<char>, hooks: HookSetModel, event: HookEvent)
    requires
        p.len() > 1,
        up.hook_task_ids.at(event) is None,
        up.hook_vts.at(event) is None,
    ensures
        hook_is_set_up(up.with_hook(Some(p), hooks, event), p, hooks, event),
{
    if hooks.at(event) is Some {
        lemma_hook_registered(up, p, hooks, event);
    }
}

/// Every hook of a process that has a path, and no other event, has a task and
/// a terminal; the task stands under the path of the process, with the name of
/// the event.
pub proof fn every_hook_has_its_task(up: SetUp, p: Seq<char>, hooks: HookSetModel, event: HookEvent)
    requires
        p.len() > 1,
        forall|e: HookEvent|
            (#[trigger] up.hook_task_ids.at(e)) is None && up.hook_vts.at(e) is None,
    ensures
        hook_is_set_up(up.with_hooks(Some(p), hooks), p, hooks, event),
{
    let a = up.with_hook(Some(p), hooks, HookEvent::Started);
    let b = a.with_hook(Some(p), hooks, HookEvent::Running);
    let c = b.with_hook(Some(p), hooks, HookEvent::Unhealthy);
    let d = c.with_hook(Some(p), hooks, HookEvent::Stopped);
    assert(up.hook_task_ids.at(event) is None);
    match event {
        HookEvent::Started => {
            lemma_own_hook(up, p, hooks, event);
            lemma_other_hook(a, p, hooks, event, HookEvent::Running);
            lemma_other_hook(b, p, hooks, event, HookEvent::Unhealthy);
            lemma_other_hook(c, p, hooks, event, HookEvent::Stopped);
            lemma_other_hook(d, p, hooks, event, HookEvent::Failed);
        },
        HookEvent::Running => {
            lemma_own_hook(a, p, hooks, event);
            lemma_other_hook(b, p, hooks, event, HookEvent::Unhealthy);
            lemma_other_hook(c, p, hooks, event, HookEvent::Stopped);
            lemma_other_hook(d, p, hooks, event, HookEvent::Failed);
        },
        HookEvent::Unhealthy => {
            lemma_own_hook(b, p, hooks, event);
            lemma_other_hook(c, p, hooks, event, HookEvent::Stopped);
            lemma_other_hook(d, p, hooks, event, HookEvent::Failed);
        },
        HookEvent::Stopped => {
            lemma_own_hook(c, p, hooks, event);
            lemma_other_hook(d, p, hooks, event, HookEvent::Failed);
        },
        HookEvent::Failed => {
            lemma_own_hook(d, p, hooks, event);
        },
    }
}

/// Check number `k` has the next terminal and the next task, labelled with its
/// name.
pub open spec fn check_is_set_up(
    up: SetUp,
    p: Seq<char>,
    defs: Seq<HealthCheckModel>,
    first_id: nat,
    first_vt: nat,
    k: int,
) -> bool {
    let (id, vt) = (TaskId((first_id + k) as usize), SharedVt((first_vt + k) as usize));
    &&& up.check_vts[k] == Some(vt)
    &&& up.check_task_ids[k] == Some(id)
    &&& up.children[k] == (PendingModel {
        id,
        path: p.push('/') + check_segment(k as nat),
        label: Some(defs[k].name),
        vt,
    })
}

/// Every check of a process that has a path has a task and a terminal, numbered
/// in the order of the checks; the task stands under the path of the process
/// and is labelled with the name of the check.
pub proof fn every_check_has_its_task(
    p: Seq<char>,
    defs: Seq<HealthCheckModel>,
    first_id: nat,
    first_vt: nat,
    n: nat,
)
    requires
        p.len() > 1,
        n <= defs.len(),
    ensures
        ({
            let up = SetUp::start(first_id, first_vt).with_checks(Some(p), defs, n);
            &&& up.children.len() == n
            &&& up.check_vts.len() == n
            &&& up.check_task_ids.len() == n
            &&& up.next_id == first_id + n
            &&& up.next_vt == first_vt + n
            &&& forall|e: HookEvent|
                (#[trigger] up.hook_task_ids.at(e)) is None && up.hook_vts.at(e) is None
            &&& forall|k: int|
                0 <= k < n ==> #[trigger] check_is_set_up(up, p, defs, first_id, first_vt, k)
        }),
    decreases n,
{
    if n > 0 {
        every_check_has_its_task(p, defs, first_id, first_vt, (n - 1) as nat);
        let before = SetUp::start(first_id, first_vt).with_checks(Some(p), defs, (n - 1) as nat);
        let up = SetUp::start(first_id, first_vt).with_checks(Some(p), defs, n);
        assert forall|e: HookEvent|
            (#[trigger] up.hook_task_ids.at(e)) is None && up.hook_vts.at(e) is None by {
            assert(before.hook_task_ids.at(e) is None);
        }
        assert forall|k: int| 0 <= k < n implies #[trigger] check_is_set_up(
            up,
            p,
            defs,
            first_id,
            first_vt,
            k,
        ) by {
            if k < n - 1 {
                assert(check_is_set_up(before, p, defs, first_id, first_vt, k));
            }
        }
    }
}

/// A process without a path has terminals for its checks and hooks, but no
/// tasks for them.
pub proof fn without_a_path_there_are_no_tasks(
    up: SetUp,
    defs: Seq<HealthCheckModel>,
    hooks: HookSetModel,
    n: nat,
    event: HookEvent,
)
    requires
        n <= defs.len(),
    ensures
        ({
            let checks = up.with_checks(None, defs, n);
            let all = checks.with_hooks(None, hooks);
            &&& checks.children == up.children
            &&& checks.next_id == up.next_id
            &&& checks.next_vt == up.next_vt + n
            &&& all.children == up.children
            &&& all.next_id == up.next_id
            &&& all.hook_task_ids == checks.hook_task_ids
            &&& hooks.at(event) is Some ==> all.hook_vts.at(event) is Some
        }),
    decreases n,
{
    if n > 0 {
        without_a_path_there_are_no_tasks(up, defs, hooks, (n - 1) as nat, event);
    }
}

} // verus!
