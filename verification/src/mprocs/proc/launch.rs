//! Setting a process up: its terminal, its rows and their tasks.

use crate::config::health::{
    check_views, HealthCheckDef, HealthCheckModel, HookEvent, HookSet, HookSetModel,
};
use crate::config::proc::env_view;
use crate::config::vars::{substitute_vars, substituted};
use crate::kernel::context::TaskContext;
use crate::kernel::path::{path_view, valid_path, TaskPath};
use crate::kernel::task::TaskId;
use crate::mprocs::config::ProcConfig;
use crate::mprocs::proc::children::{new_child_vt, ChildKind, ProcChild, ProcChildModel};
use crate::mprocs::proc::view::ProcView;
use crate::task::child_vt::{grew_by_child, lemma_terminals_added, terminals_added};
use crate::task::hook_map::HookMap;
use crate::task::hooks::EnvOverrides;
use crate::task::proc_task::opt_path;
use crate::term::rect::{Rect, Size};
use crate::term::screen::{SharedVt, VtTable};
use crate::text::{decimal, push_decimal};
use vstd::prelude::*;

verus! {

/// A task that only has a path and a terminal, to be registered.
pub struct ChildTask {
    pub id: TaskId,
    pub path: Option<TaskPath>,
    pub vt: SharedVt,
}

#[verifier::ext_equal]
pub struct ChildTaskModel {
    pub id: TaskId,
    pub path: Option<Seq<char>>,
    pub vt: SharedVt,
}

impl View for ChildTask {
    type V = ChildTaskModel;

    open spec fn view(&self) -> ChildTaskModel {
        ChildTaskModel { id: self.id, path: path_view(self.path), vt: self.vt }
    }
}

pub open spec fn tasks_view(tasks: Seq<ChildTask>) -> Seq<ChildTaskModel> {
    tasks.map_values(|t: ChildTask| t@)
}

pub open spec fn rows_view(children: Seq<ProcChild>) -> Seq<ProcChildModel> {
    children.map_values(|c: ProcChild| c@)
}

/// What a check is called: its name, or its number if it has none.
pub open spec fn check_title(def: HealthCheckModel, idx: nat) -> Seq<char> {
    if def.name.len() == 0 {
        "check["@ + decimal(idx) + "]"@
    } else {
        def.name
    }
}

pub fn healthcheck_display_name(def: &HealthCheckDef, idx: usize) -> (r: String)
    ensures
        r@ == check_title(def@, idx as nat),
{
    let cs = crate::text::to_chars(def.name.as_str());
    if cs.len() == 0 {
        let mut s = "check[".to_owned();
        push_decimal(&mut s, idx as u64);
        s.append("]");
        proof {
            assert(s@ =~= "check["@ + decimal(idx as nat) + "]"@);
        }
        s
    } else {
        def.name.clone()
    }
}

pub fn hook_event_label(event: HookEvent) -> (r: &'static str)
    ensures
        r@ == event.text(),
{
    event.label()
}

/// The environment of the hooks and checks of a process, with variables
/// replaced.
pub open spec fn env_of(cfg: ProcConfig) -> Seq<(Seq<char>, Option<Seq<char>>)> {
    match cfg.env {
        Some(env) => env@.map_values(
            |e: (String, Option<String>)|
                (
                    e.0@,
                    match e.1 {
                        Some(v) => Some(substituted(v@, cfg.vars@)),
                        None => None,
                    },
                ),
        ),
        None => Seq::empty(),
    }
}

pub fn build_env_overrides(cfg: &ProcConfig) -> (r: EnvOverrides)
    requires
        cfg.vars.wf(),
    ensures
        env_view(r@) == env_of(*cfg),
{
    let mut out: EnvOverrides = Vec::new();
    match &cfg.env {
        Some(env) => {
            let ghost want = env_of(*cfg);
            let mut i: usize = 0;
            while i < env.len()
                invariant
                    i <= env@.len(),
                    cfg.vars.wf(),
                    cfg.env == Some(*env),
                    want == env_of(*cfg),
                    out@.len() == i,
                    forall|k: int| 0 <= k < i ==> #[trigger] env_view(out@)[k] == want[k],
                decreases env@.len() - i,
            {
                let ghost before = out@;
                let value = match &env[i].1 {
                    Some(s) => Some(substitute_vars(s.as_str(), &cfg.vars)),
                    None => None,
                };
                out.push((env[i].0.clone(), value));
                proof {
                    assert forall|k: int| 0 <= k < i + 1 implies #[trigger] env_view(out@)[k]
                        == want[k] by {
                        if k < i {
                            assert(env_view(out@)[k] == env_view(before)[k]);
                        }
                    }
                }
                i += 1;
            }
            proof {
                assert(env_view(out@) =~= want);
            }
        },
        None => {
            proof {
                assert(env_view(out@) =~= Seq::empty());
            }
        },
    }
    out
}

/// A path below that of a process, if the text is one.
pub open spec fn path_below(parent: Option<Seq<char>>, tail: Seq<char>) -> Option<Seq<char>> {
    match parent {
        Some(p) => if valid_path(p + tail) {
            Some(p + tail)
        } else {
            None
        },
        None => None,
    }
}

fn join_below(parent: Option<&TaskPath>, kind: &str, label: &str) -> (r: Option<TaskPath>)
    ensures
        path_view(r) == path_below(opt_path(parent), kind@ + label@),
{
    match parent {
        Some(p) => {
            let mut text = p.as_str().to_owned();
            text.append(kind);
            text.append(label);
            proof {
                assert(text@ =~= p@ + (kind@ + label@));
            }
            TaskPath::new(text)
        },
        None => None,
    }
}

/// What was set up so far.
#[verifier::ext_equal]
pub struct Launch {
    pub next_id: nat,
    pub tasks: Seq<ChildTaskModel>,
    pub rows: Seq<ProcChildModel>,
    pub hook_task_ids: HookMap<TaskId>,
    pub check_task_ids: Seq<TaskId>,
}

impl Launch {
    pub open spec fn start(next_id: nat) -> Launch {
        Launch {
            next_id,
            tasks: Seq::empty(),
            rows: Seq::empty(),
            hook_task_ids: HookMap::none(),
            check_task_ids: Seq::empty(),
        }
    }

    pub open spec fn with_row(
        self,
        path: Option<Seq<char>>,
        kind: ChildKind,
        name: Seq<char>,
        vt: SharedVt,
    ) -> Launch {
        let id = TaskId(self.next_id as usize);
        Launch {
            next_id: self.next_id + 1,
            tasks: self.tasks.push(ChildTaskModel { id, path, vt }),
            rows: self.rows.push(ProcChildModel::idle(id, kind, name, vt)),
            ..self
        }
    }

    pub open spec fn with_hook(
        self,
        parent: Option<Seq<char>>,
        hook_vts: HookMap<SharedVt>,
        event: HookEvent,
    ) -> Launch {
        match hook_vts.at(event) {
            Some(vt) => Launch {
                hook_task_ids: self.hook_task_ids.with(event, TaskId(self.next_id as usize)),
                ..self.with_row(
                    path_below(parent, "/hook/"@ + event.text()),
                    ChildKind::Hook(event),
                    event.text(),
                    vt,
                )
            },
            None => self,
        }
    }

    pub open spec fn with_hooks(
        self,
        parent: Option<Seq<char>>,
        hook_vts: HookMap<SharedVt>,
    ) -> Launch {
        self.with_hook(parent, hook_vts, HookEvent::Started).with_hook(
            parent,
            hook_vts,
            HookEvent::Running,
        ).with_hook(parent, hook_vts, HookEvent::Unhealthy).with_hook(
            parent,
            hook_vts,
            HookEvent::Stopped,
        ).with_hook(parent, hook_vts, HookEvent::Failed)
    }

    /// The first `n` checks are set up; the terminal of check `i` has the
    /// number `first_vt + i`.
    pub open spec fn with_checks(
        self,
        parent: Option<Seq<char>>,
        defs: Seq<HealthCheckModel>,
        first_vt: nat,
        n: nat,
    ) -> Launch
        decreases n,
    {
        if n == 0 {
            self
        } else {
            let before = self.with_checks(parent, defs, first_vt, (n - 1) as nat);
            let title = check_title(defs[n - 1], (n - 1) as nat);
            Launch {
                check_task_ids: before.check_task_ids.push(TaskId(before.next_id as usize)),
                ..before.with_row(
                    path_below(parent, "/check/"@ + title),
                    ChildKind::Check((n - 1) as usize),
                    title,
                    SharedVt((first_vt + n - 1) as usize),
                )
            }
        }
    }
}

/// The terminals of the hooks, numbered from `first` in the order of events.
pub open spec fn hook_terminals(hooks: HookSetModel, first: nat) -> (HookMap<SharedVt>, nat) {
    let a = hook_terminal((HookMap::none(), first), hooks, HookEvent::Started);
    let b = hook_terminal(a, hooks, HookEvent::Running);
    let c = hook_terminal(b, hooks, HookEvent::Unhealthy);
    let d = hook_terminal(c, hooks, HookEvent::Stopped);
    hook_terminal(d, hooks, HookEvent::Failed)
}

pub open spec fn hook_terminal(
    so_far: (HookMap<SharedVt>, nat),
    hooks: HookSetModel,
    event: HookEvent,
) -> (HookMap<SharedVt>, nat) {
    if hooks.at(event) is Some {
        (so_far.0.with(event, SharedVt(so_far.1 as usize)), so_far.1 + 1)
    } else {
        so_far
    }
}

fn add_hook_terminal(
    hooks: &HookSet,
    event: HookEvent,
    vts: &mut VtTable,
    hook_vts: &mut HookMap<SharedVt>,
)
    ensures
        grew_by_child(*old(vts), *final(vts)),
        (*final(hook_vts), final(vts)@.len()) == hook_terminal(
            (*old(hook_vts), old(vts)@.len()),
            hooks@,
            event,
        ),
{
    if hooks.get(event).is_some() {
        let vt = new_child_vt(vts);
        hook_vts.insert(event, vt);
    }
}

/// What is handed over: the record of the process, the tasks of its rows and
/// where their output goes.
pub struct Launched {
    pub view: ProcView,
    pub tasks: Vec<ChildTask>,
    pub path: Option<TaskPath>,
    pub deps: Vec<TaskId>,
    /// Whether the process is stopped when the console quits.
    pub stop_on_quit: bool,
    pub check_vts: Vec<SharedVt>,
    pub check_task_ids: Vec<TaskId>,
    pub hook_vts: HookMap<SharedVt>,
    pub hook_task_ids: HookMap<TaskId>,
}

pub open spec fn launch_is(
    l: Launch,
    ctx: TaskContext,
    tasks: Seq<ChildTask>,
    rows: Seq<ProcChild>,
    hook_task_ids: HookMap<TaskId>,
) -> bool {
    &&& l.next_id == ctx.next_id
    &&& l.tasks == tasks_view(tasks)
    &&& l.rows == rows_view(rows)
    &&& l.hook_task_ids == hook_task_ids
}

/// Registers a task for a row.
fn register_child_task(
    ctx: &mut TaskContext,
    path: Option<TaskPath>,
    kind: ChildKind,
    name: String,
    vt: SharedVt,
    tasks: &mut Vec<ChildTask>,
    rows: &mut Vec<ProcChild>,
    hook_task_ids: &HookMap<TaskId>,
    Ghost(l): Ghost<Launch>,
) -> (r: TaskId)
    requires
        old(ctx).has_ids(1),
        launch_is(l, *old(ctx), old(tasks)@, old(rows)@, *hook_task_ids),
    ensures
        r == TaskId(old(ctx).next_id),
        final(ctx).next_id == old(ctx).next_id + 1,
        final(ctx).task_id == old(ctx).task_id,
        launch_is(
            l.with_row(path_view(path), kind, name@, vt),
            *final(ctx),
            final(tasks)@,
            final(rows)@,
            *hook_task_ids,
        ),
{
    let id = ctx.alloc_id();
    let ghost tasks0 = tasks_view(tasks@);
    let ghost rows0 = rows_view(rows@);
    tasks.push(ChildTask { id, path, vt });
    rows.push(ProcChild::new(id, kind, name, vt));
    proof {
        assert(tasks_view(tasks@) =~= tasks0.push(tasks@.last()@));
        assert(rows_view(rows@) =~= rows0.push(rows@.last()@));
    }
    id
}

fn launch_hook(
    event: HookEvent,
    parent: Option<&TaskPath>,
    hook_vts: &HookMap<SharedVt>,
    ctx: &mut TaskContext,
    tasks: &mut Vec<ChildTask>,
    rows: &mut Vec<ProcChild>,
    hook_task_ids: &mut HookMap<TaskId>,
    Ghost(l): Ghost<Launch>,
)
    requires
        old(ctx).has_ids(1),
        launch_is(l, *old(ctx), old(tasks)@, old(rows)@, *old(hook_task_ids)),
    ensures
        final(ctx).next_id <= old(ctx).next_id + 1,
        final(ctx).task_id == old(ctx).task_id,
        launch_is(
            l.with_hook(opt_path(parent), *hook_vts, event),
            *final(ctx),
            final(tasks)@,
            final(rows)@,
            *final(hook_task_ids),
        ),
{
    match hook_vts.get(event) {
        Some(vt) => {
            let label = hook_event_label(event);
            let path = join_below(parent, "/hook/", label);
            let id = register_child_task(
                ctx,
                path,
                ChildKind::Hook(event),
                label.to_owned(),
                vt,
                tasks,
                rows,
                hook_task_ids,
                Ghost(l),
            );
            hook_task_ids.insert(event, id);
        },
        None => {},
    }
}

/// Sets a process up: its terminal, then one for each check and hook; and a
/// task and a row for each hook and check.
pub fn launch_proc(
    ctx: &mut TaskContext,
    vts: &mut VtTable,
    cfg: ProcConfig,
    task_id: TaskId,
    deps: Vec<TaskId>,
    path: Option<TaskPath>,
    size: Rect,
) -> (r: Launched)
    requires
        old(ctx).has_ids(cfg.healthchecks@.len() + 5),
    ensures
        ({
            let vt0 = old(vts)@.len();
            let defs = check_views(cfg.healthchecks@);
            let terminals = hook_terminals(cfg.hooks@, vt0 + 1 + defs.len());
            let l = Launch::start(old(ctx).next_id as nat).with_hooks(
                path_view(path),
                r.hook_vts,
            ).with_checks(path_view(path), defs, vt0 + 1, defs.len());
            &&& r.view.fresh(task_id, cfg, SharedVt(vt0 as usize))
            &&& r.path == path
            &&& r.deps == deps
            &&& r.stop_on_quit
            &&& r.hook_vts == terminals.0
            &&& final(vts)@.len() == terminals.1
            &&& r.check_vts@.len() == defs.len()
            &&& forall|i: int|
                0 <= i < defs.len() ==> #[trigger] r.check_vts@[i] == SharedVt(
                    (vt0 + 1 + i) as usize,
                )
            &&& r.check_task_ids@ == l.check_task_ids
            &&& launch_is(l, *final(ctx), r.tasks@, r.view.children@, r.hook_task_ids)
        }),
        terminals_added(
            old(vts)@,
            final(vts)@,
            (Size { width: size.width, height: size.height }),
            cfg.scrollback_len,
        ),
        final(ctx).task_id == old(ctx).task_id,
{
    let ghost vts0 = vts@;
    let ghost cells = Size { width: size.width, height: size.height };
    let ghost vt0 = vts@.len();
    let ghost defs = check_views(cfg.healthchecks@);
    let ghost first_id = ctx.next_id;
    let vt = vts.add_terminal(size.height, size.width, cfg.scrollback_len);
    proof {
        assert(vts@.take(vts0.len() as int) =~= vts@.drop_last());
    }
    let mut check_vts: Vec<SharedVt> = Vec::new();
    let mut i: usize = 0;
    while i < cfg.healthchecks.len()
        invariant
            terminals_added(vts0, vts@, cells, cfg.scrollback_len),
            i <= cfg.healthchecks@.len(),
            vts@.len() == vt0 + 1 + i,
            check_vts@.len() == i,
            forall|k: int|
                0 <= k < i ==> #[trigger] check_vts@[k] == SharedVt((vt0 + 1 + k) as usize),
        decreases cfg.healthchecks@.len() - i,
    {
        let ghost before = *vts;
        let child_vt = new_child_vt(vts);
        proof {
            lemma_terminals_added(vts0, before, *vts, cells, cfg.scrollback_len);
        }
        check_vts.push(child_vt);
        i += 1;
    }
    let mut hook_vts: HookMap<SharedVt> = HookMap::new();
    let ghost before = *vts;
    add_hook_terminal(&cfg.hooks, HookEvent::Started, vts, &mut hook_vts);
    proof {
        lemma_terminals_added(vts0, before, *vts, cells, cfg.scrollback_len);
    }
    let ghost before = *vts;
    add_hook_terminal(&cfg.hooks, HookEvent::Running, vts, &mut hook_vts);
    proof {
        lemma_terminals_added(vts0, before, *vts, cells, cfg.scrollback_len);
    }
    let ghost before = *vts;
    add_hook_terminal(&cfg.hooks, HookEvent::Unhealthy, vts, &mut hook_vts);
    proof {
        lemma_terminals_added(vts0, before, *vts, cells, cfg.scrollback_len);
    }
    let ghost before = *vts;
    add_hook_terminal(&cfg.hooks, HookEvent::Stopped, vts, &mut hook_vts);
    proof {
        lemma_terminals_added(vts0, before, *vts, cells, cfg.scrollback_len);
    }
    let ghost before = *vts;
    add_hook_terminal(&cfg.hooks, HookEvent::Failed, vts, &mut hook_vts);
    proof {
        lemma_terminals_added(vts0, before, *vts, cells, cfg.scrollback_len);
    }
    let parent = path.as_ref();
    let ghost p = path_view(path);
    let mut tasks: Vec<ChildTask> = Vec::new();
    let mut rows: Vec<ProcChild> = Vec::new();
    let mut hook_task_ids: HookMap<TaskId> = HookMap::new();
    let ghost l0 = Launch::start(first_id as nat);
    proof {
        assert(opt_path(parent) == p);
        assert(tasks_view(tasks@) =~= Seq::empty());
        assert(rows_view(rows@) =~= Seq::empty());
    }
    launch_hook(
        HookEvent::Started,
        parent,
        &hook_vts,
        ctx,
        &mut tasks,
        &mut rows,
        &mut hook_task_ids,
        Ghost(l0),
    );
    let ghost l1 = l0.with_hook(p, hook_vts, HookEvent::Started);
    launch_hook(
        HookEvent::Running,
        parent,
        &hook_vts,
        ctx,
        &mut tasks,
        &mut rows,
        &mut hook_task_ids,
        Ghost(l1),
    );
    let ghost l2 = l1.with_hook(p, hook_vts, HookEvent::Running);
    launch_hook(
        HookEvent::Unhealthy,
        parent,
        &hook_vts,
        ctx,
        &mut tasks,
        &mut rows,
        &mut hook_task_ids,
        Ghost(l2),
    );
    let ghost l3 = l2.with_hook(p, hook_vts, HookEvent::Unhealthy);
    launch_hook(
        HookEvent::Stopped,
        parent,
        &hook_vts,
        ctx,
        &mut tasks,
        &mut rows,
        &mut hook_task_ids,
        Ghost(l3),
    );
    let ghost l4 = l3.with_hook(p, hook_vts, HookEvent::Stopped);
    launch_hook(
        HookEvent::Failed,
        parent,
        &hook_vts,
        ctx,
        &mut tasks,
        &mut rows,
        &mut hook_task_ids,
        Ghost(l4),
    );
    let ghost l5 = l4.with_hook(p, hook_vts, HookEvent::Failed);
    let mut check_task_ids: Vec<TaskId> = Vec::new();
    let mut idx: usize = 0;
    while idx < cfg.healthchecks.len()
        invariant
            idx <= cfg.healthchecks@.len(),
            defs == check_views(cfg.healthchecks@),
            opt_path(parent) == p,
            first_id + cfg.healthchecks@.len() + 5 <= usize::MAX,
            ctx.next_id <= first_id + 5 + idx,
            ctx.task_id == old(ctx).task_id,
            check_vts@.len() == defs.len(),
            forall|k: int|
                0 <= k < defs.len() ==> #[trigger] check_vts@[k] == SharedVt(
                    (vt0 + 1 + k) as usize,
                ),
            launch_is(
                l5.with_checks(p, defs, vt0 + 1, idx as nat),
                *ctx,
                tasks@,
                rows@,
                hook_task_ids,
            ),
            check_task_ids@ == l5.with_checks(p, defs, vt0 + 1, idx as nat).check_task_ids,
        decreases cfg.healthchecks@.len() - idx,
    {
        let ghost before = l5.with_checks(p, defs, vt0 + 1, idx as nat);
        let label = healthcheck_display_name(&cfg.healthchecks[idx], idx);
        let child_path = join_below(parent, "/check/", label.as_str());
        let child_vt = check_vts[idx];
        proof {
            assert(defs[idx as int] == cfg.healthchecks@[idx as int]@);
        }
        let id = register_child_task(
            ctx,
            child_path,
            ChildKind::Check(idx),
            label,
            child_vt,
            &mut tasks,
            &mut rows,
            &hook_task_ids,
            Ghost(before),
        );
        check_task_ids.push(id);
        idx += 1;
    }
    proof {
        assert(l5.check_task_ids =~= Seq::empty());
    }
    Launched {
        view: ProcView::new_with_children(task_id, cfg, vt, rows),
        tasks,
        path,
        deps,
        stop_on_quit: true,
        check_vts,
        check_task_ids,
        hook_vts,
        hook_task_ids,
    }
}

} // verus!
