//! Process tasks: their configuration and how they are set up.

use crate::config::health::{
    check_views, HealthCheckDef, HealthCheckModel, HookEvent, HookSet, HookSetModel,
};
use crate::config::proc::{
    clone_env, env_view, LogConfig, LogModel, StopModel, DEFAULT_RESTART_DELAY,
};
use crate::config::vars::{substitute_vars, substituted, Vars};
use crate::console::proc::child::{kind_of_segment, ChildKind};
use crate::kernel::context::TaskContext;
use crate::kernel::path::{
    joined_path, path_depth, path_name, path_parent, path_view, top_level_path, valid_path,
    valid_segment, TaskPath,
};
use crate::kernel::screen_cmd::Winsize;
use crate::kernel::task::TaskId;
use crate::task::child_vt::{
    grew_by_child, lemma_terminals_added, new_child_vt, terminals_added,
};
use crate::task::health::CheckPlan;
use crate::task::hook_map::HookMap;
use crate::task::hooks::{EnvOverrides, HookRun};
use crate::term::key::Key;
use crate::term::rect::Size;
use crate::term::screen::{Screen, SharedVt, VtTable};
use crate::text::{
    clone_opt, clone_strings, decimal, is_digit, lemma_decimal,
    opt_chars, parsed_usize, push_decimal, str_eq, strings_view,
};
use vstd::prelude::*;

pub use crate::config::proc::StopSignal;
pub use crate::task::machine::ProcMsg;

verus! {

/// A key that is typed into a process.
#[derive(Clone, Copy, Debug, PartialEq, Eq, Structural)]
pub struct ProcInput(pub Key);

/// A request for another process like this one, under the given name.
#[derive(Debug)]
pub struct DuplicateProc(pub Option<String>);

/// A program with its arguments, directory and environment, and the
/// directories that are added to its search path.
#[derive(Debug)]
pub struct ProcessSpec {
    pub prog: String,
    pub args: Vec<String>,
    pub cwd: Option<String>,
    pub env: EnvOverrides,
    pub add_path: Vec<String>,
}

pub struct ProcTaskConfig {
    pub spec: ProcessSpec,
    pub label: Option<String>,
    pub stop: StopSignal,
    pub log: Option<LogConfig>,
    pub autostart: bool,
    pub autorestart: bool,
    /// The time in milliseconds before it is started again.
    pub restart_delay: usize,
    pub oneshot: bool,
    pub scrollback_len: usize,
    pub mouse_scroll_speed: usize,
    pub deps: Vec<TaskId>,
    pub vars: Vars,
    pub healthchecks: Vec<HealthCheckDef>,
    pub hooks: HookSet,
}

/// A program, by its characters.
#[verifier::ext_equal]
pub struct SpecModel {
    pub prog: Seq<char>,
    pub args: Seq<Seq<char>>,
    pub cwd: Option<Seq<char>>,
    pub env: Seq<(Seq<char>, Option<Seq<char>>)>,
    pub add_path: Seq<Seq<char>>,
}

impl View for ProcessSpec {
    type V = SpecModel;

    open spec fn view(&self) -> SpecModel {
        SpecModel {
            prog: self.prog@,
            args: strings_view(self.args@),
            cwd: opt_chars(self.cwd),
            env: env_view(self.env@),
            add_path: strings_view(self.add_path@),
        }
    }
}

/// The configuration of a process task, by its characters.
#[verifier::ext_equal]
pub struct TaskSettings {
    pub spec: SpecModel,
    pub label: Option<Seq<char>>,
    pub stop: StopModel,
    pub log: Option<LogModel>,
    pub autostart: bool,
    pub autorestart: bool,
    /// The time in milliseconds before it is started again.
    pub restart_delay: usize,
    pub oneshot: bool,
    pub scrollback_len: usize,
    pub mouse_scroll_speed: usize,
    pub deps: Seq<TaskId>,
    pub vars: Map<Seq<char>, String>,
    pub healthchecks: Seq<HealthCheckModel>,
    pub hooks: HookSetModel,
}

impl View for ProcTaskConfig {
    type V = TaskSettings;

    open spec fn view(&self) -> TaskSettings {
        TaskSettings {
            spec: self.spec@,
            label: opt_chars(self.label),
            stop: self.stop@,
            log: match self.log {
                Some(log) => Some(log@),
                None => None,
            },
            autostart: self.autostart,
            autorestart: self.autorestart,
            restart_delay: self.restart_delay,
            oneshot: self.oneshot,
            scrollback_len: self.scrollback_len,
            mouse_scroll_speed: self.mouse_scroll_speed,
            deps: self.deps@,
            vars: self.vars@,
            healthchecks: check_views(self.healthchecks@),
            hooks: self.hooks@,
        }
    }
}

impl ProcTaskConfig {
    pub fn new(spec: ProcessSpec) -> (r: Self)
        ensures
            r.spec == spec,
            r.label is None,
            r.stop == StopSignal::SIGTERM,
            r.log is None,
            r.autostart,
            !r.autorestart,
            r.restart_delay == DEFAULT_RESTART_DELAY,
            !r.oneshot,
            r.scrollback_len == 1000,
            r.mouse_scroll_speed == 5,
            r.deps@ == Seq::<TaskId>::empty(),
            r.vars.wf(),
            r.vars@ == Map::<Seq<char>, String>::empty(),
            r.healthchecks@ == Seq::<HealthCheckDef>::empty(),
            r.hooks@ == HookSetModel::none(),
    {
        ProcTaskConfig {
            spec,
            label: None,
            stop: StopSignal::default(),
            log: None,
            autostart: true,
            autorestart: false,
            restart_delay: DEFAULT_RESTART_DELAY,
            oneshot: false,
            scrollback_len: 1000,
            mouse_scroll_speed: 5,
            deps: Vec::new(),
            vars: Vars::new(),
            healthchecks: Vec::new(),
            hooks: HookSet::default(),
        }
    }
}

/// A task for a hook or a check, to be registered.
pub struct PendingChild {
    pub id: TaskId,
    pub path: TaskPath,
    pub label: Option<String>,
    pub vt: SharedVt,
}

#[verifier::ext_equal]
pub struct PendingModel {
    pub id: TaskId,
    pub path: Seq<char>,
    pub label: Option<Seq<char>>,
    pub vt: SharedVt,
}

impl View for PendingChild {
    type V = PendingModel;

    open spec fn view(&self) -> PendingModel {
        PendingModel {
            id: self.id,
            path: self.path@,
            label: opt_chars(self.label),
            vt: self.vt,
        }
    }
}

pub open spec fn pending_view(children: Seq<PendingChild>) -> Seq<PendingModel> {
    children.map_values(|c: PendingChild| c@)
}

/// Whether segments can be joined to the path of a task.
pub open spec fn joinable(path: Option<Seq<char>>) -> bool {
    path is Some && path->0.len() > 1
}

pub open spec fn check_segment(i: nat) -> Seq<char> {
    "check_"@ + decimal(i)
}

pub open spec fn hook_segment(event: HookEvent) -> Seq<char> {
    "hook_"@ + event.text()
}

/// The row of a check is found from the path of its task.
pub proof fn check_segment_is_read_back(i: usize)
    ensures
        valid_segment(check_segment(i as nat)),
        kind_of_segment(check_segment(i as nat)) == Some(ChildKind::Check(i)),
{
    reveal_strlit("check_");
    lemma_decimal(i as nat);
    let d = decimal(i as nat);
    let s = check_segment(i as nat);
    assert forall|k: int| 0 <= k < s.len() implies s[k] != '/' by {
        if k >= 6 {
            assert(is_digit(d[k - 6]));
            assert(s[k] == d[k - 6]);
        }
    }
    assert("check_"@ =~= s.subrange(0, 6));
    assert(s.skip(6) =~= d);
    assert(is_digit(d[0]));
    assert(parsed_usize(d) == Some(i));
}

/// The row of a hook is found from the path of its task.
pub proof fn hook_segment_is_read_back(event: HookEvent)
    ensures
        valid_segment(hook_segment(event)),
        kind_of_segment(hook_segment(event)) == Some(ChildKind::Hook(event)),
{
    reveal_strlit("check_");
    reveal_strlit("hook_");
    reveal_strlit("started");
    reveal_strlit("running");
    reveal_strlit("unhealthy");
    reveal_strlit("stopped");
    reveal_strlit("failed");
    let s = hook_segment(event);
    event.label_names_the_event();
    assert("hook_"@ =~= s.subrange(0, 5));
    assert(s.skip(5) =~= event.text());
    if "check_"@.is_prefix_of(s) {
        assert("check_"@[0] == s.subrange(0, 6)[0]);
    }
}

/// What was set up so far for the hooks and checks of a task.
#[verifier::ext_equal]
pub struct SetUp {
    pub next_id: nat,
    pub next_vt: nat,
    pub children: Seq<PendingModel>,
    pub check_vts: Seq<Option<SharedVt>>,
    pub check_task_ids: Seq<Option<TaskId>>,
    pub hook_vts: HookMap<SharedVt>,
    pub hook_task_ids: HookMap<TaskId>,
}

impl SetUp {
    pub open spec fn start(next_id: nat, next_vt: nat) -> SetUp {
        SetUp {
            next_id,
            next_vt,
            children: Seq::empty(),
            check_vts: Seq::empty(),
            check_task_ids: Seq::empty(),
            hook_vts: HookMap::none(),
            hook_task_ids: HookMap::none(),
        }
    }

    /// A terminal was added, and a task where the path can be extended.
    pub open spec fn with_child(
        self,
        path: Option<Seq<char>>,
        seg: Seq<char>,
        label: Option<Seq<char>>,
    ) -> SetUp {
        SetUp {
            next_id: if joinable(path) {
                self.next_id + 1
            } else {
                self.next_id
            },
            next_vt: self.next_vt + 1,
            children: if joinable(path) {
                self.children.push(
                    PendingModel {
                        id: TaskId(self.next_id as usize),
                        path: path->0.push('/') + seg,
                        label,
                        vt: SharedVt(self.next_vt as usize),
                    },
                )
            } else {
                self.children
            },
            ..self
        }
    }

    pub open spec fn child_id(self, path: Option<Seq<char>>) -> Option<TaskId> {
        if joinable(path) {
            Some(TaskId(self.next_id as usize))
        } else {
            None
        }
    }

    pub open spec fn with_check(
        self,
        path: Option<Seq<char>>,
        i: nat,
        def: HealthCheckModel,
    ) -> SetUp {
        SetUp {
            check_vts: self.check_vts.push(Some(SharedVt(self.next_vt as usize))),
            check_task_ids: self.check_task_ids.push(self.child_id(path)),
            ..self.with_child(path, check_segment(i), Some(def.name))
        }
    }

    /// The first `n` checks are set up.
    pub open spec fn with_checks(
        self,
        path: Option<Seq<char>>,
        defs: Seq<HealthCheckModel>,
        n: nat,
    ) -> SetUp
        decreases n,
    {
        if n == 0 {
            self
        } else {
            self.with_checks(path, defs, (n - 1) as nat).with_check(
                path,
                (n - 1) as nat,
                defs[n - 1],
            )
        }
    }

    /// The hook of an event is set up, if there is one.
    pub open spec fn with_hook(
        self,
        path: Option<Seq<char>>,
        hooks: HookSetModel,
        event: HookEvent,
    ) -> SetUp {
        if hooks.at(event) is Some {
            SetUp {
                hook_vts: self.hook_vts.with(event, SharedVt(self.next_vt as usize)),
                hook_task_ids: match self.child_id(path) {
                    Some(id) => self.hook_task_ids.with(event, id),
                    None => self.hook_task_ids,
                },
                ..self.with_child(path, hook_segment(event), None)
            }
        } else {
            self
        }
    }

    pub open spec fn with_hooks(self, path: Option<Seq<char>>, hooks: HookSetModel) -> SetUp {
        self.with_hook(path, hooks, HookEvent::Started).with_hook(
            path,
            hooks,
            HookEvent::Running,
        ).with_hook(path, hooks, HookEvent::Unhealthy).with_hook(
            path,
            hooks,
            HookEvent::Stopped,
        ).with_hook(path, hooks, HookEvent::Failed)
    }
}

/// What a process task needs to run.
pub struct ProcRuntime {
    pub spec: ProcessSpec,
    pub log: Option<LogConfig>,
    pub stop: StopSignal,
    pub scrollback_len: usize,
    pub mouse_scroll_speed: usize,
    pub autorestart: bool,
    /// The time in milliseconds before it is started again.
    pub restart_delay: usize,
    pub oneshot: bool,
    pub vars: Vars,
    pub healthchecks: Vec<HealthCheckDef>,
    pub hooks: HookSet,
    pub check_vts: Vec<Option<SharedVt>>,
    pub check_task_ids: Vec<Option<TaskId>>,
    pub hook_vts: HookMap<SharedVt>,
    pub hook_task_ids: HookMap<TaskId>,
}

/// A process task to be registered with the system, before its children.
pub struct SpawnPlan {
    pub task_id: TaskId,
    pub path: Option<TaskPath>,
    pub label: Option<String>,
    pub vt: SharedVt,
    pub stop_on_quit: bool,
    pub autostart: bool,
    pub autorestart: bool,
    /// The time in milliseconds before it is started again.
    pub restart_delay: usize,
    pub deps: Vec<TaskId>,
    pub runtime: ProcRuntime,
    pub children: Vec<PendingChild>,
}

pub open spec fn opt_path(path: Option<&TaskPath>) -> Option<Seq<char>> {
    match path {
        Some(p) => Some(p@),
        None => None,
    }
}

/// Plans a task for a hook or a check, where the path of the process can be
/// extended.
fn plan_child(
    parent: &mut TaskContext,
    parent_path: Option<&TaskPath>,
    seg: &str,
    label: Option<String>,
    vt: SharedVt,
    out: &mut Vec<PendingChild>,
) -> (r: Option<TaskId>)
    requires
        old(parent).has_ids(1),
        valid_segment(seg@),
    ensures
        r == (if joinable(opt_path(parent_path)) {
            Some(TaskId(old(parent).next_id))
        } else {
            None
        }),
        final(parent).task_id == old(parent).task_id,
        final(parent).next_id == old(parent).next_id + (if joinable(opt_path(parent_path)) {
            1int
        } else {
            0int
        }),
        pending_view(final(out)@) == (if joinable(opt_path(parent_path)) {
            pending_view(old(out)@).push(
                PendingModel {
                    id: TaskId(old(parent).next_id),
                    path: opt_path(parent_path)->0.push('/') + seg@,
                    label: opt_chars(label),
                    vt,
                },
            )
        } else {
            pending_view(old(out)@)
        }),
{
    let parent_path = match parent_path {
        Some(p) => p,
        None => {
            return None;
        },
    };
    let prefix = parent_path.as_str();
    let mut text = prefix.to_owned();
    text.push('/');
    text.append(seg);
    let ghost joined = parent_path@.push('/') + seg@;
    proof {
        assert(text@ =~= joined);
        if parent_path@.len() > 1 {
            joined_path(parent_path@, seg@);
        } else {
            assert(joined[0] == '/' && joined[1] == '/');
        }
    }
    match TaskPath::new(text) {
        Some(path) => {
            let id = parent.alloc_id();
            let ghost before = pending_view(out@);
            out.push(PendingChild { id, path, label, vt });
            proof {
                assert(pending_view(out@) =~= before.push(out@.last()@));
            }
            Some(id)
        },
        None => None,
    }
}

/// What was set up, as it stands in the parts that hold it.
pub open spec fn set_up_is(
    up: SetUp,
    parent: TaskContext,
    vts: VtTable,
    children: Seq<PendingChild>,
    hook_vts: HookMap<SharedVt>,
    hook_task_ids: HookMap<TaskId>,
) -> bool {
    &&& up.next_id == parent.next_id
    &&& up.next_vt == vts@.len()
    &&& up.children == pending_view(children)
    &&& up.hook_vts == hook_vts
    &&& up.hook_task_ids == hook_task_ids
}

/// Sets the hook of an event up.
fn plan_hook_child(
    event: HookEvent,
    hooks: &HookSet,
    path: Option<&TaskPath>,
    parent: &mut TaskContext,
    vts: &mut VtTable,
    children: &mut Vec<PendingChild>,
    hook_vts: &mut HookMap<SharedVt>,
    hook_task_ids: &mut HookMap<TaskId>,
    Ghost(up): Ghost<SetUp>,
)
    requires
        old(parent).has_ids(1),
        set_up_is(up, *old(parent), *old(vts), old(children)@, *old(hook_vts), *old(hook_task_ids)),
    ensures
        set_up_is(
            up.with_hook(opt_path(path), hooks@, event),
            *final(parent),
            *final(vts),
            final(children)@,
            *final(hook_vts),
            *final(hook_task_ids),
        ),
        final(parent).next_id <= old(parent).next_id + 1,
        final(parent).task_id == old(parent).task_id,
        grew_by_child(*old(vts), *final(vts)),
{
    if hooks.get(event).is_some() {
        let vt = new_child_vt(vts);
        let mut seg = "hook_".to_owned();
        seg.append(event.label());
        proof {
            hook_segment_is_read_back(event);
            assert(seg@ =~= hook_segment(event));
        }
        match plan_child(parent, path, seg.as_str(), None, vt, children) {
            Some(id) => {
                hook_task_ids.insert(event, id);
            },
            None => {},
        }
        hook_vts.insert(event, vt);
    }
}

/// The size of the terminal of a process before it is observed.
pub open spec fn proc_vt_size() -> Size {
    Size { width: 80, height: 24 }
}

/// The plan for a process task: what is configured, with ids from `first_id`
/// on for its hooks and checks and terminals after those of `vts0`.
pub open spec fn is_plan(
    r: SpawnPlan,
    config: ProcTaskConfig,
    task_id: TaskId,
    task_path: Option<TaskPath>,
    first_id: nat,
    vts0: Seq<Screen>,
    parent: TaskContext,
    vts: VtTable,
) -> bool {
    let path = path_view(task_path);
    let defs = check_views(config.healthchecks@);
    let up = SetUp::start(first_id, vts0.len() + 1).with_checks(
        path,
        defs,
        defs.len(),
    ).with_hooks(path, config.hooks@);
    &&& r.task_id == task_id
    &&& r.path == task_path
    &&& r.label == config.label
    &&& r.vt == SharedVt(vts0.len() as usize)
    &&& r.stop_on_quit
    &&& r.autostart == config.autostart
    &&& r.autorestart == config.autorestart
    &&& r.restart_delay == config.restart_delay
    &&& r.deps == config.deps
    &&& r.runtime.spec == config.spec
    &&& r.runtime.log == config.log
    &&& r.runtime.stop == config.stop
    &&& r.runtime.scrollback_len == config.scrollback_len
    &&& r.runtime.mouse_scroll_speed == config.mouse_scroll_speed
    &&& r.runtime.autorestart == config.autorestart
    &&& r.runtime.restart_delay == config.restart_delay
    &&& r.runtime.oneshot == config.oneshot
    &&& r.runtime.vars == config.vars
    &&& r.runtime.healthchecks == config.healthchecks
    &&& r.runtime.hooks == config.hooks
    &&& r.runtime.check_vts@ == up.check_vts
    &&& r.runtime.check_task_ids@ == up.check_task_ids
    &&& set_up_is(
        up,
        parent,
        vts,
        r.children@,
        r.runtime.hook_vts,
        r.runtime.hook_task_ids,
    )
    &&& terminals_added(vts0, vts@, proc_vt_size(), config.scrollback_len)
}

/// Sets a process task up: its terminal, and a terminal and a task for each
/// of its checks and hooks.
pub fn spawn_proc_task_with_id(
    parent: &mut TaskContext,
    vts: &mut VtTable,
    task_id: TaskId,
    task_path: Option<TaskPath>,
    config: ProcTaskConfig,
) -> (r: SpawnPlan)
    requires
        old(parent).has_ids(config.healthchecks@.len() + 5),
    ensures
        is_plan(
            r,
            config,
            task_id,
            task_path,
            old(parent).next_id as nat,
            old(vts)@,
            *final(parent),
            *final(vts),
        ),
        final(parent).task_id == old(parent).task_id,
{
    let ghost vts0 = vts@;
    let ghost path = path_view(task_path);
    let ghost defs = check_views(config.healthchecks@);
    let ghost first_id = parent.next_id;
    let ghost first_vt = vts@.len() + 1;
    let ghost start = SetUp::start(first_id as nat, first_vt);
    let vt = vts.add_terminal(24, 80, config.scrollback_len);
    proof {
        assert(vts@.take(vts0.len() as int) =~= vts@.drop_last());
    }
    let task_path_ref = task_path.as_ref();
    proof {
        assert(opt_path(task_path_ref) == path);
    }
    let mut children: Vec<PendingChild> = Vec::new();
    let mut check_vts: Vec<Option<SharedVt>> = Vec::new();
    let mut check_task_ids: Vec<Option<TaskId>> = Vec::new();
    let mut hook_vts: HookMap<SharedVt> = HookMap::new();
    let mut hook_task_ids: HookMap<TaskId> = HookMap::new();
    let mut i: usize = 0;
    proof {
        assert(pending_view(children@) =~= Seq::empty());
    }
    while i < config.healthchecks.len()
        invariant
            i <= config.healthchecks@.len(),
            defs == check_views(config.healthchecks@),
            opt_path(task_path_ref) == path,
            start == SetUp::start(first_id as nat, first_vt),
            first_id + config.healthchecks@.len() + 5 <= usize::MAX,
            parent.next_id <= first_id + i,
            parent.task_id == old(parent).task_id,
            set_up_is(
                start.with_checks(path, defs, i as nat),
                *parent,
                *vts,
                children@,
                hook_vts,
                hook_task_ids,
            ),
            check_vts@ == start.with_checks(path, defs, i as nat).check_vts,
            check_task_ids@ == start.with_checks(path, defs, i as nat).check_task_ids,
            terminals_added(vts0, vts@, proc_vt_size(), config.scrollback_len),
        decreases config.healthchecks@.len() - i,
    {
        let ghost up = start.with_checks(path, defs, i as nat);
        let ghost before = *vts;
        let child_vt = new_child_vt(vts);
        proof {
            lemma_terminals_added(vts0, before, *vts, proc_vt_size(), config.scrollback_len);
        }
        let mut seg = "check_".to_owned();
        push_decimal(&mut seg, i as u64);
        proof {
            check_segment_is_read_back(i);
            assert(seg@ =~= check_segment(i as nat));
            assert(defs[i as int] == config.healthchecks@[i as int]@);
        }
        let id = plan_child(
            parent,
            task_path_ref,
            seg.as_str(),
            Some(config.healthchecks[i].name.clone()),
            child_vt,
            &mut children,
        );
        check_vts.push(Some(child_vt));
        check_task_ids.push(id);
        proof {
            assert(start.with_checks(path, defs, (i + 1) as nat) == up.with_check(
                path,
                i as nat,
                defs[i as int],
            ));
        }
        i += 1;
    }
    let ghost up0 = start.with_checks(path, defs, i as nat);
    let ghost before = *vts;
    plan_hook_child(
        HookEvent::Started,
        &config.hooks,
        task_path_ref,
        parent,
        vts,
        &mut children,
        &mut hook_vts,
        &mut hook_task_ids,
        Ghost(up0),
    );
    proof {
        lemma_terminals_added(vts0, before, *vts, proc_vt_size(), config.scrollback_len);
    }
    let ghost up1 = up0.with_hook(path, config.hooks@, HookEvent::Started);
    let ghost before = *vts;
    plan_hook_child(
        HookEvent::Running,
        &config.hooks,
        task_path_ref,
        parent,
        vts,
        &mut children,
        &mut hook_vts,
        &mut hook_task_ids,
        Ghost(up1),
    );
    proof {
        lemma_terminals_added(vts0, before, *vts, proc_vt_size(), config.scrollback_len);
    }
    let ghost up2 = up1.with_hook(path, config.hooks@, HookEvent::Running);
    let ghost before = *vts;
    plan_hook_child(
        HookEvent::Unhealthy,
        &config.hooks,
        task_path_ref,
        parent,
        vts,
        &mut children,
        &mut hook_vts,
        &mut hook_task_ids,
        Ghost(up2),
    );
    proof {
        lemma_terminals_added(vts0, before, *vts, proc_vt_size(), config.scrollback_len);
    }
    let ghost up3 = up2.with_hook(path, config.hooks@, HookEvent::Unhealthy);
    let ghost before = *vts;
    plan_hook_child(
        HookEvent::Stopped,
        &config.hooks,
        task_path_ref,
        parent,
        vts,
        &mut children,
        &mut hook_vts,
        &mut hook_task_ids,
        Ghost(up3),
    );
    proof {
        lemma_terminals_added(vts0, before, *vts, proc_vt_size(), config.scrollback_len);
    }
    let ghost up4 = up3.with_hook(path, config.hooks@, HookEvent::Stopped);
    let ghost before = *vts;
    plan_hook_child(
        HookEvent::Failed,
        &config.hooks,
        task_path_ref,
        parent,
        vts,
        &mut children,
        &mut hook_vts,
        &mut hook_task_ids,
        Ghost(up4),
    );
    proof {
        lemma_terminals_added(vts0, before, *vts, proc_vt_size(), config.scrollback_len);
    }
    SpawnPlan {
        task_id,
        path: task_path,
        label: config.label,
        vt,
        stop_on_quit: true,
        autostart: config.autostart,
        autorestart: config.autorestart,
        restart_delay: config.restart_delay,
        deps: config.deps,
        runtime: ProcRuntime {
            spec: config.spec,
            log: config.log,
            stop: config.stop,
            scrollback_len: config.scrollback_len,
            mouse_scroll_speed: config.mouse_scroll_speed,
            autorestart: config.autorestart,
            restart_delay: config.restart_delay,
            oneshot: config.oneshot,
            vars: config.vars,
            healthchecks: config.healthchecks,
            hooks: config.hooks,
            check_vts,
            check_task_ids,
            hook_vts,
            hook_task_ids,
        },
        children,
    }
}

/// The `k`-th task under the path `p`: its number and terminal follow from
/// `k`, and its path leads back to the process and to the row it belongs to.
pub open spec fn child_in_place(
    up: SetUp,
    p: Seq<char>,
    first_id: nat,
    first_vt: nat,
    k: int,
) -> bool {
    let child = up.children[k];
    &&& child.id == TaskId((first_id + k) as usize)
    &&& child.vt == SharedVt((first_vt + k) as usize)
    &&& valid_path(child.path)
    &&& path_parent(child.path) == Some(p)
    &&& path_depth(child.path) == path_depth(p) + 1
    &&& kind_of_segment(path_name(child.path)) is Some
}

pub open spec fn children_in_place(up: SetUp, p: Seq<char>, first_id: nat, first_vt: nat) -> bool {
    &&& up.next_id == first_id + up.children.len()
    &&& up.next_vt == first_vt + up.children.len()
    &&& forall|k: int|
        0 <= k < up.children.len() ==> #[trigger] child_in_place(up, p, first_id, first_vt, k)
}

proof fn lemma_child_added(
    up: SetUp,
    p: Seq<char>,
    first_id: nat,
    first_vt: nat,
    seg: Seq<char>,
    label: Option<Seq<char>>,
)
    requires
        valid_path(p),
        p.len() > 1,
        valid_segment(seg),
        kind_of_segment(seg) is Some,
        children_in_place(up, p, first_id, first_vt),
    ensures
        children_in_place(up.with_child(Some(p), seg, label), p, first_id, first_vt),
{
    let next = up.with_child(Some(p), seg, label);
    joined_path(p, seg);
    assert forall|k: int| 0 <= k < next.children.len() implies #[trigger] child_in_place(
        next,
        p,
        first_id,
        first_vt,
        k,
    ) by {
        if k < up.children.len() {
            assert(child_in_place(up, p, first_id, first_vt, k));
            assert(next.children[k] == up.children[k]);
        }
    }
}

proof fn lemma_checks_in_place(
    start: SetUp,
    p: Seq<char>,
    first_id: nat,
    first_vt: nat,
    defs: Seq<HealthCheckModel>,
    n: nat,
)
    requires
        valid_path(p),
        p.len() > 1,
        n <= defs.len() <= usize::MAX,
        start == SetUp::start(first_id, first_vt),
    ensures
        children_in_place(start.with_checks(Some(p), defs, n), p, first_id, first_vt),
        start.with_checks(Some(p), defs, n).children.len() == n,
        forall|k: int|
            0 <= k < n ==> (#[trigger] start.with_checks(Some(p), defs, n).children[k]).path
                == p.push('/') + check_segment(k as nat),
    decreases n,
{
    if n > 0 {
        let m = (n - 1) as nat;
        lemma_checks_in_place(start, p, first_id, first_vt, defs, m);
        check_segment_is_read_back(m as usize);
        let before = start.with_checks(Some(p), defs, m);
        let after = start.with_checks(Some(p), defs, n);
        lemma_child_added(before, p, first_id, first_vt, check_segment(m), Some(defs[n - 1].name));
        let added = before.with_child(Some(p), check_segment(m), Some(defs[n - 1].name));
        assert(after.children == added.children);
        assert forall|k: int| 0 <= k < after.children.len() implies #[trigger] child_in_place(
            after,
            p,
            first_id,
            first_vt,
            k,
        ) by {
            assert(child_in_place(added, p, first_id, first_vt, k));
        }
        assert forall|k: int| 0 <= k < n implies (#[trigger] after.children[k]).path == p.push('/')
            + check_segment(k as nat) by {
            if k < n - 1 {
                assert(after.children[k] == before.children[k]);
            }
        }
    }
}

proof fn lemma_hook_in_place(
    up: SetUp,
    p: Seq<char>,
    first_id: nat,
    first_vt: nat,
    hooks: HookSetModel,
    event: HookEvent,
)
    requires
        valid_path(p),
        p.len() > 1,
        children_in_place(up, p, first_id, first_vt),
    ensures
        children_in_place(up.with_hook(Some(p), hooks, event), p, first_id, first_vt),
        up.children.is_prefix_of(up.with_hook(Some(p), hooks, event).children),
{
    let after = up.with_hook(Some(p), hooks, event);
    if hooks.at(event) is Some {
        hook_segment_is_read_back(event);
        lemma_child_added(up, p, first_id, first_vt, hook_segment(event), None);
        let added = up.with_child(Some(p), hook_segment(event), None);
        assert(after.children == added.children);
        assert forall|k: int| 0 <= k < after.children.len() implies #[trigger] child_in_place(
            after,
            p,
            first_id,
            first_vt,
            k,
        ) by {
            assert(child_in_place(added, p, first_id, first_vt, k));
        }
        assert(up.children =~= after.children.subrange(0, up.children.len() as int));
    } else {
        assert(up.children =~= up.children.subrange(0, up.children.len() as int));
    }
}

/// Every check and hook of a process that has a path gets a task of its own:
/// ids and terminals are consecutive, the path of each task lies directly
/// under that of the process, and it tells which check or hook the task is
/// for; the checks come first.
pub proof fn children_are_found_by_their_paths(
    p: Seq<char>,
    first_id: nat,
    first_vt: nat,
    defs: Seq<HealthCheckModel>,
    hooks: HookSetModel,
)
    requires
        valid_path(p),
        p.len() > 1,
        defs.len() <= usize::MAX,
    ensures
        ({
            let up = SetUp::start(first_id, first_vt).with_checks(
                Some(p),
                defs,
                defs.len(),
            ).with_hooks(Some(p), hooks);
            &&& children_in_place(up, p, first_id, first_vt)
            &&& up.children.len() >= defs.len()
            &&& forall|k: int|
                0 <= k < defs.len() ==> kind_of_segment(
                    path_name((#[trigger] up.children[k]).path),
                ) == Some(ChildKind::Check(k as usize))
        }),
{
    let start = SetUp::start(first_id, first_vt);
    let up0 = start.with_checks(Some(p), defs, defs.len());
    lemma_checks_in_place(start, p, first_id, first_vt, defs, defs.len());
    lemma_hook_in_place(up0, p, first_id, first_vt, hooks, HookEvent::Started);
    let up1 = up0.with_hook(Some(p), hooks, HookEvent::Started);
    lemma_hook_in_place(up1, p, first_id, first_vt, hooks, HookEvent::Running);
    let up2 = up1.with_hook(Some(p), hooks, HookEvent::Running);
    lemma_hook_in_place(up2, p, first_id, first_vt, hooks, HookEvent::Unhealthy);
    let up3 = up2.with_hook(Some(p), hooks, HookEvent::Unhealthy);
    lemma_hook_in_place(up3, p, first_id, first_vt, hooks, HookEvent::Stopped);
    let up4 = up3.with_hook(Some(p), hooks, HookEvent::Stopped);
    lemma_hook_in_place(up4, p, first_id, first_vt, hooks, HookEvent::Failed);
    let up = up4.with_hook(Some(p), hooks, HookEvent::Failed);
    assert forall|k: int| 0 <= k < defs.len() implies kind_of_segment(
        path_name((#[trigger] up.children[k]).path),
    ) == Some(ChildKind::Check(k as usize)) by {
        assert(up0.children[k] == up1.children.subrange(0, up0.children.len() as int)[k]);
        assert(up1.children[k] == up2.children.subrange(0, up1.children.len() as int)[k]);
        assert(up2.children[k] == up3.children.subrange(0, up2.children.len() as int)[k]);
        assert(up3.children[k] == up4.children.subrange(0, up3.children.len() as int)[k]);
        assert(up4.children[k] == up.children.subrange(0, up4.children.len() as int)[k]);
        assert(up.children[k].path == p.push('/') + check_segment(k as nat));
        check_segment_is_read_back(k as usize);
        joined_path(p, check_segment(k as nat));
    }
}

/// Sets a process task up under a new id.
pub fn spawn_proc_task(
    parent: &mut TaskContext,
    vts: &mut VtTable,
    task_path: Option<TaskPath>,
    config: ProcTaskConfig,
) -> (r: SpawnPlan)
    requires
        old(parent).has_ids(config.healthchecks@.len() + 6),
    ensures
        is_plan(
            r,
            config,
            TaskId(old(parent).next_id),
            task_path,
            (old(parent).next_id + 1) as nat,
            old(vts)@,
            *final(parent),
            *final(vts),
        ),
        final(parent).task_id == old(parent).task_id,
{
    let task_id = parent.alloc_id();
    spawn_proc_task_with_id(parent, vts, task_id, task_path, config)
}

impl ProcessSpec {
    pub open spec fn same_as(self, other: ProcessSpec) -> bool {
        &&& self.prog == other.prog
        &&& self.args@ == other.args@
        &&& self.cwd == other.cwd
        &&& self.env@ == other.env@
        &&& self.add_path@ == other.add_path@
    }
}

impl Clone for ProcessSpec {
    fn clone(&self) -> (r: Self)
        ensures
            r.same_as(*self),
    {
        ProcessSpec {
            prog: self.prog.clone(),
            args: clone_strings(&self.args),
            cwd: clone_opt(&self.cwd),
            env: clone_env(&self.env),
            add_path: clone_strings(&self.add_path),
        }
    }
}

/// The configuration of another process like the one that runs: the same
/// program, without log, dependencies, variables, checks and hooks.
pub fn duplicate_config(runtime: &ProcRuntime, label: Option<String>) -> (r: ProcTaskConfig)
    ensures
        r.spec.same_as(runtime.spec),
        r.stop.same_as(runtime.stop),
        r.log is None,
        r.autostart,
        r.autorestart == runtime.autorestart,
        r.restart_delay == runtime.restart_delay,
        r.oneshot == runtime.oneshot,
        r.scrollback_len == runtime.scrollback_len,
        r.mouse_scroll_speed == runtime.mouse_scroll_speed,
        r.deps@ == Seq::<TaskId>::empty(),
        r.label == label,
        r.vars.wf(),
        r.vars@ == Map::<Seq<char>, String>::empty(),
        r.healthchecks@ == Seq::<HealthCheckDef>::empty(),
        r.hooks@ == HookSetModel::none(),
{
    ProcTaskConfig {
        spec: runtime.spec.clone(),
        label,
        stop: runtime.stop.clone(),
        log: None,
        autostart: true,
        autorestart: runtime.autorestart,
        restart_delay: runtime.restart_delay,
        oneshot: runtime.oneshot,
        scrollback_len: runtime.scrollback_len,
        mouse_scroll_speed: runtime.mouse_scroll_speed,
        deps: Vec::new(),
        vars: Vars::new(),
        healthchecks: Vec::new(),
        hooks: HookSet::default(),
    }
}

/// The path of a duplicate: its number.
pub fn duplicate_path(id: TaskId) -> (r: Option<TaskPath>)
    ensures
        r is Some,
        r->0@ == seq!['/'] + decimal(id.0 as nat),
{
    let mut text = String::new();
    text.push('/');
    push_decimal(&mut text, id.0 as u64);
    proof {
        let d = decimal(id.0 as nat);
        lemma_decimal(id.0 as nat);
        assert forall|k: int| 0 <= k < d.len() implies d[k] != '/' by {
            assert(is_digit(d[k]));
        }
        top_level_path(d);
        assert(text@ =~= seq!['/'] + d);
    }
    TaskPath::new(text)
}

/// Sets another process like the one that runs up.
pub fn spawn_duplicate(
    ctx: &mut TaskContext,
    vts: &mut VtTable,
    runtime: &ProcRuntime,
    label: Option<String>,
) -> (r: SpawnPlan)
    requires
        old(ctx).has_ids(6),
    ensures
        r.task_id == TaskId(old(ctx).next_id),
        r.path is Some,
        r.path->0@ == seq!['/'] + decimal(old(ctx).next_id as nat),
        r.label == label,
        r.autostart,
        r.autorestart == runtime.autorestart,
        r.restart_delay == runtime.restart_delay,
        r.deps@ == Seq::<TaskId>::empty(),
        r.children@.len() == 0,
        r.runtime.spec.same_as(runtime.spec),
        r.runtime.stop.same_as(runtime.stop),
        r.runtime.healthchecks@ == Seq::<HealthCheckDef>::empty(),
        r.runtime.hooks@ == HookSetModel::none(),
        r.stop_on_quit,
        r.runtime.log is None,
        r.runtime.oneshot == runtime.oneshot,
        r.runtime.autorestart == runtime.autorestart,
        r.runtime.restart_delay == runtime.restart_delay,
        r.runtime.scrollback_len == runtime.scrollback_len,
        r.runtime.mouse_scroll_speed == runtime.mouse_scroll_speed,
        r.runtime.vars@ == Map::<Seq<char>, String>::empty(),
        r.runtime.check_vts@.len() == 0,
        r.runtime.check_task_ids@.len() == 0,
        r.runtime.hook_vts == HookMap::<SharedVt>::none(),
        r.runtime.hook_task_ids == HookMap::<TaskId>::none(),
        final(ctx).next_id == old(ctx).next_id + 1,
        final(ctx).task_id == old(ctx).task_id,
        r.vt == SharedVt(old(vts)@.len() as usize),
        final(vts)@.len() == old(vts)@.len() + 1,
        terminals_added(old(vts)@, final(vts)@, proc_vt_size(), runtime.scrollback_len),
{
    let new_id = ctx.alloc_id();
    let path = duplicate_path(new_id);
    let config = duplicate_config(runtime, label);
    let r = spawn_proc_task_with_id(ctx, vts, new_id, path, config);
    proof {
        assert(pending_view(r.children@).len() == r.children@.len());
    }
    r
}

/// The hook that is run by hand: always waited for.
pub fn plan_rerun_hook(runtime: &ProcRuntime, event: HookEvent) -> (r: Option<HookRun>)
    requires
        runtime.vars.wf(),
    ensures
        match runtime.hooks@.at(event) {
            Some(def) => r is Some && r->0.cmd@ == substituted(def.cmd, runtime.vars@)
                && !r->0.detached,
            None => r is None,
        },
{
    match runtime.hooks.get(event) {
        Some(def) => Some(
            HookRun { cmd: substitute_vars(def.cmd.as_str(), &runtime.vars), detached: false },
        ),
        None => None,
    }
}

/// The check that is run by hand.
pub fn plan_rerun_check(runtime: &ProcRuntime, idx: usize) -> (r: Option<CheckPlan>)
    requires
        runtime.vars.wf(),
    ensures
        if idx < runtime.healthchecks@.len() {
            r is Some && r->0.follows(
                idx as int,
                runtime.healthchecks@[idx as int]@,
                runtime.vars@,
                runtime.check_vts@,
                runtime.check_task_ids@,
            )
        } else {
            r is None
        },
{
    if idx >= runtime.healthchecks.len() {
        return None;
    }
    let def = &runtime.healthchecks[idx];
    Some(
        CheckPlan {
            idx,
            cmd: substitute_vars(def.cmd.as_str(), &runtime.vars),
            interval: def.interval,
            timeout: def.timeout,
            start_period: def.start_period,
            out_vt: if idx < runtime.check_vts.len() {
                runtime.check_vts[idx]
            } else {
                None
            },
            task_id: if idx < runtime.check_task_ids.len() {
                runtime.check_task_ids[idx]
            } else {
                None
            },
        },
    )
}

/// Whether a log file takes the place of the one in use: not if there is none
/// or if it is the same.
pub fn log_changes(current: Option<&str>, sink: Option<&str>) -> (r: bool)
    ensures
        r == (sink is Some && !(current is Some && current->0@ == sink->0@)),
{
    match sink {
        None => false,
        Some(sink) => match current {
            None => true,
            Some(current) => !str_eq(current, sink),
        },
    }
}

/// The size that a process starts with: that of its terminal, or a standard
/// one if that cannot be read.
pub fn instance_size(vts: &VtTable, vt: SharedVt) -> (r: Winsize)
    ensures
        r == (match vts.screen(vt) {
            Some(screen) => Winsize::of_cells(screen.size.width, screen.size.height),
            None => Winsize::of_cells(80, 24),
        }),
{
    match vts.read(vt) {
        Some(screen) => Winsize::cells(screen.size.width, screen.size.height),
        None => Winsize::cells(80, 24),
    }
}

/// The exit code of a process that did not exit by itself.
pub const NO_EXIT_STATUS: u32 = 212;

/// The exit code of a process, from its exit status if it has one.
pub fn exit_code_of(status: Option<i32>) -> (r: u32)
    ensures
        r == (match status {
            Some(code) => crate::task::hooks::as_unsigned(code),
            None => NO_EXIT_STATUS,
        }),
{
    match status {
        Some(code) => crate::task::hooks::to_unsigned(code),
        None => NO_EXIT_STATUS,
    }
}

#[derive(Clone, Copy, Debug, PartialEq, Eq, Structural)]
pub enum Signal {
    Interrupt,
    Terminate,
    Kill,
}

/// How a process is made to stop.
pub enum StopAction<'a> {
    Signal(Signal),
    Keys(&'a Vec<Key>),
    HardKill,
    Shell(&'a String),
}

pub fn stop_action(stop: &StopSignal) -> (r: StopAction)
    ensures
        r == (match *stop {
            StopSignal::SIGINT => StopAction::Signal(Signal::Interrupt),
            StopSignal::SIGTERM => StopAction::Signal(Signal::Terminate),
            StopSignal::SIGKILL => StopAction::Signal(Signal::Kill),
            StopSignal::SendKeys(keys) => StopAction::Keys(&keys),
            StopSignal::HardKill => StopAction::HardKill,
            StopSignal::Cmd(shell) => StopAction::Shell(&shell),
        }),
{
    match stop {
        StopSignal::SIGINT => StopAction::Signal(Signal::Interrupt),
        StopSignal::SIGTERM => StopAction::Signal(Signal::Terminate),
        StopSignal::SIGKILL => StopAction::Signal(Signal::Kill),
        StopSignal::SendKeys(keys) => StopAction::Keys(keys),
        StopSignal::HardKill => StopAction::HardKill,
        StopSignal::Cmd(shell) => StopAction::Shell(shell),
    }
}

} // verus!
