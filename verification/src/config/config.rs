//! The configuration of a workspace.

use crate::config::cx::CfgCx;
use crate::config::error::{mismatch_fault, ConfigError, ErrorKind, Fault, Problem};
use crate::config::health::{
    check_models, check_registry, hook_models, hook_registry, parse_hook_registry, parse_registry,
    HealthCheckModel, HealthCheckRegistry, HookModel, HookRegistry,
};
use crate::config::node::{entry, find_field, CfgNode, Shape};
use crate::config::proc::{preferred, setting, ProcConfig, ProcSettings};
use crate::config::settings::{
    configured_proc, default_settings, lemma_parsed_overlaid, parse_proc_settings, parsed,
    proc_from_cfg, var_texts, ParsedProc,
};
use crate::console::action::Action;
use crate::console::app_layout::DEFAULT_PROC_LIST_WIDTH;
use crate::console::keymap::{bound, later_bindings_win, Binding, Keymap, KeymapGroup};
use crate::term::key::Key;
use crate::text::str_eq;
use vstd::prelude::*;

verus! {

/// What happens when the last client goes away.
#[derive(Clone, Copy, Debug, PartialEq, Eq, Structural)]
pub enum OnClientExit {
    /// The processes keep running.
    Detach,
    StopAll,
}

impl OnClientExit {
    pub open spec fn named(s: Seq<char>) -> Option<OnClientExit> {
        if s == "detach"@ {
            Some(OnClientExit::Detach)
        } else if s == "stop_all"@ {
            Some(OnClientExit::StopAll)
        } else {
            None
        }
    }

    pub fn parse(s: &str) -> (r: Option<OnClientExit>)
        ensures
            r == OnClientExit::named(s@),
    {
        if str_eq(s, "detach") {
            Some(OnClientExit::Detach)
        } else if str_eq(s, "stop_all") {
            Some(OnClientExit::StopAll)
        } else {
            None
        }
    }
}

/// What a file says of the console.
pub struct ConsolePrefs {
    /// What is done when the console starts.
    pub on_init: Option<Action>,
    /// What is done when all processes are down.
    pub on_all_finished: Option<Action>,
    pub show_tips: Option<bool>,
    pub bindings: Vec<Binding>,
}

impl ConsolePrefs {
    /// Nothing is said of the console.
    pub fn none() -> (r: Self)
        ensures
            r.on_init is None,
            r.on_all_finished is None,
            r.show_tips is None,
            r.bindings@ == Seq::<Binding>::empty(),
    {
        ConsolePrefs {
            on_init: None,
            on_all_finished: None,
            show_tips: None,
            bindings: Vec::new(),
        }
    }
}

/// A configuration file that was read.
pub struct ConfigFile {
    pub root: CfgNode,
    /// What the file refers to.
    pub cx: CfgCx,
    pub prefs: ConsolePrefs,
}

pub struct Config {
    pub procs: Vec<ProcConfig>,
    /// Settings that hold for every process that has none of its own.
    pub proc_defaults: ProcConfig,
    /// The keys that are bound by the files.
    pub keymap: Keymap,
    pub on_init: Option<Action>,
    pub on_all_finished: Option<Action>,
    pub on_client_exit: OnClientExit,
    pub healthchecks: HealthCheckRegistry,
    pub hooks: HookRegistry,
    /// The columns of the list of processes.
    pub proc_list_width: u16,
    /// Whether the keys are shown.
    pub show_tips: bool,
}

/// What a configuration says.
#[verifier::ext_equal]
pub struct ConfigModel {
    pub procs: Seq<ParsedProc>,
    pub proc_defaults: ParsedProc,
    pub on_client_exit: OnClientExit,
    pub healthchecks: Map<Seq<char>, HealthCheckModel>,
    pub hooks: Map<Seq<char>, HookModel>,
    pub keymap: Seq<Binding>,
    pub on_init: Option<Action>,
    pub on_all_finished: Option<Action>,
    pub proc_list_width: u16,
    pub show_tips: bool,
}

pub open spec fn parsed_procs(procs: Seq<ProcConfig>) -> Seq<ParsedProc> {
    procs.map_values(|p: ProcConfig| parsed(p@))
}

impl View for Config {
    type V = ConfigModel;

    open spec fn view(&self) -> ConfigModel {
        ConfigModel {
            procs: parsed_procs(self.procs@),
            proc_defaults: parsed(self.proc_defaults@),
            on_client_exit: self.on_client_exit,
            healthchecks: check_models(self.healthchecks@),
            hooks: hook_models(self.hooks@),
            keymap: self.keymap@,
            on_init: self.on_init,
            on_all_finished: self.on_all_finished,
            proc_list_width: self.proc_list_width,
            show_tips: self.show_tips,
        }
    }
}

impl ConfigModel {
    /// Nothing is configured.
    pub open spec fn blank() -> ConfigModel {
        ConfigModel {
            procs: Seq::empty(),
            proc_defaults: ParsedProc { settings: ProcSettings::blank(), vars: Map::empty() },
            on_client_exit: OnClientExit::Detach,
            healthchecks: Map::empty(),
            hooks: Map::empty(),
            keymap: Seq::empty(),
            on_init: None,
            on_all_finished: None,
            proc_list_width: DEFAULT_PROC_LIST_WIDTH,
            show_tips: true,
        }
    }

    pub open spec fn with_defaults(self, fields: Seq<(String, CfgNode)>, cx: CfgCx) -> Result<
        ConfigModel,
        Fault,
    > {
        match entry(fields, "proc_defaults"@) {
            None => Ok(self),
            Some(node) => match default_settings(node, cx) {
                Err(f) => Err(f),
                Ok(over) => Ok(
                    ConfigModel { proc_defaults: self.proc_defaults.overlaid(over), ..self },
                ),
            },
        }
    }

    /// What a file says of the console counts, or else what is known already;
    /// its keys are bound after the earlier ones.
    pub open spec fn with_prefs(self, prefs: ConsolePrefs) -> ConfigModel {
        ConfigModel {
            on_init: preferred(prefs.on_init, self.on_init),
            on_all_finished: preferred(prefs.on_all_finished, self.on_all_finished),
            show_tips: setting(prefs.show_tips, self.show_tips),
            keymap: self.keymap + prefs.bindings@,
            ..self
        }
    }

    pub open spec fn with_healthchecks(self, fields: Seq<(String, CfgNode)>) -> Result<
        ConfigModel,
        Fault,
    > {
        match entry(fields, "healthchecks"@) {
            None => Ok(self),
            Some(node) => match check_registry(node) {
                Err(f) => Err(f),
                Ok(more) => Ok(
                    ConfigModel {
                        healthchecks: self.healthchecks.union_prefer_right(more),
                        ..self
                    },
                ),
            },
        }
    }

    pub open spec fn with_hooks(self, fields: Seq<(String, CfgNode)>) -> Result<
        ConfigModel,
        Fault,
    > {
        match entry(fields, "hooks"@) {
            None => Ok(self),
            Some(node) => match hook_registry(node) {
                Err(f) => Err(f),
                Ok(more) => Ok(
                    ConfigModel { hooks: self.hooks.union_prefer_right(more), ..self },
                ),
            },
        }
    }

    pub open spec fn with_client_exit(self, fields: Seq<(String, CfgNode)>) -> Result<
        ConfigModel,
        Fault,
    > {
        match entry(fields, "on_client_exit"@) {
            None => Ok(self),
            Some(node) => if node.value is Text {
                match OnClientExit::named(node.text()) {
                    Some(on_client_exit) => Ok(ConfigModel { on_client_exit, ..self }),
                    None => Err(
                        Fault {
                            mark: node.mark,
                            problem: Problem::UnknownClientExit(node.text()),
                        },
                    ),
                }
            } else {
                Err(mismatch_fault(node.mismatch(Shape::Text)))
            },
        }
    }

    /// A file is laid over what is configured already.
    pub open spec fn applied(self, file: ConfigFile) -> Result<ConfigModel, Fault> {
        let fields = file.root.fields();
        match self.with_defaults(fields, file.cx) {
            Err(f) => Err(f),
            Ok(a) => match a.with_prefs(file.prefs).with_healthchecks(fields) {
                Err(f) => Err(f),
                Ok(b) => match b.with_hooks(fields) {
                    Err(f) => Err(f),
                    Ok(c) => c.with_client_exit(fields),
                },
            },
        }
    }

    /// The first `n` processes of a mapping. With the defaults laid under it,
    /// none may be a one-shot whose health is checked.
    pub open spec fn procs_upto(self, fields: Seq<(String, CfgNode)>, cx: CfgCx, n: nat) -> Result<
        Seq<ParsedProc>,
        Fault,
    >
        decreases n,
    {
        if n == 0 {
            Ok(Seq::empty())
        } else {
            match self.procs_upto(fields, cx, (n - 1) as nat) {
                Err(f) => Err(f),
                Ok(before) => match configured_proc(
                    fields[n - 1].0@,
                    fields[n - 1].1,
                    cx,
                    self.healthchecks,
                    self.hooks,
                ) {
                    Err(f) => Err(f),
                    Ok(p) => if self.proc_defaults.settings.overlaid(
                        p.settings,
                    ).is_checked_oneshot() {
                        Err(
                            Fault {
                                mark: fields[n - 1].1.mark,
                                problem: Problem::OneshotWithHealthchecks,
                            },
                        )
                    } else {
                        Ok(before.push(p))
                    },
                },
            }
        }
    }

    pub open spec fn with_procs(self, fields: Seq<(String, CfgNode)>, cx: CfgCx) -> Result<
        ConfigModel,
        Fault,
    > {
        match entry(fields, "procs"@) {
            None => Ok(self),
            Some(node) => if node.value is Object {
                match self.procs_upto(node.fields(), cx, node.fields().len()) {
                    Err(f) => Err(f),
                    Ok(procs) => Ok(ConfigModel { procs, ..self }),
                }
            } else {
                Err(mismatch_fault(node.mismatch(Shape::Mapping)))
            },
        }
    }

    /// The global file is laid over what is configured already; it has no
    /// processes.
    pub open spec fn with_global(self, name: Seq<char>, file: ConfigFile) -> Result<
        ConfigModel,
        Fault,
    > {
        if !(file.root.value is Object) {
            Err(mismatch_fault(file.root.mismatch(Shape::Mapping)))
        } else {
            match entry(file.root.fields(), "procs"@) {
                Some(node) => Err(
                    Fault { mark: node.mark, problem: Problem::ProcsInGlobalConfig(name) },
                ),
                None => self.applied(file),
            }
        }
    }

    /// The file of the workspace is laid over what is configured already.
    pub open spec fn with_local(self, file: ConfigFile) -> Result<ConfigModel, Fault> {
        if !(file.root.value is Object) {
            Err(mismatch_fault(file.root.mismatch(Shape::Mapping)))
        } else {
            match self.applied(file) {
                Err(f) => Err(f),
                Ok(c) => c.with_procs(file.root.fields(), file.cx),
            }
        }
    }
}

/// The configuration that the global file and that of the workspace give, as
/// far as they are there.
pub open spec fn loaded(
    global: Option<(Seq<char>, ConfigFile)>,
    local: Option<ConfigFile>,
) -> Result<ConfigModel, Fault> {
    let first = match global {
        Some((name, file)) => ConfigModel::blank().with_global(name, file),
        None => Ok(ConfigModel::blank()),
    };
    match (first, local) {
        (Err(f), _) => Err(f),
        (Ok(c), Some(file)) => c.with_local(file),
        (Ok(c), None) => Ok(c),
    }
}

/// The named checks of a file.
pub open spec fn checks_in(file: Option<ConfigFile>) -> Map<Seq<char>, HealthCheckModel> {
    match file {
        Some(file) => match entry(file.root.fields(), "healthchecks"@) {
            Some(node) => check_registry(node)->Ok_0,
            None => Map::empty(),
        },
        None => Map::empty(),
    }
}

/// The named hooks of a file.
pub open spec fn hooks_in(file: Option<ConfigFile>) -> Map<Seq<char>, HookModel> {
    match file {
        Some(file) => match entry(file.root.fields(), "hooks"@) {
            Some(node) => hook_registry(node)->Ok_0,
            None => Map::empty(),
        },
        None => Map::empty(),
    }
}

proof fn lemma_applied(c: ConfigModel, file: ConfigFile)
    requires
        c.applied(file) is Ok,
    ensures
        ({
            let next = c.applied(file)->Ok_0;
            &&& next.healthchecks == c.healthchecks.union_prefer_right(checks_in(Some(file)))
            &&& next.hooks == c.hooks.union_prefer_right(hooks_in(Some(file)))
        }),
{
    let fields = file.root.fields();
    let next = c.applied(file)->Ok_0;
    let with_defaults = c.with_defaults(fields, file.cx)->Ok_0.with_prefs(file.prefs);
    let with_checks = with_defaults.with_healthchecks(fields)->Ok_0;
    let with_hooks = with_checks.with_hooks(fields)->Ok_0;
    assert(next.healthchecks == with_checks.healthchecks);
    assert(next.hooks == with_hooks.hooks);
    assert(with_checks.healthchecks =~= c.healthchecks.union_prefer_right(checks_in(Some(file))));
    assert(with_hooks.hooks =~= c.hooks.union_prefer_right(hooks_in(Some(file))));
}

/// Named checks and hooks of both files are known, and those of the workspace
/// win over global ones of the same name.
pub proof fn workspace_definitions_win(
    global: Option<(Seq<char>, ConfigFile)>,
    local: Option<ConfigFile>,
)
    requires
        loaded(global, local) is Ok,
    ensures
        ({
            let c = loaded(global, local)->Ok_0;
            let outer = match global {
                Some((_, file)) => Some(file),
                None => None,
            };
            &&& c.healthchecks == checks_in(outer).union_prefer_right(checks_in(local))
            &&& c.hooks == hooks_in(outer).union_prefer_right(hooks_in(local))
        }),
{
    let blank = ConfigModel::blank();
    let outer = match global {
        Some((_, file)) => {
            lemma_applied(blank, file);
            blank.applied(file)->Ok_0
        },
        None => blank,
    };
    if let Some(file) = local {
        lemma_applied(outer, file);
    }
    let c = loaded(global, local)->Ok_0;
    let first = match global {
        Some((_, file)) => Some(file),
        None => None,
    };
    assert(outer.healthchecks =~= checks_in(first));
    assert(outer.hooks =~= hooks_in(first));
    assert(c.healthchecks =~= checks_in(first).union_prefer_right(checks_in(local)));
    assert(c.hooks =~= hooks_in(first).union_prefer_right(hooks_in(local)));
}

/// What the console does when it starts and when all processes are down,
/// whether tips are shown and what a key does is said by the workspace file,
/// or else by the global one, or else it is nothing, or that tips are shown.
pub proof fn workspace_preferences_win(
    global: (Seq<char>, ConfigFile),
    local: ConfigFile,
    group: KeymapGroup,
    key: Key,
)
    ensures
        loaded(Some(global), Some(local)) matches Ok(c) ==> {
            &&& c.on_init == preferred(local.prefs.on_init, global.1.prefs.on_init)
            &&& c.on_all_finished == preferred(
                local.prefs.on_all_finished,
                global.1.prefs.on_all_finished,
            )
            &&& c.show_tips == setting(
                preferred(local.prefs.show_tips, global.1.prefs.show_tips),
                true,
            )
            &&& bound(c.keymap, group, key) == preferred(
                bound(local.prefs.bindings@, group, key),
                bound(global.1.prefs.bindings@, group, key),
            )
        },
        loaded(None, Some(local)) matches Ok(c) ==> {
            &&& c.on_init == local.prefs.on_init
            &&& c.on_all_finished == local.prefs.on_all_finished
            &&& c.show_tips == setting(local.prefs.show_tips, true)
            &&& bound(c.keymap, group, key) == bound(local.prefs.bindings@, group, key)
        },
        loaded(Some(global), None) matches Ok(c) ==> {
            &&& c.on_init == global.1.prefs.on_init
            &&& c.on_all_finished == global.1.prefs.on_all_finished
            &&& c.show_tips == setting(global.1.prefs.show_tips, true)
            &&& bound(c.keymap, group, key) == bound(global.1.prefs.bindings@, group, key)
        },
        loaded(None, None) == Ok::<ConfigModel, Fault>(ConfigModel::blank()),
{
    let (a, b) = (global.1.prefs.bindings@, local.prefs.bindings@);
    later_bindings_win(a, b, group, key);
    assert(Seq::<Binding>::empty() + a =~= a);
    assert(Seq::<Binding>::empty() + b =~= b);
}

/// Processes are defined by the workspace alone: a global file that defines
/// some is refused, and without a workspace file there are none.
pub proof fn processes_are_those_of_the_workspace(
    global: Option<(Seq<char>, ConfigFile)>,
    local: Option<ConfigFile>,
)
    ensures
        global matches Some((_, file)) && entry(file.root.fields(), "procs"@) is Some ==> loaded(
            global,
            local,
        ) is Err,
        local is None && loaded(global, local) is Ok ==> loaded(global, local)->Ok_0.procs
            == Seq::<ParsedProc>::empty(),
{
}

proof fn lemma_procs(c: ConfigModel, fields: Seq<(String, CfgNode)>, cx: CfgCx, n: nat)
    requires
        n <= fields.len(),
        c.procs_upto(fields, cx, n) is Ok,
    ensures
        c.procs_upto(fields, cx, n)->Ok_0.len() == n,
        forall|i: int|
            0 <= i < n ==> {
                let p = (#[trigger] c.procs_upto(fields, cx, n)->Ok_0[i]).settings;
                p.path == fields[i].0@ && !c.proc_defaults.settings.overlaid(p).is_checked_oneshot()
            },
    decreases n,
{
    if n > 0 {
        lemma_procs(c, fields, cx, (n - 1) as nat);
        let before = c.procs_upto(fields, cx, (n - 1) as nat)->Ok_0;
        let all = c.procs_upto(fields, cx, n)->Ok_0;
        assert forall|i: int| 0 <= i < n implies {
            let p = (#[trigger] all[i]).settings;
            p.path == fields[i].0@ && !c.proc_defaults.settings.overlaid(p).is_checked_oneshot()
        } by {
            if i < n - 1 {
                assert(all[i] == before[i]);
            }
        }
    }
}

/// The processes of a workspace file are those of its mapping, in the order
/// in which they stand there and named by their keys. With the defaults laid
/// under it, as it is started, none of them is a one-shot whose health is
/// checked.
pub proof fn processes_follow_the_file(
    global: Option<(Seq<char>, ConfigFile)>,
    local: ConfigFile,
    procs: CfgNode,
    i: int,
)
    requires
        loaded(global, Some(local)) is Ok,
        entry(local.root.fields(), "procs"@) == Some(procs),
        0 <= i < procs.fields().len(),
    ensures
        ({
            let c = loaded(global, Some(local))->Ok_0;
            let p = c.procs[i].settings;
            &&& c.procs.len() == procs.fields().len()
            &&& p.path == procs.fields()[i].0@
            &&& !c.proc_defaults.settings.overlaid(p).is_checked_oneshot()
        }),
{
    let outer = match global {
        Some((name, file)) => ConfigModel::blank().with_global(name, file)->Ok_0,
        None => ConfigModel::blank(),
    };
    let c = outer.applied(local)->Ok_0;
    let (fields, cx) = (procs.fields(), local.cx);
    lemma_procs(c, fields, cx, fields.len());
    assert(loaded(global, Some(local))->Ok_0.procs == c.procs_upto(fields, cx, fields.len())->Ok_0);
    assert(c.procs_upto(fields, cx, fields.len())->Ok_0[i].settings.path == fields[i].0@);
}

proof fn lemma_procs_error(
    c: ConfigModel,
    fields: Seq<(String, CfgNode)>,
    cx: CfgCx,
    i: nat,
    n: nat,
)
    requires
        i <= n,
        c.procs_upto(fields, cx, i) is Err,
    ensures
        c.procs_upto(fields, cx, n) == c.procs_upto(fields, cx, i),
    decreases n,
{
    if i < n {
        lemma_procs_error(c, fields, cx, i, (n - 1) as nat);
    }
}

impl Config {
    pub open spec fn wf(self) -> bool {
        &&& forall|i: int| 0 <= i < self.procs@.len() ==> (#[trigger] self.procs@[i]).wf()
        &&& self.proc_defaults.wf()
        &&& self.healthchecks.wf()
        &&& self.hooks.wf()
        &&& self.proc_list_width < u16::MAX
    }

    pub fn make_default() -> (r: Self)
        ensures
            r.wf(),
            r@ == ConfigModel::blank(),
    {
        let r = Config {
            procs: Vec::new(),
            proc_defaults: ProcConfig::default(),
            keymap: Keymap::new(),
            on_init: None,
            on_all_finished: None,
            on_client_exit: OnClientExit::Detach,
            healthchecks: HealthCheckRegistry::new(),
            hooks: HookRegistry::new(),
            proc_list_width: DEFAULT_PROC_LIST_WIDTH,
            show_tips: true,
        };
        proof {
            assert(var_texts(r.proc_defaults@.vars) =~= Map::empty());
            assert(check_models(r.healthchecks@) =~= Map::empty());
            assert(hook_models(r.hooks@) =~= Map::empty());
            assert(r@ =~= ConfigModel::blank());
        }
        r
    }

    fn apply_defaults(&mut self, fields: &Vec<(String, CfgNode)>, cx: &CfgCx) -> (r: Result<
        (),
        ConfigError,
    >)
        requires
            old(self).wf(),
        ensures
            final(self).wf(),
            match r {
                Ok(()) => old(self)@.with_defaults(fields@, *cx) == Ok::<ConfigModel, Fault>(
                    final(self)@,
                ),
                Err(e) => old(self)@.with_defaults(fields@, *cx) == Err::<ConfigModel, Fault>(e@),
            },
    {
        if let Some(node) = find_field(fields, "proc_defaults") {
            match parse_proc_settings(node, cx) {
                Ok(over) => {
                    let base = self.proc_defaults.clone();
                    proof {
                        lemma_parsed_overlaid(base@, over@);
                    }
                    self.proc_defaults = base.overlay(over);
                },
                Err(e) => {
                    return Err(e);
                },
            }
        }
        Ok(())
    }

    fn apply_prefs(&mut self, prefs: ConsolePrefs)
        requires
            old(self).wf(),
        ensures
            final(self).wf(),
            final(self)@ == old(self)@.with_prefs(prefs),
    {
        let ConsolePrefs { on_init, on_all_finished, show_tips, bindings } = prefs;
        if on_init.is_some() {
            self.on_init = on_init;
        }
        if on_all_finished.is_some() {
            self.on_all_finished = on_all_finished;
        }
        if let Some(show) = show_tips {
            self.show_tips = show;
        }
        self.keymap.extend(Keymap { bindings });
    }

    fn apply_healthchecks(&mut self, fields: &Vec<(String, CfgNode)>) -> (r: Result<
        (),
        ConfigError,
    >)
        requires
            old(self).wf(),
        ensures
            final(self).wf(),
            match r {
                Ok(()) => old(self)@.with_healthchecks(fields@) == Ok::<ConfigModel, Fault>(
                    final(self)@,
                ),
                Err(e) => old(self)@.with_healthchecks(fields@) == Err::<ConfigModel, Fault>(e@),
            },
    {
        if let Some(node) = find_field(fields, "healthchecks") {
            match parse_registry(node) {
                Ok(more) => {
                    let ghost before = self.healthchecks@;
                    let ghost m = more@;
                    self.healthchecks.extend(more);
                    proof {
                        assert(check_models(self.healthchecks@) =~= check_models(
                            before,
                        ).union_prefer_right(check_models(m)));
                    }
                },
                Err(e) => {
                    return Err(e);
                },
            }
        }
        Ok(())
    }

    fn apply_hooks(&mut self, fields: &Vec<(String, CfgNode)>) -> (r: Result<(), ConfigError>)
        requires
            old(self).wf(),
        ensures
            final(self).wf(),
            match r {
                Ok(()) => old(self)@.with_hooks(fields@) == Ok::<ConfigModel, Fault>(
                    final(self)@,
                ),
                Err(e) => old(self)@.with_hooks(fields@) == Err::<ConfigModel, Fault>(e@),
            },
    {
        if let Some(node) = find_field(fields, "hooks") {
            match parse_hook_registry(node) {
                Ok(more) => {
                    let ghost before = self.hooks@;
                    let ghost m = more@;
                    self.hooks.extend(more);
                    proof {
                        assert(hook_models(self.hooks@) =~= hook_models(
                            before,
                        ).union_prefer_right(hook_models(m)));
                    }
                },
                Err(e) => {
                    return Err(e);
                },
            }
        }
        Ok(())
    }

    fn apply_client_exit(&mut self, fields: &Vec<(String, CfgNode)>) -> (r: Result<
        (),
        ConfigError,
    >)
        requires
            old(self).wf(),
        ensures
            final(self).wf(),
            match r {
                Ok(()) => old(self)@.with_client_exit(fields@) == Ok::<ConfigModel, Fault>(
                    final(self)@,
                ),
                Err(e) => old(self)@.with_client_exit(fields@) == Err::<ConfigModel, Fault>(e@),
            },
    {
        if let Some(node) = find_field(fields, "on_client_exit") {
            match node.as_str() {
                Ok(s) => match OnClientExit::parse(s) {
                    Some(on_client_exit) => {
                        self.on_client_exit = on_client_exit;
                    },
                    None => {
                        return Err(
                            ConfigError::at(
                                node.mark,
                                ErrorKind::UnknownClientExit(s.to_owned()),
                            ),
                        );
                    },
                },
                Err(e) => {
                    return Err(ConfigError::expected(e));
                },
            }
        }
        Ok(())
    }

    /// Lays a file over what is configured already.
    fn apply(
        &mut self,
        fields: &Vec<(String, CfgNode)>,
        cx: &CfgCx,
        prefs: ConsolePrefs,
    ) -> (r: Result<(), ConfigError>)
        requires
            old(self).wf(),
        ensures
            final(self).wf(),
            forall|file: ConfigFile|
                file.root.fields() == fields@ && file.cx == *cx && file.prefs == prefs ==> (
                #[trigger] old(self)@.applied(file)) == (match r {
                    Ok(()) => Ok::<ConfigModel, Fault>(final(self)@),
                    Err(e) => Err::<ConfigModel, Fault>(e@),
                }),
    {
        match self.apply_defaults(fields, cx) {
            Ok(()) => {},
            Err(e) => {
                return Err(e);
            },
        }
        self.apply_prefs(prefs);
        match self.apply_healthchecks(fields) {
            Ok(()) => {},
            Err(e) => {
                return Err(e);
            },
        }
        match self.apply_hooks(fields) {
            Ok(()) => {},
            Err(e) => {
                return Err(e);
            },
        }
        self.apply_client_exit(fields)
    }

    fn apply_procs(&mut self, fields: &Vec<(String, CfgNode)>, cx: &CfgCx) -> (r: Result<
        (),
        ConfigError,
    >)
        requires
            old(self).wf(),
        ensures
            final(self).wf(),
            match r {
                Ok(()) => old(self)@.with_procs(fields@, *cx) == Ok::<ConfigModel, Fault>(
                    final(self)@,
                ),
                Err(e) => old(self)@.with_procs(fields@, *cx) == Err::<ConfigModel, Fault>(e@),
            },
    {
        let node = match find_field(fields, "procs") {
            Some(node) => node,
            None => {
                return Ok(());
            },
        };
        let own = match node.as_obj() {
            Ok(own) => own,
            Err(e) => {
                return Err(ConfigError::expected(e));
            },
        };
        let ghost c = self@;
        let mut procs: Vec<ProcConfig> = Vec::new();
        let mut i: usize = 0;
        proof {
            assert(parsed_procs(procs@) =~= Seq::empty());
        }
        while i < own.len()
            invariant
                self.wf(),
                *self == *old(self),
                c == self@,
                i <= own@.len(),
                node.value is Object,
                own@ == node.fields(),
                entry(fields@, "procs"@) == Some(*node),
                forall|k: int| 0 <= k < procs@.len() ==> (#[trigger] procs@[k]).wf(),
                c.procs_upto(own@, *cx, i as nat) == Ok::<Seq<ParsedProc>, Fault>(
                    parsed_procs(procs@),
                ),
            decreases own@.len() - i,
        {
            match proc_from_cfg(
                own[i].0.clone(),
                &own[i].1,
                cx,
                &self.healthchecks,
                &self.hooks,
            ) {
                Ok(cfg) => {
                    let ghost before = procs@;
                    let ghost p = parsed(cfg@);
                    if self.proc_defaults.makes_checked_oneshot(&cfg) {
                        proof {
                            lemma_procs_error(c, own@, *cx, (i + 1) as nat, own@.len());
                        }
                        return Err(
                            ConfigError::at(own[i].1.mark, ErrorKind::OneshotWithHealthchecks),
                        );
                    }
                    procs.push(cfg);
                    proof {
                        assert(parsed_procs(procs@) =~= parsed_procs(before).push(p));
                    }
                },
                Err(e) => {
                    proof {
                        lemma_procs_error(c, own@, *cx, (i + 1) as nat, own@.len());
                    }
                    return Err(e);
                },
            }
            i += 1;
        }
        self.procs = procs;
        Ok(())
    }

    /// Reads the global file and that of the workspace.
    pub fn load(global: Option<(&str, ConfigFile)>, local: Option<ConfigFile>) -> (r: Result<
        Config,
        ConfigError,
    >)
        ensures
            ({
                let want = loaded(
                    match global {
                        Some((name, file)) => Some((name@, file)),
                        None => None,
                    },
                    local,
                );
                match r {
                    Ok(config) => config.wf() && want == Ok::<ConfigModel, Fault>(config@),
                    Err(e) => want == Err::<ConfigModel, Fault>(e@),
                }
            }),
    {
        let mut config = Config::make_default();
        if let Some((name, file)) = global {
            let fields = match file.root.as_obj() {
                Ok(fields) => fields,
                Err(e) => {
                    return Err(ConfigError::expected(e));
                },
            };
            if let Some(node) = find_field(fields, "procs") {
                return Err(
                    ConfigError::at(node.mark, ErrorKind::ProcsInGlobalConfig(name.to_owned())),
                );
            }
            match config.apply(fields, &file.cx, file.prefs) {
                Ok(()) => {},
                Err(e) => {
                    return Err(e);
                },
            }
        }
        if let Some(file) = local {
            let fields = match file.root.as_obj() {
                Ok(fields) => fields,
                Err(e) => {
                    return Err(ConfigError::expected(e));
                },
            };
            match config.apply(fields, &file.cx, file.prefs) {
                Ok(()) => {},
                Err(e) => {
                    return Err(e);
                },
            }
            match config.apply_procs(fields, &file.cx) {
                Ok(()) => {},
                Err(e) => {
                    return Err(e);
                },
            }
        }
        Ok(config)
    }
}

} // verus!
