//! The configuration of a process.

use crate::config::health::{
    check_views, clone_checks, HealthCheckDef, HealthCheckModel, HookSet, HookSetModel,
};
use crate::config::vars::Vars;
use crate::term::key::Key;
use crate::text::{clone_opt, clone_strings, opt_chars, strings_view};
use vstd::prelude::*;

verus! {

/// How a process is stopped.
#[derive(Debug)]
pub enum StopSignal {
    SIGINT,
    SIGTERM,
    SIGKILL,
    SendKeys(Vec<Key>),
    HardKill,
    /// A shell command that makes the process exit.
    Cmd(String),
}

impl Default for StopSignal {
    fn default() -> (r: Self)
        ensures
            r == StopSignal::SIGTERM,
    {
        StopSignal::SIGTERM
    }
}

impl Clone for StopSignal {
    fn clone(&self) -> (r: Self)
        ensures
            r.same_as(*self),
    {
        match self {
            StopSignal::SIGINT => StopSignal::SIGINT,
            StopSignal::SIGTERM => StopSignal::SIGTERM,
            StopSignal::SIGKILL => StopSignal::SIGKILL,
            StopSignal::SendKeys(keys) => {
                let mut out: Vec<Key> = Vec::new();
                let mut i: usize = 0;
                while i < keys.len()
                    invariant
                        i <= keys@.len(),
                        out@ == keys@.take(i as int),
                    decreases keys@.len() - i,
                {
                    out.push(keys[i]);
                    proof {
                        assert(keys@.take(i + 1) =~= keys@.take(i as int).push(keys@[i as int]));
                    }
                    i += 1;
                }
                proof {
                    assert(keys@.take(i as int) =~= keys@);
                }
                StopSignal::SendKeys(out)
            },
            StopSignal::HardKill => StopSignal::HardKill,
            StopSignal::Cmd(cmd) => StopSignal::Cmd(cmd.clone()),
        }
    }
}

/// A way of stopping, by its keys and characters.
#[verifier::ext_equal]
pub enum StopModel {
    Interrupt,
    Terminate,
    Kill,
    SendKeys(Seq<Key>),
    HardKill,
    Cmd(Seq<char>),
}

impl View for StopSignal {
    type V = StopModel;

    open spec fn view(&self) -> StopModel {
        match self {
            StopSignal::SIGINT => StopModel::Interrupt,
            StopSignal::SIGTERM => StopModel::Terminate,
            StopSignal::SIGKILL => StopModel::Kill,
            StopSignal::SendKeys(keys) => StopModel::SendKeys(keys@),
            StopSignal::HardKill => StopModel::HardKill,
            StopSignal::Cmd(cmd) => StopModel::Cmd(cmd@),
        }
    }
}

impl StopSignal {
    /// The same way of stopping, key by key and character by character.
    pub open spec fn same_as(self, other: StopSignal) -> bool {
        self@ == other@
    }
}

/// What a process runs.
#[derive(Debug)]
pub enum CmdConfig {
    Shell { shell: String },
    Cmd { cmd: Vec<String> },
}

#[verifier::ext_equal]
pub enum CmdModel {
    Shell(Seq<char>),
    Argv(Seq<Seq<char>>),
}

impl View for CmdConfig {
    type V = CmdModel;

    open spec fn view(&self) -> CmdModel {
        match self {
            CmdConfig::Shell { shell } => CmdModel::Shell(shell@),
            CmdConfig::Cmd { cmd } => CmdModel::Argv(strings_view(cmd@)),
        }
    }
}

impl Clone for CmdConfig {
    fn clone(&self) -> (r: Self)
        ensures
            r@ == self@,
    {
        match self {
            CmdConfig::Shell { shell } => CmdConfig::Shell { shell: shell.clone() },
            CmdConfig::Cmd { cmd } => CmdConfig::Cmd { cmd: clone_strings(cmd) },
        }
    }
}

#[derive(Clone, Copy, Debug, PartialEq, Eq, Structural)]
pub enum LogMode {
    Append,
    Truncate,
}

/// Where the output of a process is written.
#[derive(Debug)]
pub struct LogConfig {
    pub path: String,
    pub mode: LogMode,
}

#[verifier::ext_equal]
pub struct LogModel {
    pub path: Seq<char>,
    pub mode: LogMode,
}

impl View for LogConfig {
    type V = LogModel;

    open spec fn view(&self) -> LogModel {
        LogModel { path: self.path@, mode: self.mode }
    }
}

impl Clone for LogConfig {
    fn clone(&self) -> (r: Self)
        ensures
            r == *self,
    {
        LogConfig { path: self.path.clone(), mode: self.mode }
    }
}

/// Environment variables to set, or to remove, by their characters.
pub open spec fn env_view(env: Seq<(String, Option<String>)>) -> Seq<
    (Seq<char>, Option<Seq<char>>),
> {
    env.map_values(
        |e: (String, Option<String>)|
            (
                e.0@,
                match e.1 {
                    Some(v) => Some(v@),
                    None => None,
                },
            ),
    )
}

pub fn clone_env(v: &Vec<(String, Option<String>)>) -> (r: Vec<(String, Option<String>)>)
    ensures
        r@ == v@,
{
    let mut out: Vec<(String, Option<String>)> = Vec::new();
    let mut i: usize = 0;
    while i < v.len()
        invariant
            i <= v@.len(),
            out@ == v@.take(i as int),
        decreases v@.len() - i,
    {
        out.push((v[i].0.clone(), clone_opt(&v[i].1)));
        proof {
            assert(v@.take(i + 1) =~= v@.take(i as int).push(v@[i as int]));
        }
        i += 1;
    }
    proof {
        assert(v@.take(i as int) =~= v@);
    }
    out
}

pub struct ProcConfig {
    /// The name of the process.
    pub path: String,
    pub cmd: Option<CmdConfig>,
    pub cwd: Option<String>,
    pub env: Vec<(String, Option<String>)>,
    /// Directories that are added to the search path.
    pub add_path: Vec<String>,
    pub deps: Vec<String>,
    pub autostart: Option<bool>,
    pub autorestart: Option<bool>,
    /// The time in milliseconds before it is started again.
    pub restart_delay: Option<usize>,
    pub oneshot: Option<bool>,
    pub stop: Option<StopSignal>,
    pub log: Option<LogConfig>,
    pub scrollback_len: Option<usize>,
    pub mouse_scroll_speed: Option<usize>,
    pub vars: Vars,
    pub healthchecks: Vec<HealthCheckDef>,
    pub hooks: HookSet,
}

/// In milliseconds.
pub const DEFAULT_RESTART_DELAY: usize = 1000;

pub const DEFAULT_SCROLLBACK: usize = 1000;

pub const DEFAULT_MOUSE_SCROLL_SPEED: usize = 5;

/// The value of a setting, or its default.
pub open spec fn setting<T>(value: Option<T>, default: T) -> T {
    match value {
        Some(v) => v,
        None => default,
    }
}

/// A setting of `over`, or else that of `base`.
pub open spec fn preferred<T>(over: Option<T>, base: Option<T>) -> Option<T> {
    if over is Some {
        over
    } else {
        base
    }
}

fn prefer<T>(over: Option<T>, base: Option<T>) -> (r: Option<T>)
    ensures
        r == preferred(over, base),
{
    match over {
        Some(v) => Some(v),
        None => base,
    }
}

/// The settings of a process, by their characters.
#[verifier::ext_equal]
pub struct ProcSettings {
    pub path: Seq<char>,
    pub cmd: Option<CmdModel>,
    pub cwd: Option<Seq<char>>,
    pub env: Seq<(Seq<char>, Option<Seq<char>>)>,
    pub add_path: Seq<Seq<char>>,
    pub deps: Seq<Seq<char>>,
    pub autostart: Option<bool>,
    pub autorestart: Option<bool>,
    /// The time in milliseconds before it is started again.
    pub restart_delay: Option<usize>,
    pub oneshot: Option<bool>,
    pub stop: Option<StopModel>,
    pub log: Option<LogModel>,
    pub scrollback_len: Option<usize>,
    pub mouse_scroll_speed: Option<usize>,
    pub vars: Map<Seq<char>, String>,
    pub healthchecks: Seq<HealthCheckModel>,
    pub hooks: HookSetModel,
}

impl View for ProcConfig {
    type V = ProcSettings;

    open spec fn view(&self) -> ProcSettings {
        ProcSettings {
            path: self.path@,
            cmd: match self.cmd {
                Some(cmd) => Some(cmd@),
                None => None,
            },
            cwd: opt_chars(self.cwd),
            env: env_view(self.env@),
            add_path: strings_view(self.add_path@),
            deps: strings_view(self.deps@),
            autostart: self.autostart,
            autorestart: self.autorestart,
            restart_delay: self.restart_delay,
            oneshot: self.oneshot,
            stop: match self.stop {
                Some(stop) => Some(stop@),
                None => None,
            },
            log: match self.log {
                Some(log) => Some(log@),
                None => None,
            },
            scrollback_len: self.scrollback_len,
            mouse_scroll_speed: self.mouse_scroll_speed,
            vars: self.vars@,
            healthchecks: check_views(self.healthchecks@),
            hooks: self.hooks@,
        }
    }
}

/// A list, or another one where it is empty.
pub open spec fn nonempty<T>(over: Seq<T>, base: Seq<T>) -> Seq<T> {
    if over.len() > 0 {
        over
    } else {
        base
    }
}

impl ProcSettings {
    /// No setting is given.
    pub open spec fn blank() -> ProcSettings {
        ProcSettings {
            path: Seq::empty(),
            cmd: None,
            cwd: None,
            env: Seq::empty(),
            add_path: Seq::empty(),
            deps: Seq::empty(),
            autostart: None,
            autorestart: None,
            restart_delay: None,
            oneshot: None,
            stop: None,
            log: None,
            scrollback_len: None,
            mouse_scroll_speed: None,
            vars: Map::empty(),
            healthchecks: Seq::empty(),
            hooks: HookSetModel::none(),
        }
    }

    /// The settings of `over` laid over those of `self`.
    pub open spec fn overlaid(self, over: ProcSettings) -> ProcSettings {
        ProcSettings {
            path: over.path,
            cmd: preferred(over.cmd, self.cmd),
            cwd: preferred(over.cwd, self.cwd),
            env: self.env + over.env,
            add_path: nonempty(over.add_path, self.add_path),
            deps: nonempty(over.deps, self.deps),
            autostart: preferred(over.autostart, self.autostart),
            autorestart: preferred(over.autorestart, self.autorestart),
            restart_delay: preferred(over.restart_delay, self.restart_delay),
            oneshot: preferred(over.oneshot, self.oneshot),
            stop: preferred(over.stop, self.stop),
            log: preferred(over.log, self.log),
            scrollback_len: preferred(over.scrollback_len, self.scrollback_len),
            mouse_scroll_speed: preferred(over.mouse_scroll_speed, self.mouse_scroll_speed),
            vars: self.vars.union_prefer_right(over.vars),
            healthchecks: nonempty(over.healthchecks, self.healthchecks),
            hooks: self.hooks.overlaid(over.hooks),
        }
    }

    /// A one-shot whose health is checked: these exclude each other.
    pub open spec fn is_checked_oneshot(self) -> bool {
        self.oneshot == Some(true) && self.healthchecks.len() > 0
    }
}

/// Settings that are laid over others win, and laying no settings over others
/// changes only the name.
pub proof fn given_settings_win(base: ProcSettings, over: ProcSettings)
    ensures
        over.cmd is Some ==> base.overlaid(over).cmd == over.cmd,
        over.autostart is Some ==> base.overlaid(over).autostart == over.autostart,
        forall|k: Seq<char>|
            over.vars.dom().contains(k) ==> #[trigger] base.overlaid(over).vars[k]
                == over.vars[k],
        base.overlaid(ProcSettings { path: base.path, ..ProcSettings::blank() }) == base,
{
    let same = base.overlaid(ProcSettings { path: base.path, ..ProcSettings::blank() });
    assert(same =~= base);
}

impl Clone for ProcConfig {
    fn clone(&self) -> (r: Self)
        ensures
            r@ == self@,
            r.wf(),
    {
        ProcConfig {
            path: self.path.clone(),
            cmd: match &self.cmd {
                Some(cmd) => Some(cmd.clone()),
                None => None,
            },
            cwd: clone_opt(&self.cwd),
            env: clone_env(&self.env),
            add_path: clone_strings(&self.add_path),
            deps: clone_strings(&self.deps),
            autostart: self.autostart,
            autorestart: self.autorestart,
            restart_delay: self.restart_delay,
            oneshot: self.oneshot,
            stop: match &self.stop {
                Some(stop) => Some(stop.clone()),
                None => None,
            },
            log: match &self.log {
                Some(log) => Some(log.clone()),
                None => None,
            },
            scrollback_len: self.scrollback_len,
            mouse_scroll_speed: self.mouse_scroll_speed,
            vars: self.vars.clone(),
            healthchecks: clone_checks(&self.healthchecks),
            hooks: self.hooks.clone(),
        }
    }
}

impl Default for ProcConfig {
    fn default() -> (r: Self)
        ensures
            r.wf(),
            r@ == ProcSettings::blank(),
    {
        let r = ProcConfig {
            path: String::new(),
            cmd: None,
            cwd: None,
            env: Vec::new(),
            add_path: Vec::new(),
            deps: Vec::new(),
            autostart: None,
            autorestart: None,
            restart_delay: None,
            oneshot: None,
            stop: None,
            log: None,
            scrollback_len: None,
            mouse_scroll_speed: None,
            vars: Vars::new(),
            healthchecks: Vec::new(),
            hooks: HookSet::default(),
        };
        proof {
            assert(r@ =~= ProcSettings::blank());
        }
        r
    }
}

impl ProcConfig {
    pub open spec fn wf(self) -> bool {
        self.vars.wf()
    }

    pub fn autostart(&self) -> (r: bool)
        ensures
            r == setting(self.autostart, false),
    {
        self.autostart.unwrap_or(false)
    }

    pub fn autorestart(&self) -> (r: bool)
        ensures
            r == setting(self.autorestart, false),
    {
        self.autorestart.unwrap_or(false)
    }

    pub fn restart_delay(&self) -> (r: usize)
        ensures
            r == setting(self.restart_delay, DEFAULT_RESTART_DELAY),
    {
        self.restart_delay.unwrap_or(DEFAULT_RESTART_DELAY)
    }

    pub fn oneshot(&self) -> (r: bool)
        ensures
            r == setting(self.oneshot, false),
    {
        self.oneshot.unwrap_or(false)
    }

    pub fn scrollback_len(&self) -> (r: usize)
        ensures
            r == setting(self.scrollback_len, DEFAULT_SCROLLBACK),
    {
        self.scrollback_len.unwrap_or(DEFAULT_SCROLLBACK)
    }

    pub fn mouse_scroll_speed(&self) -> (r: usize)
        ensures
            r == setting(self.mouse_scroll_speed, DEFAULT_MOUSE_SCROLL_SPEED),
    {
        self.mouse_scroll_speed.unwrap_or(DEFAULT_MOUSE_SCROLL_SPEED)
    }

    pub fn stop(&self) -> (r: StopSignal)
        ensures
            r@ == setting(self@.stop, StopModel::Terminate),
    {
        match &self.stop {
            Some(stop) => stop.clone(),
            None => StopSignal::default(),
        }
    }

    /// Whether `over`, laid over these settings, is a one-shot whose health is
    /// checked.
    pub fn makes_checked_oneshot(&self, over: &ProcConfig) -> (r: bool)
        ensures
            r == self@.overlaid(over@).is_checked_oneshot(),
    {
        let oneshot = match over.oneshot {
            Some(b) => b,
            None => match self.oneshot {
                Some(b) => b,
                None => false,
            },
        };
        oneshot && (over.healthchecks.len() > 0 || self.healthchecks.len() > 0)
    }

    /// The settings of `over` laid over those of `self`.
    pub fn overlay(self, over: ProcConfig) -> (r: ProcConfig)
        requires
            self.wf(),
            over.wf(),
        ensures
            r.wf(),
            r@ == self@.overlaid(over@),
    {
        let mut env = self.env;
        let mut over_env = over.env;
        env.append(&mut over_env);
        let mut vars = self.vars;
        vars.extend(over.vars);
        let r = ProcConfig {
            path: over.path,
            cmd: prefer(over.cmd, self.cmd),
            cwd: prefer(over.cwd, self.cwd),
            env,
            add_path: if over.add_path.len() > 0 {
                over.add_path
            } else {
                self.add_path
            },
            deps: if over.deps.len() > 0 {
                over.deps
            } else {
                self.deps
            },
            autostart: prefer(over.autostart, self.autostart),
            autorestart: prefer(over.autorestart, self.autorestart),
            restart_delay: prefer(over.restart_delay, self.restart_delay),
            oneshot: prefer(over.oneshot, self.oneshot),
            stop: prefer(over.stop, self.stop),
            log: prefer(over.log, self.log),
            scrollback_len: prefer(over.scrollback_len, self.scrollback_len),
            mouse_scroll_speed: prefer(over.mouse_scroll_speed, self.mouse_scroll_speed),
            vars,
            healthchecks: if over.healthchecks.len() > 0 {
                over.healthchecks
            } else {
                self.healthchecks
            },
            hooks: self.hooks.overlay(over.hooks),
        };
        proof {
            assert(r@ =~= self@.overlaid(over@));
        }
        r
    }
}

} // verus!
