//! The classic configuration.

use crate::config::health::{HealthCheckDef, HookSet};
use crate::config::proc::StopSignal;
use crate::config::vars::Vars;
use crate::task::hooks::EnvOverrides;
use vstd::prelude::*;

verus! {

pub struct ProcConfig {
    pub name: String,
    pub deps: Vec<String>,
    pub autostart: bool,
    pub stop: StopSignal,
    pub cwd: Option<String>,
    pub env: Option<EnvOverrides>,
    pub vars: Vars,
    pub healthchecks: Vec<HealthCheckDef>,
    pub hooks: HookSet,
    pub scrollback_len: usize,
}

pub struct Config {
    pub proc_list_title: String,
}

} // verus!
