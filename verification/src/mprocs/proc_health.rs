//! Health checks, hooks and variables, which the classic configuration has in
//! common with the other one.

pub use crate::config::duration::parse_duration;
pub use crate::config::health::{
    parse_hook_registry, parse_hooks, parse_proc_healthchecks, parse_registry, HealthCheckDef,
    HealthCheckRegistry, HookDef, HookEvent, HookRegistry, HookSet,
};
pub use crate::config::node::CfgNode as Val;
pub use crate::config::vars::{substitute_vars, Vars};
