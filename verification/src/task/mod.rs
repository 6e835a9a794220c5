//! Process tasks.

pub mod child_vt;
pub mod duties;
pub mod health;
pub mod health_laws;
pub mod history;
pub mod hook_map;
pub mod hooks;
pub mod laws;
pub mod machine;
pub mod proc_task;
pub mod setup_laws;
