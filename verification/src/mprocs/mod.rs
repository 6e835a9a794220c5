//! The classic interface: its own process records, machine and views.

pub mod config;
pub mod frames;
pub mod look_laws;
pub mod proc;
pub mod proc_health;
pub mod state;
pub mod ui_procs;
pub mod ui_term;
