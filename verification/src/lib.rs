//! Supervision of local development processes: health checks, dependencies,
//! lifecycle hooks and the terminal views that show them.

pub mod config;
pub mod console;
pub mod graph;
pub mod kernel;
pub mod mprocs;
pub mod process;
pub mod protocol;
pub mod task;
pub mod text;
pub mod term;
