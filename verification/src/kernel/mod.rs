//! Tasks: their identity, paths and the messages about them.

pub mod context;
pub mod path;
pub mod screen_cmd;
pub mod task;
