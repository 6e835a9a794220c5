//! Processes as the console shows them.

pub mod child;
pub mod view;
