//! The dependency-graph dashboard.

pub mod laws;
pub mod layout;
pub mod render;
