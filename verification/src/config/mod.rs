//! Configuration: parsed values, their validation and their defaults.

pub mod accept_laws;
pub mod binary64;
pub mod config;
pub mod cx;
pub mod duration;
pub mod duration_laws;
pub mod env;
pub mod error;
pub mod health;
pub mod laws;
pub mod node;
pub mod proc;
pub mod registry;
pub mod settings;
pub mod settings_laws;
pub mod stop;
pub mod vars;
