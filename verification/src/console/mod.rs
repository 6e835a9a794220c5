//! The console: the state behind the terminal interface and its drawing.

pub mod action;
pub mod action_laws;
pub mod app;
pub mod app_layout;
pub mod dashboard;
pub mod deps;
pub mod deps_laws;
pub mod effect;
pub mod frames;
pub mod input;
pub mod input_laws;
pub mod keymap;
pub mod laws;
pub mod list;
pub mod list_laws;
pub mod look_laws;
pub mod main_loop;
pub mod names;
pub mod news_laws;
pub mod notify;
pub mod pane;
pub mod proc;
pub mod row_laws;
pub mod scope;
pub mod spawn;
pub mod spawn_laws;
pub mod state;
pub mod turn;
pub mod ui_procs;
pub mod ui_term;
