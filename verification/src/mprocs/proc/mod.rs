//! Processes of the classic interface.

pub mod children;
pub mod copy_mode;
pub mod duties;
pub mod health;
pub mod history;
pub mod hooks;
pub mod launch;
pub mod launch_laws;
pub mod laws;
pub mod msg;
pub mod proc;
pub mod view;
