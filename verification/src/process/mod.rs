//! Operating system processes.

pub mod unix_processes_waiter;
