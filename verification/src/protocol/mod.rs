//! What clients and the daemon say to each other.

pub mod rpc;
