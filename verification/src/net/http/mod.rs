//! HTTP over sockets of the scheduler.

pub mod conn;
pub mod server;
