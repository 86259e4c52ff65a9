//! The resolver: messages, cache, routing, and the way to the upstream servers.

pub mod cache;
pub mod cache_laws;
pub mod cache_table;
pub mod dot;
pub mod dot_task;
pub mod forwarder;
pub mod frame;
pub mod listener;
pub mod message;
pub mod rate_limit;
pub mod reply;
pub mod router;
pub mod router_laws;
