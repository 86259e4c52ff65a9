//! The DHCP server: addresses are handed out from a pool, offered for a short while, and leased.

pub mod exchange;
pub mod laws;
pub mod mac;
pub mod pool;
pub mod server;
pub mod store;
pub mod wire;
