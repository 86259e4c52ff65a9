//! Who may use the interface: passwords, sessions and the limit on attempts.

pub mod access;
pub mod attempts;
pub mod error;
pub mod password;
pub mod session;
