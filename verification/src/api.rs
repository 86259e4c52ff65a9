//! What the interface does with the bodies and parameters of requests.

pub mod json;
pub mod config_patch;
pub mod requests;
