//! Which domains are blocked: allow and deny lists, patterns, and the domains of blocklists.

pub mod domain_set;
pub mod hosts;
pub mod laws;
pub mod lists;
pub mod pattern;
pub mod wildcard;
