//! What is kept in the databases: queries, sessions, lists.

pub mod gravity;
pub mod queries;
pub mod schema;
pub mod status;
pub mod writer;
