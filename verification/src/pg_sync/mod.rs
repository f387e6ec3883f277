//! Replication of PostgreSQL rows into the index.

pub mod template;
pub mod trigger_gen;
