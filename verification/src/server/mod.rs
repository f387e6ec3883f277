//! The HTTP service: what it decides and what it answers.

pub mod answer;
pub mod boot;
pub mod documents;
pub mod dumps;
pub mod fanout;
pub mod fields;
pub mod gauges;
pub mod http;
pub mod indexes;
pub mod lookups;
pub mod memory;
pub mod mutations;
pub mod patch;
pub mod queries;
pub mod schema;
pub mod string_maps;
pub mod tasks;
pub mod wal;
