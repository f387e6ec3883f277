//! BitDex: the verified core of a bitmap index service.

pub mod bitmap;
pub mod calendar;
pub mod config;
pub mod filter;
pub mod json;
pub mod pairs;
pub mod pg_sync;
pub mod planner;
pub mod prefilter;
pub mod preset;
pub mod query;
pub mod query_metrics;
pub mod radix_sort;
pub mod relay;
pub mod server;
pub mod text;
pub mod time_buckets;
