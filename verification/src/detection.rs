//! Detection: the advisory Bloom filter, per-flush aggregation keys and the
//! pulse-wave tracker.

pub mod bloom;
pub mod batch;
pub mod aggregate;
pub mod subnet_scan;
pub mod rate_tracker;
pub mod flush;
pub mod engine;
