//! Bounded-memory stream analytics: a decaying Count-Min Sketch for heavy
//! hitters and a HyperLogLog register array for per-subnet cardinality.

pub mod cms;
pub mod hll;
