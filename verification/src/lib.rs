//! RamShield core: the verified logic of a DDoS-mitigation engine — wire
//! formats, sketches, detectors, enforcement bookkeeping and the typed
//! time and address values they share.

pub mod analytics;
pub mod arith;
pub mod bytes;
pub mod cgnat;
pub mod checksum;
pub mod config;
pub mod mesh;
pub mod metrics;
pub mod detection;
pub mod enforcement;
pub mod forecasting;
pub mod protocol;
pub mod ramforge;
pub mod storage;
pub mod text;
pub mod types;
