//! Storage layer: write-ahead-log record formats, subnet keys and the
//! record types kept per IP and per subnet.

pub mod wal;
pub mod subnet;
pub mod store;
pub mod segments;
pub mod traffic;
