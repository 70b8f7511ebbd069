//! Connection telemetry and block decisions exchanged between stages.

use vstd::prelude::*;
use crate::types::error::BlockReason;
use crate::types::ip_network::IpNetwork;
use crate::types::net::IpAddr;

verus! {

/// One observed connection.
#[derive(Debug, Clone, Copy)]
pub struct ConnectionEvent {
    pub ip: IpAddr,
    pub timestamp_ns: u64,
    pub bytes: u64,
    pub status_code: u16,
    pub proto_fingerprint: u32,
}

/// A decision to block an address.
#[derive(Debug, Clone, Copy)]
pub struct BlockDecision {
    pub ip: IpAddr,
    pub reason: BlockReason,
    pub ttl_secs: Option<u64>,
    /// Batch subnet that triggered the block (IPv4 /24 or IPv6 /64).
    pub batch_subnet: Option<IpNetwork>,
}

} // verus!
