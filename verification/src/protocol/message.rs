//! IPC request vocabulary shared by clients and the server.

use vstd::prelude::*;

verus! {

/// Client-to-server requests.
#[derive(Debug, Clone)]
pub enum Request {
    CheckIp { ip: String },
    BlockIp { ip: String, reason: String, ttl_secs: Option<u64> },
    UnblockIp { ip: String },
    GetIpStats { ip: String },
    GetStats,
    GetStatus,
    ReportConnection { ip: String, bytes: u64, status_code: u16, proto_fp: u32 },
    ReportConnections { events: Vec<ConnectionReport> },
    Flush,
}

/// One connection report of a batch.
#[derive(Debug, Clone)]
pub struct ConnectionReport {
    pub ip: String,
    pub bytes: u64,
    pub status_code: u16,
    pub proto_fp: u32,
}

/// Global statistics.
#[derive(Debug, Clone, Copy, PartialEq, Eq, Structural)]
pub struct Stats {
    pub ips_tracked: usize,
    pub blocked: u64,
    pub ram_bytes: usize,
    pub ram_limit_mb: usize,
    pub uptime_secs: u64,
    pub evictions: u64,
}

} // verus!
