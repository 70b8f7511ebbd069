//! Enforcement commands and their outcomes. Decision identifiers are UUIDs
//! held as their 128-bit value.

use vstd::prelude::*;
use crate::types::net::IpAddr;

verus! {

/// What a command asks of the enforcement service.
#[derive(Debug, Clone, Copy, PartialEq, Eq, Structural)]
pub enum EnforceAction {
    Block,
    Unblock,
}

/// A block or unblock request.
#[derive(Debug, Clone)]
pub struct EnforceCommand {
    pub decision_id: u128,
    pub policy_version: u64,
    pub source: String,
    pub actor: String,
    pub timestamp_utc: i64,
    pub ttl_seconds: u64,
    pub reason: String,
    pub ip: IpAddr,
    pub action: EnforceAction,
}

/// What enforcing a command did.
#[derive(Debug, Clone)]
pub struct EnforceResult {
    pub decision_id: u128,
    pub committed: bool,
    pub applied: bool,
    pub wal_lsn: Option<u64>,
    pub xdp_applied: bool,
    pub error: Option<String>,
}

/// Why a command was not enforced.
#[derive(Debug, Clone)]
pub enum EnforcementError {
    InvalidCommand(String),
    Wal(String),
    Storage(String),
    Xdp(String),
}

/// The payload of a block or unblock command.
#[derive(Debug, Clone)]
pub struct EnforcementCommand {
    pub decision_id: u128,
    pub policy_version: u64,
    pub source: String,
    pub actor: String,
    pub timestamp_utc: i64,
    pub ttl_seconds: u64,
    pub reason: String,
    pub ip: IpAddr,
}

/// A command of the enforcement protocol.
#[derive(Debug, Clone)]
pub enum Command {
    Block(EnforcementCommand),
    Unblock(EnforcementCommand),
}

} // verus!
