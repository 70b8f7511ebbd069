//! Vocabulary of the traffic forecaster and the audit trail. (The
//! forecaster's estimators are floating point and run outside this crate.)

use vstd::prelude::*;
use crate::types::command::{EnforceAction, EnforceCommand};
use crate::types::net::IpAddr;

verus! {

/// Hypotheses of the Bayesian anomaly detector.
#[derive(Debug, Clone, Copy, PartialEq, Eq, Structural)]
pub enum Hypothesis {
    Normal,
    VolumetricDoS,
    SlowRampDoS,
    FlashCrowd,
}

impl Hypothesis {
    /// The hypothesis's slot in the posterior vector.
    pub fn index(&self) -> (r: usize)
        ensures
            r == (match *self {
                Hypothesis::Normal => 0usize,
                Hypothesis::VolumetricDoS => 1,
                Hypothesis::SlowRampDoS => 2,
                Hypothesis::FlashCrowd => 3,
            }),
    {
        match self {
            Hypothesis::Normal => 0,
            Hypothesis::VolumetricDoS => 1,
            Hypothesis::SlowRampDoS => 2,
            Hypothesis::FlashCrowd => 3,
        }
    }

    /// The hypothesis of a posterior slot.
    pub fn from_index(i: usize) -> (r: Option<Hypothesis>)
        ensures
            i < 4 <==> r is Some,
            r is Some ==> r->Some_0.index_spec() == i,
    {
        if i == 0 {
            Some(Hypothesis::Normal)
        } else if i == 1 {
            Some(Hypothesis::VolumetricDoS)
        } else if i == 2 {
            Some(Hypothesis::SlowRampDoS)
        } else if i == 3 {
            Some(Hypothesis::FlashCrowd)
        } else {
            None
        }
    }

    /// The slot of a hypothesis.
    pub open spec fn index_spec(&self) -> usize {
        match *self {
            Hypothesis::Normal => 0usize,
            Hypothesis::VolumetricDoS => 1,
            Hypothesis::SlowRampDoS => 2,
            Hypothesis::FlashCrowd => 3,
        }
    }
}

/// Kinds of audit events.
#[derive(Debug, Clone, Copy, PartialEq, Eq, Structural)]
pub enum AuditEventType {
    BlockDecision,
}

impl AuditEventType {
    /// The event type's code in the hashed audit record.
    pub fn code(&self) -> (r: u8)
        ensures
            r == 0,
    {
        match self {
            AuditEventType::BlockDecision => 0,
        }
    }
}

/// TTL of a forecaster's pre-emptive block: longer than a rate block, since
/// a predicted spike needs time to materialise or be re-validated.
pub const FORECAST_BLOCK_TTL_SECS: u64 = 300;

/// Fewest distinct addresses in the window for the forecaster to act.
pub const MIN_UNIQUE_IPS_TO_ACT: u64 = 10;

/// How the forecaster answers its leading hypothesis, as (pre-emptively
/// block, reset the CUSUM): nothing below `MIN_UNIQUE_IPS_TO_ACT`
/// addresses; a volumetric attack is blocked; a slow ramp is blocked and
/// the CUSUM re-armed; a flash crowd is legitimate and left alone.
pub fn hypothesis_response(best: Option<Hypothesis>, unique_ips: u64) -> (r: (bool, bool))
    ensures
        r.0 == (unique_ips >= MIN_UNIQUE_IPS_TO_ACT && (best == Some(Hypothesis::VolumetricDoS) || best
            == Some(Hypothesis::SlowRampDoS))),
        r.1 == (unique_ips >= MIN_UNIQUE_IPS_TO_ACT && best == Some(Hypothesis::SlowRampDoS)),
{
    if unique_ips < MIN_UNIQUE_IPS_TO_ACT {
        return (false, false);
    }
    match best {
        Some(Hypothesis::VolumetricDoS) => (true, false),
        Some(Hypothesis::SlowRampDoS) => (true, true),
        _ => (false, false),
    }
}

/// The block command the forecaster issues for a high-threat address.
pub fn forecast_block_command(ip: IpAddr, decision_id: u128, timestamp_utc: i64) -> (c: EnforceCommand)
    ensures
        c.decision_id == decision_id,
        c.policy_version == 1,
        c.source@ == "forecasting"@,
        c.actor@ == "system"@,
        c.timestamp_utc == timestamp_utc,
        c.ttl_seconds == FORECAST_BLOCK_TTL_SECS,
        c.reason@ == "forecast_anomaly"@,
        c.ip == ip,
        c.action == EnforceAction::Block,
{
    EnforceCommand {
        decision_id,
        policy_version: 1,
        source: "forecasting".to_string(),
        actor: "system".to_string(),
        timestamp_utc,
        ttl_seconds: FORECAST_BLOCK_TTL_SECS,
        reason: "forecast_anomaly".to_string(),
        ip,
        action: EnforceAction::Block,
    }
}

} // verus!
