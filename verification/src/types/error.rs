use vstd::prelude::*;
use vstd::string::StringExecFns;
use crate::text::{append_decimal, ascii_lower_seq, chars_eq, chars_of, decimal, str_eq, to_ascii_lowercase_chars};

verus! {

/// Errors of the storage and durability layers.
#[derive(Debug)]
pub enum RsError {
    NotFound(String),
    CapacityExceeded { limit_mb: usize },
    Serde(String),
    Io(String),
    CorruptWal { offset: u64 },
    RecordTooLarge { size: usize, max: usize },
}

/// The operator-facing text of an error.
pub open spec fn error_text(e: RsError) -> Seq<char> {
    match e {
        RsError::NotFound(k) => "key not found: "@ + k@,
        RsError::CapacityExceeded { limit_mb } => "capacity exceeded: "@ + decimal(limit_mb as nat) + " MB"@,
        RsError::Serde(m) => "serde error: "@ + m@,
        RsError::Io(m) => "io error: "@ + m@,
        RsError::CorruptWal { offset } => "corrupt wal: "@ + decimal(offset as nat),
        RsError::RecordTooLarge { size, max } => "record too large: "@ + decimal(size as nat) + " bytes (max "@
            + decimal(max as nat) + ")"@,
    }
}

impl RsError {
    /// The operator-facing text of this error.
    pub fn to_text(&self) -> (r: String)
        ensures
            r@ == error_text(*self),
    {
        let mut out = String::new();
        match self {
            RsError::NotFound(k) => {
                out.append("key not found: ");
                out.append(k.as_str());
            },
            RsError::CapacityExceeded { limit_mb } => {
                out.append("capacity exceeded: ");
                append_decimal(&mut out, *limit_mb as u64);
                out.append(" MB");
            },
            RsError::Serde(m) => {
                out.append("serde error: ");
                out.append(m.as_str());
            },
            RsError::Io(m) => {
                out.append("io error: ");
                out.append(m.as_str());
            },
            RsError::CorruptWal { offset } => {
                out.append("corrupt wal: ");
                append_decimal(&mut out, *offset);
            },
            RsError::RecordTooLarge { size, max } => {
                out.append("record too large: ");
                append_decimal(&mut out, *size as u64);
                out.append(" bytes (max ");
                append_decimal(&mut out, *max as u64);
                out.append(")");
            },
        }
        proof {
            reveal_strlit("key not found: ");
            reveal_strlit("capacity exceeded: ");
            reveal_strlit(" MB");
            reveal_strlit("serde error: ");
            reveal_strlit("io error: ");
            reveal_strlit("corrupt wal: ");
            reveal_strlit("record too large: ");
            reveal_strlit(" bytes (max ");
            reveal_strlit(")");
        }
        out
    }
}

/// Canonical block-reason vocabulary, shared by the IPC and WAL wire formats.
#[derive(Debug, Clone, Copy, PartialEq, Eq, Structural)]
pub enum BlockReason {
    HighRps,
    SubnetBatch,
    ForecastAnomaly,
    EntropyAnomaly,
    ManualBlock,
}

/// The stable wire token of each reason.
pub open spec fn reason_token(r: BlockReason) -> Seq<char> {
    match r {
        BlockReason::HighRps => "high_rps"@,
        BlockReason::SubnetBatch => "subnet_burst"@,
        BlockReason::ForecastAnomaly => "forecast_anomaly"@,
        BlockReason::EntropyAnomaly => "entropy_anomaly"@,
        BlockReason::ManualBlock => "manual"@,
    }
}

/// Every token that `from_reason_str` accepts, with the reason it maps to.
pub open spec fn parse_reason_token(s: Seq<char>) -> Option<BlockReason> {
    if s == "high_rps"@ || s == "syn_flood"@ || s == "volumetric"@ || s == "slowloris"@ {
        Some(BlockReason::HighRps)
    } else if s == "subnet_burst"@ {
        Some(BlockReason::SubnetBatch)
    } else if s == "forecast_anomaly"@ {
        Some(BlockReason::ForecastAnomaly)
    } else if s == "entropy_anomaly"@ || s == "anomaly"@ {
        Some(BlockReason::EntropyAnomaly)
    } else if s == "manual"@ || s == "manual_unblock"@ || s == "manual_block"@ {
        Some(BlockReason::ManualBlock)
    } else {
        None
    }
}

impl BlockReason {
    /// Stable wire token used in enforcement commands and WAL entries.
    pub fn as_str(&self) -> (s: &'static str)
        ensures
            s@ == reason_token(*self),
    {
        match self {
            BlockReason::HighRps => "high_rps",
            BlockReason::SubnetBatch => "subnet_burst",
            BlockReason::ForecastAnomaly => "forecast_anomaly",
            BlockReason::EntropyAnomaly => "entropy_anomaly",
            BlockReason::ManualBlock => "manual",
        }
    }
}

impl BlockReason {
    /// Inverse of `as_str`, also accepting the legacy aliases of each reason.
    pub fn from_reason_str(r: &str) -> (out: Option<BlockReason>)
        ensures
            out == parse_reason_token(r@),
    {
        if str_eq(r, "high_rps") || str_eq(r, "syn_flood") || str_eq(r, "volumetric") || str_eq(
            r,
            "slowloris",
        ) {
            Some(BlockReason::HighRps)
        } else if str_eq(r, "subnet_burst") {
            Some(BlockReason::SubnetBatch)
        } else if str_eq(r, "forecast_anomaly") {
            Some(BlockReason::ForecastAnomaly)
        } else if str_eq(r, "entropy_anomaly") || str_eq(r, "anomaly") {
            Some(BlockReason::EntropyAnomaly)
        } else if str_eq(r, "manual") || str_eq(r, "manual_unblock") || str_eq(r, "manual_block") {
            Some(BlockReason::ManualBlock)
        } else {
            None
        }
    }
}

/// Equality of a character vector with a string literal's characters.
fn chars_are(v: &Vec<char>, lit: &str) -> (r: bool)
    ensures
        r == (v@ == lit@),
{
    let l = chars_of(lit);
    chars_eq(v, &l)
}

/// `parse_reason_token` over a character vector.
fn parse_reason_chars(v: &Vec<char>) -> (out: Option<BlockReason>)
    ensures
        out == parse_reason_token(v@),
{
    if chars_are(v, "high_rps") || chars_are(v, "syn_flood") || chars_are(v, "volumetric")
        || chars_are(v, "slowloris") {
        Some(BlockReason::HighRps)
    } else if chars_are(v, "subnet_burst") {
        Some(BlockReason::SubnetBatch)
    } else if chars_are(v, "forecast_anomaly") {
        Some(BlockReason::ForecastAnomaly)
    } else if chars_are(v, "entropy_anomaly") || chars_are(v, "anomaly") {
        Some(BlockReason::EntropyAnomaly)
    } else if chars_are(v, "manual") || chars_are(v, "manual_unblock") || chars_are(
        v,
        "manual_block",
    ) {
        Some(BlockReason::ManualBlock)
    } else {
        None
    }
}

/// The block reason a free-form reason string names: its ASCII-lowercased
/// form read as a token, and a manual block when it names none.
pub open spec fn reason_of_text(reason: Seq<char>) -> BlockReason {
    match parse_reason_token(ascii_lower_seq(reason)) {
        Some(r) => r,
        None => BlockReason::ManualBlock,
    }
}

/// Map a free-form reason string to a block reason (case-insensitive;
/// unknown reasons are manual blocks).
pub fn reason_to_block_reason(reason: &str) -> (r: BlockReason)
    ensures
        r == reason_of_text(reason@),
{
    let cs = chars_of(reason);
    let lower = to_ascii_lowercase_chars(&cs);
    match parse_reason_chars(&lower) {
        Some(r) => r,
        None => BlockReason::ManualBlock,
    }
}

/// Reading back the token of any reason gives that reason.
pub proof fn lemma_reason_token_roundtrip(r: BlockReason)
    ensures
        parse_reason_token(reason_token(r)) == Some(r),
{
    reveal_strlit("high_rps");
    reveal_strlit("syn_flood");
    reveal_strlit("volumetric");
    reveal_strlit("slowloris");
    reveal_strlit("subnet_burst");
    reveal_strlit("forecast_anomaly");
    reveal_strlit("entropy_anomaly");
    reveal_strlit("anomaly");
    reveal_strlit("manual");
    reveal_strlit("manual_unblock");
    reveal_strlit("manual_block");
    let t = reason_token(r);
    match r {
        BlockReason::HighRps => {},
        BlockReason::SubnetBatch => {
            assert(t[0] != "high_rps"@[0]);
            assert(t[0] != "syn_flood"@[0] || t[1] != "syn_flood"@[1]);
            assert(t.len() != "volumetric"@.len());
            assert(t.len() != "slowloris"@.len());
        },
        BlockReason::ForecastAnomaly => {
            assert(t.len() != "high_rps"@.len());
            assert(t.len() != "syn_flood"@.len());
            assert(t.len() != "volumetric"@.len());
            assert(t.len() != "slowloris"@.len());
            assert(t.len() != "subnet_burst"@.len());
        },
        BlockReason::EntropyAnomaly => {
            assert(t.len() != "high_rps"@.len());
            assert(t.len() != "syn_flood"@.len());
            assert(t.len() != "volumetric"@.len());
            assert(t.len() != "slowloris"@.len());
            assert(t.len() != "subnet_burst"@.len());
            assert(t.len() != "forecast_anomaly"@.len());
        },
        BlockReason::ManualBlock => {
            assert(t.len() != "high_rps"@.len());
            assert(t.len() != "syn_flood"@.len());
            assert(t.len() != "volumetric"@.len());
            assert(t.len() != "slowloris"@.len());
            assert(t.len() != "subnet_burst"@.len());
            assert(t.len() != "forecast_anomaly"@.len());
            assert(t.len() != "entropy_anomaly"@.len());
            assert(t.len() != "anomaly"@.len());
        },
    }
}

/// Durability level requested of the write-ahead log.
#[derive(Debug, Clone, Copy, PartialEq, Eq, Structural)]
pub enum Durability {
    NoSync,
    Flush,
    Fsync,
    GroupCommit,
}

} // verus!
