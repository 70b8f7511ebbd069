//! Typed time values: wall-clock timestamps for persisted records, monotonic
//! nanoseconds for local rate and TTL logic.

use vstd::prelude::*;
use crate::arith::{sat_add_u64_spec, sat_mul_u64, sat_mul_u64_spec, sat_sub_u64_spec};
use std::time::{Duration, Instant, SystemTime, UNIX_EPOCH};

verus! {

/// Maximum accepted clock skew into the future: five minutes.
pub const MAX_FUTURE_SKEW_NS: u64 = 300_000_000_000;

/// Maximum accepted age of an incoming event: twenty-four hours.
pub const MAX_EVENT_AGE_NS: u64 = 86_400_000_000_000;

#[verifier::external_type_specification]
#[verifier::external_body]
pub struct ExInstant(Instant);

/// Wall-clock time since the UNIX epoch in nanoseconds, as `SystemTime::now()`
/// reports it (zero when the clock reads before the epoch).
/// Nothing is claimed of the value: it is the machine's clock.
#[verifier::external_body]
pub(crate) fn unix_epoch_nanos() -> u128 {
    SystemTime::now().duration_since(UNIX_EPOCH).unwrap_or_default().as_nanos()
}

/// `Instant::now()`: a reading of the monotonic clock; nothing is claimed of it.
#[verifier::external_body]
pub(crate) fn instant_now() -> Instant {
    Instant::now()
}

/// `instant.duration_since(epoch).as_nanos()`: the saturating span between two
/// readings of the monotonic clock. Nothing is claimed of the value, as the
/// readings are opaque.
#[verifier::external_body]
fn instant_nanos_between(instant: Instant, epoch: Instant) -> u128 {
    instant.duration_since(epoch).as_nanos()
}

/// The `Duration` that `Duration::from_nanos(n)` builds.
pub uninterp spec fn duration_of_nanos(n: u64) -> Duration;

/// `Duration::from_nanos`: the duration of exactly `n` nanoseconds.
#[verifier::external_body]
fn duration_from_nanos(n: u64) -> (d: Duration)
    ensures
        d == duration_of_nanos(n),
{
    Duration::from_nanos(n)
}

/// Whole milliseconds of a nanosecond count, truncated to `u64`.
pub open spec fn millis_of_nanos(n: u128) -> u64 {
    (n / 1_000_000) as u64
}

/// Nanoseconds clamped to the `u64` range.
pub open spec fn clamp_u128_to_u64(n: u128) -> u64 {
    if n > u64::MAX as u128 {
        u64::MAX
    } else {
        n as u64
    }
}

fn clamp_nanos(n: u128) -> (r: u64)
    ensures
        r == clamp_u128_to_u64(n),
{
    if n > u64::MAX as u128 {
        u64::MAX
    } else {
        n as u64
    }
}

/// UTC wall-clock timestamp in milliseconds since the UNIX epoch.
#[derive(Debug, Clone, Copy, PartialEq, Eq, PartialOrd, Ord, Hash, Structural)]
pub struct EpochMillis(pub u64);

/// UTC wall-clock timestamp in nanoseconds since the UNIX epoch.
#[derive(Debug, Clone, Copy, PartialEq, Eq, PartialOrd, Ord, Hash, Structural)]
pub struct EpochNanos(pub u64);

/// Monotonic timestamp in nanoseconds relative to an arbitrary epoch.
#[derive(Debug, Clone, Copy, PartialEq, Eq, PartialOrd, Ord, Hash, Structural)]
pub struct MonotonicNanos(pub u64);

/// Why a timestamp was refused.
#[derive(Debug, Clone, Copy, PartialEq, Eq, Structural)]
pub enum TimestampError {
    /// More than five minutes in the future.
    TooFarFuture,
    /// More than twenty-four hours old.
    TooOld,
}

impl TimestampError {
    /// Human-readable description of the error.
    pub fn message(&self) -> (s: &'static str)
        ensures
            s@ == (match *self {
                TimestampError::TooFarFuture => "timestamp too far in the future"@,
                TimestampError::TooOld => "timestamp too old"@,
            }),
    {
        match self {
            TimestampError::TooFarFuture => "timestamp too far in the future",
            TimestampError::TooOld => "timestamp too old",
        }
    }
}

/// The verdict on timestamp `ts` when the clock reads `now`.
pub open spec fn timestamp_verdict(ts: u64, now: u64) -> Result<(), TimestampError> {
    if ts > sat_add_u64_spec(now, MAX_FUTURE_SKEW_NS) {
        Err(TimestampError::TooFarFuture)
    } else if sat_sub_u64_spec(now, ts) > MAX_EVENT_AGE_NS {
        Err(TimestampError::TooOld)
    } else {
        Ok(())
    }
}

impl EpochMillis {
    /// Current wall-clock time in milliseconds since the UNIX epoch.
    pub fn now() -> (r: Self)
        ensures
            exists|n: u128| r.0 == #[trigger] millis_of_nanos(n),
    {
        let n = unix_epoch_nanos();
        let r = EpochMillis((n / 1_000_000) as u64);
        assert(r.0 == millis_of_nanos(n));
        r
    }

    /// The same instant in nanoseconds, saturating at `u64::MAX`.
    pub fn as_nanos(self) -> (r: EpochNanos)
        ensures
            r.0 == sat_mul_u64_spec(self.0, 1_000_000),
    {
        EpochNanos(sat_mul_u64(self.0, 1_000_000))
    }

    /// The inner value.
    pub fn as_u64(self) -> (r: u64)
        ensures
            r == self.0,
    {
        self.0
    }
}

impl EpochNanos {
    /// Current wall-clock time in nanoseconds, clamped to `u64::MAX`.
    pub fn now() -> (r: Self)
        ensures
            exists|n: u128| r.0 == #[trigger] clamp_u128_to_u64(n),
    {
        EpochNanos(clamp_nanos(unix_epoch_nanos()))
    }

    /// The same instant in milliseconds, truncating sub-millisecond precision.
    pub fn as_millis(self) -> (r: EpochMillis)
        ensures
            r.0 == self.0 / 1_000_000,
    {
        EpochMillis(self.0 / 1_000_000)
    }

    /// The inner value.
    pub fn as_u64(self) -> (r: u64)
        ensures
            r == self.0,
    {
        self.0
    }

    /// Check this timestamp against the clock reading `now`.
    pub fn validate_at(self, now: u64) -> (r: Result<(), TimestampError>)
        ensures
            r == timestamp_verdict(self.0, now),
    {
        let future_limit: u64 = now.saturating_add(MAX_FUTURE_SKEW_NS);
        if self.0 > future_limit {
            return Err(TimestampError::TooFarFuture);
        }
        if now.saturating_sub(self.0) > MAX_EVENT_AGE_NS {
            return Err(TimestampError::TooOld);
        }
        Ok(())
    }

    /// Check this timestamp against the current wall clock: refused when more
    /// than five minutes ahead of it or more than twenty-four hours behind.
    pub fn validate(self) -> (r: Result<(), TimestampError>)
        ensures
            exists|now: u64| r == #[trigger] timestamp_verdict(self.0, now),
    {
        let now = EpochNanos::now().0;
        self.validate_at(now)
    }
}

impl MonotonicNanos {
    /// The monotonic time of `instant` measured from `epoch`, clamped to `u64`.
    pub fn from_instant(instant: Instant, epoch: Instant) -> (r: Self)
        ensures
            exists|n: u128| r.0 == #[trigger] clamp_u128_to_u64(n),
    {
        MonotonicNanos(clamp_nanos(instant_nanos_between(instant, epoch)))
    }

    /// Time elapsed since `earlier`, zero when `earlier` is later.
    pub fn duration_since(self, earlier: MonotonicNanos) -> (d: Duration)
        ensures
            d == duration_of_nanos(sat_sub_u64_spec(self.0, earlier.0)),
    {
        duration_from_nanos(self.0.saturating_sub(earlier.0))
    }

    /// The inner value.
    pub fn as_u64(self) -> (r: u64)
        ensures
            r == self.0,
    {
        self.0
    }
}

/// Current monotonic nanoseconds measured from `epoch`.
pub fn monotonic_now(epoch: Instant) -> (r: MonotonicNanos)
    ensures
        exists|n: u128| r.0 == #[trigger] clamp_u128_to_u64(n),
{
    MonotonicNanos::from_instant(instant_now(), epoch)
}

} // verus!
