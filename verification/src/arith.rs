//! Saturating arithmetic with exact specifications.

use vstd::prelude::*;

verus! {

/// The saturating product of two `u64` values.
pub open spec fn sat_mul_u64_spec(a: u64, b: u64) -> u64 {
    if a * b > u64::MAX {
        u64::MAX
    } else {
        (a * b) as u64
    }
}

/// The saturating sum of two `u64` values.
pub open spec fn sat_add_u64_spec(a: u64, b: u64) -> u64 {
    if a + b > u64::MAX {
        u64::MAX
    } else {
        (a + b) as u64
    }
}

/// The saturating difference of two `u64` values.
pub open spec fn sat_sub_u64_spec(a: u64, b: u64) -> u64 {
    if a < b {
        0
    } else {
        (a - b) as u64
    }
}

/// `a * b`, clamped to `u64::MAX`.
pub fn sat_mul_u64(a: u64, b: u64) -> (r: u64)
    ensures
        r == sat_mul_u64_spec(a, b),
{
    match a.checked_mul(b) {
        Some(v) => v,
        None => u64::MAX,
    }
}

} // verus!
