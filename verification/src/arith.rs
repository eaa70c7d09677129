//! Saturating 64-bit accumulation: totals clamp at the maximum representable
//! value instead of wrapping or panicking.

use vstd::prelude::*;

verus! {

/// `a + b`, clamped at `u64::MAX`.
pub open spec fn sat_add64(a: u64, b: u64) -> u64 {
    if a + b > u64::MAX {
        u64::MAX
    } else {
        (a + b) as u64
    }
}

/// `a * b`, clamped at `u64::MAX`.
pub open spec fn sat_mul64(a: u64, b: u64) -> u64 {
    if a * b > u64::MAX {
        u64::MAX
    } else {
        (a * b) as u64
    }
}

/// Saturating addition is associative.
pub proof fn lemma_sat_add64_assoc(a: u64, b: u64, c: u64)
    ensures
        sat_add64(sat_add64(a, b), c) == sat_add64(a, sat_add64(b, c)),
{
}

/// Executable saturating multiplication.
pub fn sat_mul_u64(a: u64, b: u64) -> (r: u64)
    ensures
        r == sat_mul64(a, b),
{
    match a.checked_mul(b) {
        Some(v) => v,
        None => u64::MAX,
    }
}

} // verus!
