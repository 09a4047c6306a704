//! Fixed-point fractions.

use vstd::prelude::*;

verus! {

/// The fixed-point value of 1.0: fractions are counted in millionths.
pub const ONE: i64 = 1_000_000;

/// The smallest ratio a split may hold (0.1).
pub const MIN_RATIO: i64 = 100_000;

/// The largest ratio a split may hold (0.9).
pub const MAX_RATIO: i64 = 900_000;

/// The even split used when a panel is docked beside another (0.5).
pub const HALF: i64 = 500_000;

/// `r` brought into `[MIN_RATIO, MAX_RATIO]`.
pub open spec fn clamp_ratio_spec(r: int) -> int {
    if r < MIN_RATIO {
        MIN_RATIO as int
    } else if r > MAX_RATIO {
        MAX_RATIO as int
    } else {
        r
    }
}

/// Brings a ratio into `[MIN_RATIO, MAX_RATIO]`, so that neither side of a
/// split collapses.
pub fn clamp_ratio(r: i64) -> (c: u32)
    ensures
        c as int == clamp_ratio_spec(r as int),
        MIN_RATIO <= c <= MAX_RATIO,
{
    if r < MIN_RATIO {
        MIN_RATIO as u32
    } else if r > MAX_RATIO {
        MAX_RATIO as u32
    } else {
        r as u32
    }
}

} // verus!
