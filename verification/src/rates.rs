//! Converting cumulative counter deltas into rates and percentages.
//!
//! Every function here is total over its allowed inputs and never yields a
//! negative or overflowing value: a decreasing counter (pid reuse, counter
//! wraparound) and a too-small elapsed interval both collapse to a rate of
//! zero, and results that would not fit saturate at `u64::MAX`.

use vstd::prelude::*;

verus! {

/// Hundredths of a percent in one hundred percent.
pub const CENTI_PERCENT_FULL: u64 = 10000;

/// What a per-second rate over a counter delta is: zero when no time passed
/// or when the counter went backwards (a reset baseline), else the delta in
/// counter units per second, capped at `u64::MAX`.
pub open spec fn spec_rate_per_sec(prev: u64, cur: u64, elapsed_millis: u64) -> int {
    if elapsed_millis == 0 || cur < prev {
        0
    } else {
        let exact = (cur - prev) * 1000 / (elapsed_millis as int);
        if exact > u64::MAX {
            u64::MAX as int
        } else {
            exact
        }
    }
}

/// What the CPU percentage over a CPU-time delta is, in hundredths of a
/// percent: zero when no time passed or the counter went backwards, else
/// the share of one core's elapsed time, divided by `divisor` (the core
/// count on platforms whose counter accumulates over all cores).
pub open spec fn spec_cpu_centi_percent(
    prev: u64,
    cur: u64,
    elapsed_millis: u64,
    divisor: u64,
) -> int {
    if elapsed_millis == 0 || divisor == 0 || cur < prev {
        0
    } else {
        let exact = (cur - prev) * (CENTI_PERCENT_FULL as int) / (elapsed_millis * divisor);
        if exact > u64::MAX {
            u64::MAX as int
        } else {
            exact
        }
    }
}

/// What the memory percentage is, in hundredths of a percent: the resident
/// share of total memory, clamped to one hundred percent.
pub open spec fn spec_mem_centi_percent(bytes: u64, total_memory_bytes: u64) -> int {
    if total_memory_bytes == 0 {
        0
    } else {
        let exact = bytes * (CENTI_PERCENT_FULL as int) / (total_memory_bytes as int);
        if exact > CENTI_PERCENT_FULL {
            CENTI_PERCENT_FULL as int
        } else {
            exact
        }
    }
}

/// Bytes (or any counter units) per second between two cumulative samples.
/// A decreasing counter resets the baseline and reports zero, never a
/// negative rate; an elapsed time of zero reports zero rather than divide.
pub fn rate_per_sec(prev: u64, cur: u64, elapsed_millis: u64) -> (r: u64)
    ensures
        r == spec_rate_per_sec(prev, cur, elapsed_millis),
{
    if elapsed_millis == 0 || cur < prev {
        0
    } else {
        let delta = cur - prev;
        let num = (delta as u128) * 1000u128;
        let q = num / (elapsed_millis as u128);
        if q > u64::MAX as u128 {
            u64::MAX
        } else {
            q as u64
        }
    }
}

/// CPU usage in hundredths of a percent between two cumulative CPU-time
/// samples, divided by `divisor` where the platform's counter accumulates
/// over all cores. First observations are handled by the caller; a
/// decreasing counter or an empty interval reports zero.
pub fn cpu_centi_percent(prev: u64, cur: u64, elapsed_millis: u64, divisor: u64) -> (r: u64)
    requires
        divisor >= 1,
    ensures
        r == spec_cpu_centi_percent(prev, cur, elapsed_millis, divisor),
{
    if elapsed_millis == 0 || cur < prev {
        0
    } else {
        let delta = cur - prev;
        proof {
            assert((delta as int) * (CENTI_PERCENT_FULL as int) <= u128::MAX) by (nonlinear_arith)
                requires
                    delta <= u64::MAX,
            ;
            assert((elapsed_millis as int) * (divisor as int) <= u128::MAX) by (nonlinear_arith)
                requires
                    elapsed_millis <= u64::MAX,
                    divisor <= u64::MAX,
            ;
            assert((elapsed_millis as int) * (divisor as int) >= 1) by (nonlinear_arith)
                requires
                    elapsed_millis >= 1,
                    divisor >= 1,
            ;
        }
        let num = (delta as u128) * (CENTI_PERCENT_FULL as u128);
        let den = (elapsed_millis as u128) * (divisor as u128);
        let q = num / den;
        if q > u64::MAX as u128 {
            u64::MAX
        } else {
            q as u64
        }
    }
}

/// Memory usage as a share of total memory, in hundredths of a percent,
/// clamped to `[0, 10000]`: an instantaneous ratio that needs no prior
/// sample, and stays at most one hundred percent whatever the resident
/// bytes report.
pub fn mem_centi_percent(bytes: u64, total_memory_bytes: u64) -> (r: u64)
    requires
        total_memory_bytes >= 1,
    ensures
        r == spec_mem_centi_percent(bytes, total_memory_bytes),
        r <= CENTI_PERCENT_FULL,
{
    let num = (bytes as u128) * (CENTI_PERCENT_FULL as u128);
    let q = num / (total_memory_bytes as u128);
    if q > CENTI_PERCENT_FULL as u128 {
        CENTI_PERCENT_FULL
    } else {
        q as u64
    }
}

} // verus!
