//! Timestamps of samples, brought to 90 kHz.

use vstd::prelude::*;

verus! {

/// A signed timestamp as an unsigned one; a negative one is no timestamp.
pub open spec fn ticks_of(ts: Option<i64>) -> Option<u64> {
    match ts {
        Some(v) => if v >= 0 {
            Some(v as u64)
        } else {
            None
        },
        None => None,
    }
}

/// `ticks_of` rescaled from `timescale` ticks per second to 90 kHz, rounded
/// down. Nothing is known of a timestamp without a timescale, nor of one that
/// does not fit.
pub open spec fn ticks_90k(ts: Option<i64>, timescale: u32) -> Option<u64> {
    match ticks_of(ts) {
        Some(raw) => if timescale == 0 || raw * 90_000 / timescale as int > u64::MAX {
            None
        } else {
            Some((raw * 90_000 / timescale as int) as u64)
        },
        None => None,
    }
}

/// Convert an absolute PTS/DTS tick value to unsigned ticks.
///
/// Returns `None` when there is no timestamp and when it is negative: wire
/// timestamps are unsigned, so a negative value is rejected rather than
/// wrapped or clamped.
pub fn checked_ticks(ts: Option<i64>) -> (ticks: Option<u64>)
    ensures
        ticks == ticks_of(ts),
{
    match ts {
        Some(v) => if v >= 0 {
            Some(v as u64)
        } else {
            None
        },
        None => None,
    }
}

/// Convert an absolute PTS/DTS tick value from the owning track's own
/// timescale to 90 kHz ticks.
///
/// Returns `None` when [`checked_ticks`] does, when the timescale is zero
/// (unknown) and when the result does not fit.
pub fn checked_ticks_90k(ts: Option<i64>, timescale: u32) -> (ticks: Option<u64>)
    ensures
        ticks == ticks_90k(ts, timescale),
{
    let raw: u64 = match checked_ticks(ts) {
        Some(raw) => raw,
        None => {
            return None;
        },
    };
    if timescale == 0 {
        return None;
    }
    let scaled: u128 = (raw as u128 * 90_000) / timescale as u128;
    if scaled > u64::MAX as u128 {
        None
    } else {
        Some(scaled as u64)
    }
}

/// At a timescale of 90 kHz the rescale changes nothing.
pub proof fn rescale_at_90k_is_identity(ts: Option<i64>)
    ensures
        ticks_90k(ts, 90_000) == ticks_of(ts),
{
}

/// A whole number of seconds is exact at any timescale.
pub proof fn whole_seconds_are_exact(seconds: nat, timescale: u32)
    requires
        timescale > 0,
        seconds * timescale <= i64::MAX,
        seconds * 90_000 <= u64::MAX,
    ensures
        ticks_90k(Some((seconds * timescale) as i64), timescale) == Some((seconds * 90_000) as u64),
{
    let s = seconds as int;
    let t = timescale as int;
    assert(0 <= s * t) by (nonlinear_arith)
        requires
            s >= 0,
            t > 0,
    ;
    assert((s * t) * 90_000 == (s * 90_000) * t) by (nonlinear_arith);
    vstd::arithmetic::div_mod::lemma_div_by_multiple(s * 90_000, t);
}

/// Rescaling keeps the order of timestamps of one track.
pub proof fn rescale_is_monotonic(a: i64, b: i64, timescale: u32)
    requires
        a <= b,
    ensures
        match (ticks_90k(Some(a), timescale), ticks_90k(Some(b), timescale)) {
            (Some(x), Some(y)) => x <= y,
            _ => true,
        },
{
    if a >= 0 && timescale > 0 {
        vstd::arithmetic::div_mod::lemma_div_pos_is_pos(a * 90_000, timescale as int);
        vstd::arithmetic::div_mod::lemma_div_is_ordered(
            a * 90_000,
            b * 90_000,
            timescale as int,
        );
    }
}

} // verus!
