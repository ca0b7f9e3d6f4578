//! Arithmetic on 33-bit presentation timestamps.

use vstd::prelude::*;

verus! {

/// 33-bit PTS range (0 .. 2^33). ISO/IEC 13818-1 §2.4.3.7.
pub const PTS_RANGE: u64 = 0x2_0000_0000;

/// 90 kHz PTS clock frequency.
pub const PTS_90KHZ: u64 = 90_000;

/// Microseconds of a tick count at 90 kHz, rounded down.
pub open spec fn ticks_to_us(ticks: int) -> int {
    ticks * 100 / 9
}

/// Convert a raw 33-bit (modulo 2^33) PTS at 90 kHz into microseconds.
pub fn pts_33_to_us(raw: u64) -> (us: i64)
    requires
        raw < PTS_RANGE,
    ensures
        us == ticks_to_us(raw as int),
        0 <= us < PTS_RANGE * 100 / 9,
{
    ((raw * 100) / 9) as i64
}

/// The signed distance from `old_raw` to `new_raw` on the circle of 2^33
/// ticks: the representative of `new_raw - old_raw` modulo 2^33 that lies in
/// `(-2^32, 2^32]`.
pub open spec fn wrapped_delta(new_raw: int, old_raw: int) -> int {
    let d = (new_raw - old_raw) % (PTS_RANGE as int);
    if d > PTS_RANGE / 2 {
        d - PTS_RANGE
    } else {
        d
    }
}

/// Compute the signed delta between two 33-bit PTS values, handling wrap.
///
/// A positive result means `new_raw` is ahead of `old_raw` in the wrapped
/// timeline.
pub fn pts_delta_33(new_raw: u64, old_raw: u64) -> (delta: i64)
    requires
        new_raw < PTS_RANGE,
        old_raw < PTS_RANGE,
    ensures
        delta == wrapped_delta(new_raw as int, old_raw as int),
        -(PTS_RANGE as int) / 2 < delta <= PTS_RANGE / 2,
{
    let raw_diff: u64 = if new_raw >= old_raw {
        new_raw - old_raw
    } else {
        new_raw + PTS_RANGE - old_raw
    };
    let half: i64 = (PTS_RANGE / 2) as i64;
    let diff: i64 = raw_diff as i64;
    if diff > half {
        diff - PTS_RANGE as i64
    } else {
        diff
    }
}

/// Going forward from `a` by the delta that leads to `b` arrives at `b`,
/// modulo the 33-bit range, so the delta loses nothing but whole wraps.
pub proof fn delta_leads_to_new(b: u64, a: u64)
    requires
        a < PTS_RANGE,
        b < PTS_RANGE,
    ensures
        (a + wrapped_delta(b as int, a as int)) % (PTS_RANGE as int) == b,
{
}

/// Swapping the two timestamps negates the delta, except half a range apart,
/// where both directions are as long and the positive one is reported.
pub proof fn delta_is_antisymmetric(a: u64, b: u64)
    requires
        a < PTS_RANGE,
        b < PTS_RANGE,
        wrapped_delta(a as int, b as int) != PTS_RANGE / 2,
    ensures
        wrapped_delta(b as int, a as int) == -wrapped_delta(a as int, b as int),
{
}

/// A stream that moves forward by less than half a range reports exactly that
/// step, whether or not the counter wrapped on the way.
pub proof fn delta_survives_wrap(old_raw: u64, step: u64)
    requires
        old_raw < PTS_RANGE,
        step <= PTS_RANGE / 2,
    ensures
        wrapped_delta((old_raw + step) % (PTS_RANGE as int), old_raw as int) == step,
{
}

/// One second of 90 kHz ticks is one million microseconds, wherever it starts.
pub proof fn second_is_a_million_us(raw: u64)
    ensures
        ticks_to_us(raw + PTS_90KHZ) == ticks_to_us(raw as int) + 1_000_000,
{
}

} // verus!
