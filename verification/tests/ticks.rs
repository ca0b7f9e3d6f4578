//! Timestamps in 90 kHz ticks.

use skyfire::ts::tick_budget::{limit_for, MAX_SECONDS, MAX_TICKS};
use skyfire::ts::{checked_ticks, checked_ticks_90k};

#[test]
fn checked_ticks_none_stays_none() {
    assert_eq!(checked_ticks(None), None);
}

#[test]
fn checked_ticks_zero_is_some_zero() {
    assert_eq!(checked_ticks(Some(0)), Some(0));
}

#[test]
fn checked_ticks_positive_value_round_trips() {
    assert_eq!(checked_ticks(Some(900_000)), Some(900_000u64));
    assert_eq!(checked_ticks(Some(i64::MAX)), Some(i64::MAX as u64));
}

#[test]
fn checked_ticks_negative_value_is_rejected_not_wrapped() {
    // A plain cast would turn -1 into u64::MAX.
    let converted = checked_ticks(Some(-1));
    assert_eq!(converted, None, "negative PTS must not silently wrap");
    assert_ne!(converted, Some(u64::MAX));
}

#[test]
fn checked_ticks_i64_min_is_rejected() {
    assert_eq!(checked_ticks(Some(i64::MIN)), None);
}

#[test]
fn checked_ticks_90k_none_stays_none() {
    assert_eq!(checked_ticks_90k(None, 48_000), None);
}

#[test]
fn checked_ticks_90k_negative_is_rejected() {
    assert_eq!(checked_ticks_90k(Some(-1), 48_000), None);
}

#[test]
fn checked_ticks_90k_zero_timescale_is_unknown_not_div_by_zero() {
    // timescale == 0 means "unknown" -- must not panic (divide by zero)
    // and must not silently assume 90 kHz.
    assert_eq!(checked_ticks_90k(Some(1_000), 0), None);
}

#[test]
fn checked_ticks_90k_video_90khz_is_a_true_no_op() {
    // Video/subtitle tracks already carry timescale == 90_000. The same
    // multiply/divide code path must reproduce the input exactly, not
    // via a special case that could drift.
    assert_eq!(checked_ticks_90k(Some(900_000), 90_000), Some(900_000));
    assert_eq!(checked_ticks_90k(Some(0), 90_000), Some(0));
}

#[test]
fn checked_ticks_90k_audio_48khz_rescales_exactly() {
    // 48_000 ticks at 48 kHz == exactly 1 second == 90_000 ticks at 90 kHz.
    assert_eq!(checked_ticks_90k(Some(48_000), 48_000), Some(90_000));
    // 718_848 ticks @ 48 kHz == 14.976 s == 1_347_840 ticks @ 90 kHz.
    assert_eq!(checked_ticks_90k(Some(718_848), 48_000), Some(1_347_840));
}

#[test]
fn checked_ticks_90k_large_value_does_not_overflow_u64() {
    // i64::MAX (~2^63) * 90_000 (~2^17) is ~2^80: overflows u64 (2^64) if
    // computed there. Must use a u128 intermediate and, since the
    // quotient itself doesn't fit u64 for so small a timescale, return
    // None rather than truncate/wrap.
    assert_eq!(checked_ticks_90k(Some(i64::MAX), 1), None);
    // A large-but-still-u64-representable case must still be exact: a
    // 40-bit value at 90 kHz timescale is a no-op and must fit.
    let big: i64 = 1i64 << 40;
    assert_eq!(checked_ticks_90k(Some(big), 90_000), Some(big as u64));
}

#[test]
fn tick_limits_follow_the_timescale() {
    assert_eq!(limit_for(90_000), MAX_TICKS);
    assert_eq!(limit_for(48_000), MAX_TICKS);
    assert_eq!(limit_for(301), MAX_TICKS);
    assert_eq!(limit_for(300), 300 * MAX_SECONDS);
    assert_eq!(limit_for(1), MAX_SECONDS);
    assert_eq!(limit_for(0), MAX_SECONDS);
    assert_eq!(limit_for(u32::MAX), MAX_TICKS);
    // Neither scaling overflows at the limit.
    for timescale in [1u64, 25, 104, 300, 301, 90_000, u64::from(u32::MAX)] {
        let ticks = limit_for(timescale as u32);
        let top = (ticks + i32::MAX as u64).checked_mul(90_000).unwrap();
        assert!(top.checked_add(timescale / 2).is_some());
        let at_90khz = (ticks * 90_000 + timescale / 2) / timescale;
        assert!(at_90khz.checked_mul(300).is_some());
    }
}
