//! The audio clock and timestamps.

use skyfire::sync::audio_clock::AudioClock;
use skyfire::sync::pts::{pts_delta_33, PTS_90KHZ, PTS_RANGE};
use skyfire::ts::checked_ticks_90k;

#[test]
fn clock_counts_samples() {
    let mut clock = AudioClock::new(90_000, 48_000);
    assert_eq!(clock.media_time_us(), 1_000_000);
    assert_eq!(clock.advance(48_000), 2_000_000);
    assert_eq!(clock.advance(1), 2_000_020);
    clock.set_offset_us(-500);
    assert_eq!(clock.media_time_us(), 1_999_520);
    // It never goes back while playing.
    let mut last = clock.media_time_us();
    for n in 0..1000 {
        let now = clock.advance(n);
        assert!(now >= last);
        last = now;
    }
    // No overflow, and no division by zero.
    assert_eq!(clock.advance(u64::MAX), clock.media_time_us());
    let silent = AudioClock::new(0, 0);
    assert_eq!(silent.media_time_us(), 0);
}

#[test]
fn default_clock_is_at_zero() {
    let clock = AudioClock::default();
    assert_eq!(clock.media_time_us(), 0);
    assert_eq!(clock.sample_rate, 48_000);
}

#[test]
fn jumps_reanchor_the_clock() {
    let mut clock = AudioClock::new(0, 48_000);
    let _ = clock.advance(480);
    clock.push_pts(900);
    assert_eq!(clock.anchor_pts_raw, 0);
    assert_eq!(clock.samples_played, 480);
    clock.push_pts(10_000_000);
    assert_eq!(clock.anchor_pts_raw, 10_000_000);
    assert_eq!(clock.samples_played, 0);
}

#[test]
fn underrun_reanchors_at_the_next_pts() {
    let mut clock = AudioClock::new(0, 48_000);
    let _ = clock.advance(480);
    clock.signal_underrun();
    assert!(clock.underrun);
    clock.push_pts(1_000);
    assert_eq!(clock.anchor_pts_raw, 1_000);
    assert!(!clock.underrun);
}

#[test]
fn deltas_lead_to_the_new_timestamp() {
    for (new, old) in [(0, 0), (5, PTS_RANGE - 5), (PTS_RANGE - 5, 5), (PTS_RANGE / 2 + 9, 3)] {
        let delta = pts_delta_33(new, old);
        assert_eq!((old as i64 + delta).rem_euclid(PTS_RANGE as i64), new as i64);
        if delta.unsigned_abs() != PTS_RANGE / 2 {
            assert_eq!(pts_delta_33(old, new), -delta);
        }
    }
    assert_eq!(PTS_90KHZ, 90_000);
}

#[test]
fn rescaling_keeps_seconds_and_order() {
    for rate in [1u32, 25, 44_100, 48_000, 90_000, 27_000_000] {
        assert_eq!(checked_ticks_90k(Some(7 * i64::from(rate)), rate), Some(7 * 90_000));
        let a = checked_ticks_90k(Some(1000), rate).unwrap();
        let b = checked_ticks_90k(Some(1001), rate).unwrap();
        assert!(a <= b);
    }
}
