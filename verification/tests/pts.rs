//! 33-bit timestamps.

use skyfire::sync::pts::{pts_33_to_us, pts_delta_33, PTS_RANGE};

#[test]
fn pts_33_to_us_converts_correctly() {
    assert_eq!(pts_33_to_us(0), 0);
    assert_eq!(pts_33_to_us(90_000), 1_000_000);
    assert_eq!(pts_33_to_us(9), 100);
}

#[test]
fn pts_delta_33_no_wrap() {
    assert_eq!(pts_delta_33(900, 0), 900);
    assert_eq!(pts_delta_33(0, 900), -900);
}

#[test]
fn pts_delta_33_forward_wrap() {
    let old = PTS_RANGE - 900;
    let new = 900;
    let delta = pts_delta_33(new, old);
    assert!(delta > 0);
    assert_eq!(delta, 1800);
}

#[test]
fn pts_delta_33_backward_wrap() {
    let old = 900;
    let new = PTS_RANGE - 900;
    let delta = pts_delta_33(new, old);
    assert!(delta < 0);
    assert_eq!(delta, -1800);
}

#[test]
fn pts_delta_33_half_range() {
    let delta = pts_delta_33(PTS_RANGE / 2, 0);
    assert_eq!(delta, PTS_RANGE as i64 / 2);
}
