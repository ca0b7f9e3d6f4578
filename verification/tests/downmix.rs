//! Downmix routing and PCM samples.

use skyfire::ac3::downmix::{read_samples, stereo_routes, Gain, Route};
use skyfire::mpa::append_samples;

const K: f32 = 0.707;
const SCALE: f32 = 32_768.0;

fn s16le(samples: &[i16]) -> Vec<u8> {
    samples.iter().flat_map(|s| s.to_le_bytes()).collect()
}

/// Applies the routes to PCM.
fn downmix(pcm: &[u8], channels: u16) -> Vec<f32> {
    let gain = |g: Gain| match g {
        Gain::Silent => 0.0,
        Gain::Unity => 1.0,
        Gain::Reduced => K,
    };
    let routes = stereo_routes(channels);
    let samples = read_samples(pcm);
    let mut out = Vec::new();
    for frame in samples.chunks_exact(routes.len()) {
        let mut sides = [0.0f32, 0.0];
        for (route, s) in routes.iter().zip(frame) {
            sides[0] += gain(route.left) * f32::from(*s) / SCALE;
            sides[1] += gain(route.right) * f32::from(*s) / SCALE;
        }
        out.push(sides[0].clamp(-1.0, 1.0));
        out.push(sides[1].clamp(-1.0, 1.0));
    }
    out
}

#[test]
fn stereo_passes_through_scaled() {
    // Two stereo frames: (1000, -2000), (0, 32767).
    let pcm = s16le(&[1000, -2000, 0, 32767]);
    let out = downmix(&pcm, 2);
    assert_eq!(out.len(), 4);
    assert!((out[0] - 1000.0 / SCALE).abs() < 1e-6);
    assert!((out[1] - -2000.0 / SCALE).abs() < 1e-6);
    assert!((out[2] - 0.0).abs() < 1e-6);
    assert!((out[3] - 32767.0 / SCALE).abs() < 1e-6);
}

#[test]
fn mono_duplicates_to_both_channels() {
    // Two mono frames: 500, -1500.
    let pcm = s16le(&[500, -1500]);
    let out = downmix(&pcm, 1);
    assert_eq!(out.len(), 4);
    assert!((out[0] - 500.0 / SCALE).abs() < 1e-6);
    assert!((out[1] - 500.0 / SCALE).abs() < 1e-6);
    assert!((out[2] - -1500.0 / SCALE).abs() < 1e-6);
    assert!((out[3] - -1500.0 / SCALE).abs() < 1e-6);
}

#[test]
fn five_one_uses_itu_coefficients_and_drops_lfe() {
    // One 5.1 frame, WAVE order L,R,C,LFE,Ls,Rs.
    let (l, r, c, lfe, ls, rs) = (1000i16, 2000, 100, 9999, 10, 20);
    let pcm = s16le(&[l, r, c, lfe, ls, rs]);
    let out = downmix(&pcm, 6);
    assert_eq!(out.len(), 2, "one 5.1 frame → one stereo frame");
    let want_l = (f32::from(l) + K * f32::from(c) + K * f32::from(ls)) / SCALE;
    let want_r = (f32::from(r) + K * f32::from(c) + K * f32::from(rs)) / SCALE;
    assert!((out[0] - want_l).abs() < 1e-6, "L: got {} want {}", out[0], want_l);
    assert!((out[1] - want_r).abs() < 1e-6, "R: got {} want {}", out[1], want_r);
    // LFE (9999) must NOT leak in: neither channel should be near lfe/scale.
    assert!(out[0] < 0.1 && out[1] < 0.1, "LFE must be dropped");
}

#[test]
fn output_is_clamped_to_unit_range() {
    // 5.1 frame that oversums well past full-scale on both channels.
    let pcm = s16le(&[32767, 32767, 32767, 0, 32767, 32767]);
    let out = downmix(&pcm, 6);
    assert!(out[0] <= 1.0 && out[0] >= -1.0, "L clamped, got {}", out[0]);
    assert!(out[1] <= 1.0 && out[1] >= -1.0, "R clamped, got {}", out[1]);
    assert!((out[0] - 1.0).abs() < 1e-6, "oversum clamps to +1.0");
}

#[test]
fn routes_of_other_layouts() {
    let both = Route { left: Gain::Unity, right: Gain::Unity };
    assert_eq!(stereo_routes(0), vec![both]);
    assert_eq!(stereo_routes(1), vec![both]);
    let five = stereo_routes(5);
    assert_eq!(five[3], Route { left: Gain::Silent, right: Gain::Reduced });
    assert_eq!(five[4], Route { left: Gain::Reduced, right: Gain::Silent });
    let eight = stereo_routes(8);
    assert_eq!(eight.len(), 8);
    assert_eq!(eight[3], Route { left: Gain::Silent, right: Gain::Silent });
    assert_eq!(eight[6], Route { left: Gain::Reduced, right: Gain::Silent });
    // Only the LFE is heard nowhere.
    let silent = |r: &&Route| r.left == Gain::Silent && r.right == Gain::Silent;
    assert_eq!(eight.iter().filter(silent).count(), 1);
    assert_eq!(five.iter().filter(silent).count(), 0);
}

#[test]
fn samples_are_read_back() {
    let samples = vec![0i16, 1, -1, 255, 256, i16::MAX, i16::MIN];
    let mut pcm = Vec::new();
    append_samples(&mut pcm, &samples);
    assert_eq!(read_samples(&pcm), samples);
    pcm.push(5);
    assert_eq!(read_samples(&pcm), samples);
}
