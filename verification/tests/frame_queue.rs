//! The video present queue.

use skyfire::sync::audio_clock::AudioClock;
use skyfire::sync::frame_queue::{decide, FrameAction, VideoFrame, VideoFrameQueue};

#[test]
fn frame_decisions() {
    assert_eq!(decide(1_000_000, 1_000_000, 20_000), FrameAction::Present);
    assert_eq!(decide(900_000, 1_000_000, 20_000), FrameAction::Drop);
    assert_eq!(decide(1_100_000, 1_000_000, 20_000), FrameAction::Hold);
}

#[test]
fn queue_empty_returns_none() {
    let mut q = VideoFrameQueue::new(8, 20_000, 100_000);
    assert!(q.is_empty());
    assert_eq!(q.pop(0), None);
}

#[test]
fn queue_present_in_order() {
    let mut q = VideoFrameQueue::new(8, 20_000, 100_000);
    q.push(VideoFrame {
        pts_us: 100_000,
        handle: 0,
    });
    q.push(VideoFrame {
        pts_us: 200_000,
        handle: 1,
    });
    q.push(VideoFrame {
        pts_us: 300_000,
        handle: 2,
    });

    // Clock at 90_000: frame 0 is within tolerance → Present.
    let (action, frame) = q.pop(90_000).unwrap();
    assert_eq!(action, FrameAction::Present);
    assert_eq!(frame.handle, 0);

    // Clock at 200_000: frame 1 is Present.
    let (action, frame) = q.pop(200_000).unwrap();
    assert_eq!(action, FrameAction::Present);
    assert_eq!(frame.handle, 1);

    // Clock at 210_000: frame 2 is still ahead → Hold.
    let (action, frame) = q.pop(210_000).unwrap();
    assert_eq!(action, FrameAction::Hold);
    assert_eq!(frame.handle, 2);
}

#[test]
fn queue_reorders_out_of_order_input() {
    let mut q = VideoFrameQueue::new(8, 20_000, 100_000);
    // B-frame reorder: decode order is 0, 2, 1, 4, 3
    q.push(VideoFrame {
        pts_us: 0,
        handle: 0,
    });
    q.push(VideoFrame {
        pts_us: 80_000,
        handle: 2,
    }); // out of order
    q.push(VideoFrame {
        pts_us: 40_000,
        handle: 1,
    }); // out of order
    q.push(VideoFrame {
        pts_us: 160_000,
        handle: 4,
    }); // out of order
    q.push(VideoFrame {
        pts_us: 120_000,
        handle: 3,
    }); // out of order

    // Clock at 0: frame 0 → Present
    let (action, frame) = q.pop(0).unwrap();
    assert_eq!(action, FrameAction::Present);
    assert_eq!(frame.handle, 0);

    // Clock at 40_000: frame 1 → Present
    let (action, frame) = q.pop(40_000).unwrap();
    assert_eq!(action, FrameAction::Present);
    assert_eq!(frame.handle, 1);

    // Clock at 80_000: frame 2 → Present
    let (action, frame) = q.pop(80_000).unwrap();
    assert_eq!(action, FrameAction::Present);
    assert_eq!(frame.handle, 2);

    // Clock at 120_000: frame 3 → Present
    let (action, frame) = q.pop(120_000).unwrap();
    assert_eq!(action, FrameAction::Present);
    assert_eq!(frame.handle, 3);

    // Clock at 130_000: frame 4 (PTS 160k) is 30k ahead > 20k tol → Hold.
    let (action, frame) = q.pop(130_000).unwrap();
    assert_eq!(action, FrameAction::Hold);
    assert_eq!(frame.handle, 4);
}

#[test]
fn queue_drops_late_frames() {
    let mut q = VideoFrameQueue::new(8, 20_000, 100_000);
    q.push(VideoFrame {
        pts_us: 50_000,
        handle: 0,
    });
    q.push(VideoFrame {
        pts_us: 80_000,
        handle: 1,
    });
    q.push(VideoFrame {
        pts_us: 200_000,
        handle: 2,
    });

    // Clock at 300_000: frames 0 and 1 are >100ms behind → dropped.
    // Frame 2 is also late (200k vs 300k) but within drop_late_us?
    // 300_000 - 200_000 = 100_000 — exactly at threshold.
    // decide: 200_000 < 300_000 - 20_000 = 280_000 → Drop.
    // But drop_late check: 200_000 < 300_000 - 100_000 = 200_000? No (not <).
    // So decide returns Drop (frame is late), which also pops + counts.
    let result = q.pop(300_000);
    // All 3 frames should be consumed by the loop.
    assert!(result.is_none());
    assert!(q.is_empty());
    assert!(q.dropped_late_count >= 2);
}

#[test]
fn queue_tolerance_prevents_thrash() {
    let mut q = VideoFrameQueue::new(8, 20_000, 100_000);
    // Frame PTS jitters ±10 ms around a clock that advances exactly.
    q.push(VideoFrame {
        pts_us: 100_000,
        handle: 0,
    });

    // Clock at 95_000: 100k is within ±20k → Present.
    assert_eq!(q.pop(95_000).unwrap().0, FrameAction::Present);

    q.push(VideoFrame {
        pts_us: 200_000,
        handle: 1,
    });
    // Clock at 215_000: 200k is 15k behind → still within tol → Present.
    assert_eq!(q.pop(215_000).unwrap().0, FrameAction::Present);

    q.push(VideoFrame {
        pts_us: 300_000,
        handle: 2,
    });
    // Clock at 285_000: 300k is 15k ahead → still within tol → Present.
    assert_eq!(q.pop(285_000).unwrap().0, FrameAction::Present);
}

#[test]
fn queue_hold_when_ahead() {
    let mut q = VideoFrameQueue::new(8, 20_000, 100_000);
    q.push(VideoFrame {
        pts_us: 500_000,
        handle: 0,
    });

    // Clock at 400_000: frame is 100k ahead > 20k tol → Hold.
    let (action, frame) = q.pop(400_000).unwrap();
    assert_eq!(action, FrameAction::Hold);
    assert_eq!(frame.handle, 0);
    assert_eq!(q.len(), 1); // frame not consumed

    // Clock catches up: 490_000, within 20k → Present.
    let (action, _) = q.pop(490_000).unwrap();
    assert_eq!(action, FrameAction::Present);
}

#[test]
fn queue_full_drops_push() {
    let mut q = VideoFrameQueue::new(2, 20_000, 100_000);
    q.push(VideoFrame {
        pts_us: 100_000,
        handle: 0,
    });
    q.push(VideoFrame {
        pts_us: 200_000,
        handle: 1,
    });
    assert!(q.is_full());

    q.push(VideoFrame {
        pts_us: 300_000,
        handle: 2,
    });
    assert_eq!(q.dropped_full_count, 1);
    assert_eq!(q.len(), 2);
}

#[test]
fn queue_drain_drops_all() {
    let mut q = VideoFrameQueue::new(8, 20_000, 100_000);
    q.push(VideoFrame {
        pts_us: 100_000,
        handle: 0,
    });
    q.push(VideoFrame {
        pts_us: 200_000,
        handle: 1,
    });
    assert_eq!(q.drain(), 2);
    assert!(q.is_empty());
    assert_eq!(q.dropped_late_count, 2);
}

#[test]
fn queue_counters_increment() {
    let mut q = VideoFrameQueue::new(8, 20_000, 100_000);
    q.push(VideoFrame {
        pts_us: 100_000,
        handle: 0,
    });
    q.push(VideoFrame {
        pts_us: 200_000,
        handle: 1,
    });
    q.push(VideoFrame {
        pts_us: 50_000,
        handle: 2,
    }); // out of order, ends up first

    // Clock at 0: 50k is ahead → Hold on head (50k).
    let (action, _) = q.pop(0).unwrap();
    assert_eq!(action, FrameAction::Hold);

    // Clock at 50_000: 50k → Present.
    let (action, _) = q.pop(50_000).unwrap();
    assert_eq!(action, FrameAction::Present);
    assert_eq!(q.presented_count, 1);

    // Clock at 500_000: 100k and 200k are >100ms behind → dropped_late.
    let _ = q.pop(500_000);
    assert!(q.is_empty());
    assert!(q.dropped_late_count >= 2);
    assert_eq!(q.presented_count, 1);
}

/// Simulate an audio clock advancing in 10 ms steps (~480 samples at
/// 48 kHz) while a stream of frames is pushed in decode order
/// (non‑monotonic PTS). Assert that presented frames track the clock
/// within tolerance and late frames are dropped.
#[test]
fn integration_simulated_av_sync() {
    let mut q = VideoFrameQueue::new(64, 20_000, 100_000);
    let mut clock = AudioClock::new(0, 48_000);
    // Advance clock at same pace as frame spacing: 40 ms = 1920 samples at 48 kHz.
    let samples_per_step: u64 = 1920;

    // Build 50 frames at nominal 40 ms spacing (25 fps), pushed in
    // decode order with B-frame reorder (GOP=3: I B B).
    let display_order: Vec<i64> = (0..50).map(|i| i * 40_000).collect();

    let mut decode_order: Vec<usize> = Vec::new();
    let mut i = 0usize;
    while i < 50 {
        decode_order.push(i);
        for b in 1..=2 {
            let bi = i + b;
            if bi < 50 {
                decode_order.push(bi);
            }
        }
        i += 3;
    }

    // Push all frames before starting playback (simulates a decode
    // burst ahead of the clock).
    for &display_idx in &decode_order {
        q.push(VideoFrame {
            pts_us: display_order[display_idx],
            handle: display_idx as u64,
        });
    }
    assert_eq!(q.len(), 50, "all 50 frames should be queued");

    // Now simulate playback: advance clock and present frames.
    let mut presented: Vec<u64> = Vec::new();

    // First, pop frames at clock=0 (frame with PTS=0).
    loop {
        match q.pop(AudioClock::media_time_us(&clock)) {
            Some((FrameAction::Present, f)) => {
                presented.push(f.handle);
            }
            Some((FrameAction::Drop, _)) => {}
            Some((FrameAction::Hold, _)) => break,
            None => break,
        }
    }

    for _step in 0..100 {
        let _ = clock.advance(samples_per_step);

        loop {
            let clock_us = clock.media_time_us();
            match q.pop(clock_us) {
                Some((FrameAction::Present, f)) => {
                    let diff = (f.pts_us - clock_us).abs();
                    assert!(
                        diff <= q.tol_us(),
                        "presented frame PTS {} too far from clock {} (diff={diff})",
                        f.pts_us,
                        clock_us
                    );
                    presented.push(f.handle);
                }
                Some((FrameAction::Drop, f)) => {
                    assert!(
                        f.pts_us < clock_us - q.tol_us(),
                        "dropped frame PTS {} should be behind clock {}",
                        f.pts_us,
                        clock_us
                    );
                }
                Some((FrameAction::Hold, _)) => break,
                None => break,
            }
        }

        if presented.len() >= 50 && q.is_empty() {
            break;
        }
    }

    assert_eq!(
        presented.len(),
        50,
        "expected 50 presented, got {} (dropped_late={}, dropped_full={})",
        presented.len(),
        q.dropped_late_count,
        q.dropped_full_count
    );

    let mut sorted = presented.clone();
    sorted.sort_unstable();
    assert_eq!(presented, sorted, "presented frames must be in PTS order");
}

#[test]
fn integration_late_frames_dropped_when_clock_runs_ahead() {
    let mut q = VideoFrameQueue::new(32, 20_000, 100_000);
    let mut clock = AudioClock::new(0, 48_000);

    q.push(VideoFrame {
        pts_us: 40_000,
        handle: 0,
    });
    q.push(VideoFrame {
        pts_us: 80_000,
        handle: 1,
    });
    q.push(VideoFrame {
        pts_us: 120_000,
        handle: 2,
    });

    // Advance clock far ahead — all frames are well behind.
    // 500_000 us at 48 kHz = 24_000 samples.
    let _ = clock.advance(24_000);
    assert!(clock.media_time_us() > 450_000);

    loop {
        let clock_us = clock.media_time_us();
        match q.pop(clock_us) {
            Some((FrameAction::Present, _)) => {
                panic!("no frame should present when clock is far ahead");
            }
            Some((FrameAction::Drop, _)) => { /* expected */ }
            Some((FrameAction::Hold, _)) => break,
            None => break,
        }
    }

    assert!(q.is_empty());
    assert_eq!(q.dropped_late_count, 3);
}

#[test]
fn every_frame_is_counted_once() {
    let mut q = VideoFrameQueue::new(3, 20_000, 100_000);
    let mut pushed = 0;
    for round in 0..10i64 {
        for n in 0..3i64 {
            q.push(VideoFrame {
                pts_us: round * 120_000 + n * 40_000,
                handle: 0,
            });
            pushed += 1;
            assert!(q.len() <= 3);
        }
        let _ = q.pop(round * 120_000 + 40_000);
        if round == 6 {
            q.drain();
        }
        let out = q.presented_count + q.dropped_late_count + q.dropped_full_count;
        assert_eq!(q.len() as u64 + out, pushed);
    }
    assert!(q.presented_count > 0 && q.dropped_late_count > 0 && q.dropped_full_count > 0);
}
