//! What the clock and the decisions on frames mean in time.

use vstd::prelude::*;
use crate::sync::audio_clock::AudioClock;
use crate::sync::frame_queue::{
    counted, decision, earliest, kept, popped, FrameAction, VideoFrame, VideoFrameQueue,
};
use crate::sync::pts::{ticks_to_us, PTS_RANGE};
use crate::sync::sync_controller::{ticked, SyncController};

verus! {

/// Whether `us` is a number of ticks at 90 kHz in microseconds, rounded down.
pub open spec fn is_us(us: int, ticks: int) -> bool {
    9 * us <= 100 * ticks < 9 * us + 9
}

/// A tick count at 90 kHz is brought to microseconds, rounded down.
pub proof fn ticks_become_microseconds(ticks: u64)
    ensures
        is_us(ticks_to_us(ticks as int), ticks as int),
{
}

/// A clock that has played nothing stands at its anchor, and the trim moves it
/// by as much.
pub proof fn fresh_clocks_stand_at_their_anchor(clock: AudioClock)
    requires
        clock.samples_played == 0,
        clock.anchor_pts_raw < PTS_RANGE,
        -0x4000_0000_0000_0000 <= clock.offset_us <= 0x3fff_ffff_ffff_ffff,
    ensures
        is_us(clock.time_us() - clock.offset_us, clock.anchor_pts_raw as int),
{
    if clock.sample_rate > 0 {
        assert(0int / clock.sample_rate as int == 0) by (nonlinear_arith)
            requires
                clock.sample_rate > 0,
        ;
    }
}

/// Playing PCM frames moves the clock by their duration, to the microsecond:
/// from a fresh clock, by `samples / rate` seconds rounded down.
pub proof fn played_frames_move_the_clock(clock: AudioClock, samples: u64)
    requires
        clock.samples_played == 0,
        clock.sample_rate > 0,
        clock.anchor_pts_raw < PTS_RANGE,
        samples < 0x1_0000_0000_0000,
        clock.offset_us == 0,
        clock.after_playing(samples).time_us() < i64::MAX,
    ensures
        ({
            let moved = clock.after_playing(samples).time_us() - clock.time_us();
            moved * clock.sample_rate <= samples * 1_000_000 < (moved + 1) * clock.sample_rate
        }),
        clock.after_playing(samples).anchor_pts_raw == clock.anchor_pts_raw,
        clock.after_playing(samples).sample_rate == clock.sample_rate,
{
    let n = samples * 1_000_000;
    let r = clock.sample_rate as int;
    let q = n / r;
    vstd::arithmetic::div_mod::lemma_fundamental_div_mod(n, r);
    vstd::arithmetic::div_mod::lemma_mod_bound(n, r);
    vstd::arithmetic::div_mod::lemma_div_pos_is_pos(n, r);
    assert(0int / r == 0) by (nonlinear_arith)
        requires
            r > 0,
    ;
    assert(r * q == q * r) by (nonlinear_arith);
    assert((q + 1) * r == q * r + r) by (nonlinear_arith);
}

/// A PTS that follows the last one by no more than the threshold, also across
/// the end of the 33-bit range, leaves the time of the clock as it is and
/// becomes the last one.
pub proof fn steady_timestamps_leave_the_clock(clock: AudioClock, step: u64)
    requires
        !clock.underrun,
        clock.last_pts_raw < PTS_RANGE,
        step <= clock.discontinuity_threshold,
        step <= PTS_RANGE / 2,
    ensures
        ({
            let raw = ((clock.last_pts_raw + step) % (PTS_RANGE as int)) as u64;
            let after = clock.after_pts(raw);
            &&& after.time_us() == clock.time_us()
            &&& after.last_pts_raw == raw
            &&& after.anchor_pts_raw == clock.anchor_pts_raw
            &&& after.samples_played == clock.samples_played
            &&& !after.underrun
        }),
{
}

/// A PTS that jumps by more than the threshold either way, and the first one
/// after an underrun, is where the clock goes on: it stands there, and counts
/// what is played from there.
pub proof fn jumps_move_the_clock(clock: AudioClock, raw: u64)
    requires
        raw < PTS_RANGE,
        clock.last_pts_raw < PTS_RANGE,
        clock.discontinuity_threshold < PTS_RANGE / 2,
        clock.underrun || (clock.discontinuity_threshold < raw - clock.last_pts_raw <= PTS_RANGE / 2)
            || (clock.discontinuity_threshold < clock.last_pts_raw - raw < PTS_RANGE / 2),
    ensures
        ({
            let after = clock.after_pts(raw);
            &&& after.anchor_pts_raw == raw
            &&& after.samples_played == 0
            &&& after.last_pts_raw == raw
            &&& !after.underrun
            &&& after.sample_rate == clock.sample_rate
            &&& after.offset_us == clock.offset_us
        }),
{
}

/// A frame is presented if and only if it is no further from the clock than the
/// tolerance, held if it is later, and dropped if it is earlier.
pub proof fn frames_are_judged_by_their_distance(pts: int, clock: int, tol: int)
    requires
        tol >= 0,
    ensures
        decision(pts, clock, tol) == FrameAction::Present <==> -tol <= pts - clock <= tol,
        decision(pts, clock, tol) == FrameAction::Hold <==> pts - clock > tol,
        decision(pts, clock, tol) == FrameAction::Drop <==> clock - pts > tol,
{
}

/// No frame leaves the queue unseen unless it is late: one that is neither
/// further behind the clock than the tolerance, nor than the age at which
/// frames are dropped, stays or is the one that is presented. A frame that is
/// held stays too.
pub proof fn only_late_frames_leave_unseen(
    before: VideoFrameQueue,
    after: VideoFrameQueue,
    clock: int,
    next: Option<(FrameAction, VideoFrame)>,
    frame: VideoFrame,
)
    requires
        popped(before, after, clock, next),
        before.frames().contains(frame),
        clock - frame.pts_us <= before.tol_us,
        clock - frame.pts_us <= before.drop_late_us,
    ensures
        next is Some,
        after.frames().contains(frame) || next == Some((FrameAction::Present, frame)),
        next matches Some((FrameAction::Hold, held)) ==> after.frames().contains(held) && held.pts_us
            - clock > before.tol_us,
{
    let left = kept(before.frames(), before.late_limit(clock));
    assert(left.contains(frame));
    if left.len() == 0 {
        assert(left =~= vstd::multiset::Multiset::empty());
    }
}

/// Frames that are too late do not stay: after a pop every frame is within the
/// tolerance of the clock, or later.
pub proof fn late_frames_do_not_stay(
    before: VideoFrameQueue,
    after: VideoFrameQueue,
    clock: int,
    next: Option<(FrameAction, VideoFrame)>,
    frame: VideoFrame,
)
    requires
        popped(before, after, clock, next),
        after.frames().contains(frame),
    ensures
        clock - frame.pts_us <= before.tol_us,
        clock - frame.pts_us <= before.drop_late_us,
        before.frames().contains(frame),
{
    let left = kept(before.frames(), before.late_limit(clock));
    assert(left.contains(frame));
}

/// A frame that is due is presented: one that no other in the queue comes
/// before and that is within the tolerance of the clock.
pub proof fn due_frames_are_presented(
    before: VideoFrameQueue,
    after: VideoFrameQueue,
    clock: int,
    next: Option<(FrameAction, VideoFrame)>,
    frame: VideoFrame,
)
    requires
        popped(before, after, clock, next),
        earliest(frame, before.frames()),
        -before.tol_us <= frame.pts_us - clock <= before.tol_us,
        clock - frame.pts_us <= before.drop_late_us,
    ensures
        next matches Some((FrameAction::Present, shown)) && shown.pts_us == frame.pts_us
            && after.presented_count == counted(before.presented_count, 1),
{
    let left = kept(before.frames(), before.late_limit(clock));
    assert(left.contains(frame));
    if left.len() == 0 {
        assert(left =~= vstd::multiset::Multiset::empty());
    }
    if let Some((_, shown)) = next {
        assert(left.contains(shown));
        assert(before.frames().contains(shown));
    }
}

/// A head that is more than the threshold behind the clock is dropped at once,
/// unless a burst has just ended or has reached its limit.
pub proof fn late_heads_are_caught_up(
    before: SyncController,
    after: SyncController,
    next: Option<(FrameAction, VideoFrame)>,
)
    requires
        ticked(before, after, next),
        before.queue.frames().len() > 0,
        before.clock.time_us() - before.queue.head().pts_us > before.catch_up.behind_threshold_us,
        before.burst_drop_count < before.catch_up.max_burst_drops,
        before.burst_drop_count > 0 || before.last_burst_end_clock_us == i64::MIN
            || before.clock.time_us() - before.last_burst_end_clock_us
            >= before.catch_up.burst_cooldown_us,
    ensures
        next == Some((FrameAction::Drop, before.queue.head())),
        after.queue.frames().len() == before.queue.frames().remove(before.queue.head()).len(),
{
}

/// The video stalls when there is nothing to show although the clock has passed
/// the last frame, and not otherwise; the last frame is the one that was handed
/// out last.
pub proof fn stalls_are_noticed(
    before: SyncController,
    after: SyncController,
    next: Option<(FrameAction, VideoFrame)>,
)
    requires
        ticked(before, after, next),
    ensures
        before.queue.frames().len() == 0 ==> next is None && (before.last_frame_pts_us matches Some(
            pts,
        ) ==> (before.clock.time_us() > pts ==> after.stalled)),
        after.stalled && !before.stalled ==> before.queue.frames().len() == 0 && (
        before.last_frame_pts_us matches Some(pts) && before.clock.time_us() > pts),
        next matches Some((action, frame)) ==> (action != FrameAction::Drop
            ==> after.last_frame_pts_us == Some(frame.pts_us)),
{
}

/// The latency is positive where the next frame is ahead of the clock, and
/// negative where it is behind, by as much.
pub proof fn latency_is_how_far_video_is_ahead(controller: SyncController, ahead: int)
    requires
        controller.queue.head().pts_us == controller.clock.time_us() + ahead,
    ensures
        controller.video_ahead_us() == ahead,
{
}

} // verus!
