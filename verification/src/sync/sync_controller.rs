//! Catch-up, stall and latency policy on top of the clock and the queue.

use vstd::prelude::*;
use crate::sync::audio_clock::AudioClock;
use crate::sync::frame_queue::{
    earliest, fits_i64, frame_pushed, head_dropped, popped, FrameAction, VideoFrame,
    VideoFrameQueue,
};

verus! {

/// Current A/V latency snapshot.
#[derive(Debug, Clone, Copy, PartialEq, Eq)]
pub struct Latency {
    /// Signed offset in microseconds: positive = video ahead of audio,
    /// negative = video behind audio. `None` when the queue is empty.
    pub offset_us: Option<i64>,
    /// Whether the video pipeline is currently stalled (no frames available
    /// and the clock has advanced past the last known PTS).
    pub stalled: bool,
}

/// Configuration for the catch-up burst mechanism.
#[derive(Debug, Clone, Copy)]
pub struct CatchUpConfig {
    /// When video is behind the audio clock by more than this many
    /// microseconds, frames are dropped in bursts to catch up.
    pub behind_threshold_us: i64,
    /// Maximum number of frames to drop in a single catch-up burst.
    pub max_burst_drops: usize,
    /// After a catch-up burst ends, no new burst starts until this much audio
    /// clock time (in microseconds) has elapsed.
    pub burst_cooldown_us: i64,
}

impl Default for CatchUpConfig {
    fn default() -> (config: Self)
        ensures
            config.behind_threshold_us == 40_000,
            config.max_burst_drops == 4,
            config.burst_cooldown_us == 500_000,
    {
        CatchUpConfig { behind_threshold_us: 40_000, max_burst_drops: 4, burst_cooldown_us: 500_000 }
    }
}

/// High-level A/V sync controller wrapping an audio clock and a video present
/// queue.
///
/// Audio remains the master; the controller never slaves audio to video.
pub struct SyncController {
    /// The audio-master media clock.
    pub clock: AudioClock,
    /// The PTS-ordered video present queue.
    pub queue: VideoFrameQueue,
    /// Catch-up burst configuration.
    pub catch_up: CatchUpConfig,
    /// PTS of the most recently popped frame, used for stall detection.
    pub last_frame_pts_us: Option<i64>,
    /// Consecutive drops in the current catch-up burst.
    pub burst_drop_count: usize,
    /// Audio clock time (µs) at which the last catch-up burst ended, or
    /// `i64::MIN` before the first one did.
    pub last_burst_end_clock_us: i64,
    /// Whether the video pipeline is currently stalled.
    pub stalled: bool,
}

impl SyncController {
    /// Whether the queue the controller drives is in order.
    pub open spec fn wf(self) -> bool {
        self.queue.wf()
    }

    /// How far the next frame is ahead of the audio clock, in microseconds.
    pub open spec fn video_ahead_us(self) -> int {
        self.queue.head().pts_us - self.clock.time_us()
    }

    /// Whether the head frame is late enough, and the burst short enough, for
    /// one more burst drop.
    pub open spec fn wants_catch_up(self) -> bool {
        &&& self.clock.time_us() - self.queue.head().pts_us > self.catch_up.behind_threshold_us
        &&& self.burst_drop_count < self.catch_up.max_burst_drops
    }

    /// Whether the time since the last burst is still too short for a new one.
    pub open spec fn in_cooldown(self) -> bool {
        &&& self.last_burst_end_clock_us > i64::MIN
        &&& self.clock.time_us() - self.last_burst_end_clock_us < self.catch_up.burst_cooldown_us
    }

    /// Whether a tick on a non-empty queue drops the head to catch up.
    pub open spec fn catches_up(self) -> bool {
        self.wants_catch_up() && (self.burst_drop_count > 0 || !self.in_cooldown())
    }

    /// Whether the differences that a tick computes stay within `i64`.
    pub open spec fn tick_in_range(self) -> bool {
        self.queue.frames().len() > 0 ==> {
            &&& fits_i64(self.clock.time_us() - self.queue.head().pts_us)
            &&& self.last_burst_end_clock_us > i64::MIN ==> fits_i64(
                self.clock.time_us() - self.last_burst_end_clock_us,
            )
            &&& if self.catches_up() {
                self.burst_drop_count + 1 < self.catch_up.max_burst_drops ==> fits_i64(
                    self.clock.time_us() - self.catch_up.behind_threshold_us,
                )
            } else {
                self.queue.pop_in_range(self.clock.time_us())
            }
        }
    }

    /// Create a new sync controller.
    pub fn new(clock: AudioClock, queue: VideoFrameQueue, catch_up: CatchUpConfig) -> (ctrl: Self)
        ensures
            ctrl == (SyncController {
                clock,
                queue,
                catch_up,
                last_frame_pts_us: None,
                burst_drop_count: 0,
                last_burst_end_clock_us: i64::MIN,
                stalled: false,
            }),
    {
        SyncController {
            clock,
            queue,
            catch_up,
            last_frame_pts_us: None,
            burst_drop_count: 0,
            last_burst_end_clock_us: i64::MIN,
            stalled: false,
        }
    }

    /// Advance the audio clock by `samples` PCM frames.
    pub fn advance_audio(&mut self, samples: u64) -> (us: i64)
        ensures
            *final(self) == (SyncController {
                clock: AudioClock {
                    samples_played: old(self).clock.samples_played.saturating_add(samples),
                    ..old(self).clock
                },
                ..*old(self)
            }),
            us == final(self).clock.time_us(),
    {
        self.clock.advance(samples)
    }

    /// Push a decoded video frame into the present queue; a stall is over.
    pub fn push_video(&mut self, frame: VideoFrame)
        requires
            old(self).wf(),
        ensures
            final(self).wf(),
            *final(self) == (SyncController { queue: final(self).queue, stalled: false, ..*old(
                self,
            ) }),
            frame_pushed(old(self).queue, final(self).queue, frame),
    {
        self.queue.push(frame);
        if self.stalled {
            self.stalled = false;
        }
    }

    /// Tick the sync loop: pop the next frame from the queue against the
    /// current audio clock time, applying the catch-up burst policy.
    ///
    /// Returns `None` when nothing is left to show. When the head frame is
    /// more than the threshold behind the audio clock, frames are dropped in
    /// bursts of at most `max_burst_drops`; after a burst, no new one starts
    /// until the audio clock has advanced by `burst_cooldown_us`.
    pub fn tick(&mut self) -> (next: Option<(FrameAction, VideoFrame)>)
        requires
            old(self).wf(),
            old(self).tick_in_range(),
        ensures
            final(self).wf(),
            ticked(*old(self), *final(self), next),
    {
        let clock_us: i64 = self.clock.media_time_us();
        let head: VideoFrame = match self.queue.peek() {
            Some(h) => h,
            None => {
                if let Some(last_pts) = self.last_frame_pts_us {
                    if clock_us > last_pts {
                        self.stalled = true;
                    }
                }
                return None;
            },
        };
        let behind: i64 = clock_us - head.pts_us;
        let in_burst: bool = self.burst_drop_count > 0;
        let should_catch_up: bool = behind > self.catch_up.behind_threshold_us
            && self.burst_drop_count < self.catch_up.max_burst_drops;
        let in_cooldown: bool = if self.last_burst_end_clock_us > i64::MIN {
            clock_us - self.last_burst_end_clock_us < self.catch_up.burst_cooldown_us
        } else {
            false
        };
        if should_catch_up && (in_burst || !in_cooldown) {
            let _ = self.queue.pop_head_counted();
            self.burst_drop_count = self.burst_drop_count + 1;
            let burst_ended: bool = self.burst_drop_count >= self.catch_up.max_burst_drops
                || head.pts_us >= clock_us - self.catch_up.behind_threshold_us;
            if burst_ended {
                self.last_burst_end_clock_us = clock_us;
                self.burst_drop_count = 0;
            }
            return Some((FrameAction::Drop, head));
        }
        let result: Option<(FrameAction, VideoFrame)> = self.queue.pop(clock_us);
        match result {
            Some((action, frame)) => {
                if self.burst_drop_count > 0 {
                    self.last_burst_end_clock_us = clock_us;
                    self.burst_drop_count = 0;
                }
                self.last_frame_pts_us = Some(frame.pts_us);
                Some((action, frame))
            },
            None => None,
        }
    }

    /// Current A/V latency snapshot.
    pub fn latency(&self) -> (latency: Latency)
        requires
            self.wf(),
            self.queue.frames().len() > 0 ==> fits_i64(
                self.queue.head().pts_us - self.clock.time_us(),
            ),
        ensures
            latency.stalled == self.stalled,
            match latency.offset_us {
                None => self.queue.frames().len() == 0,
                Some(offset) => {
                    &&& self.queue.frames().len() > 0
                    &&& earliest(self.queue.head(), self.queue.frames())
                    &&& offset == self.queue.head().pts_us - self.clock.time_us()
                    &&& offset == self.video_ahead_us()
                },
            },
    {
        let clock_us: i64 = self.clock.media_time_us();
        let offset_us: Option<i64> = match self.queue.peek() {
            Some(f) => {
                assert(self.queue.frames().count(f) > 0);
                Some(f.pts_us - clock_us)
            },
            None => None,
        };
        Latency { offset_us, stalled: self.stalled }
    }

    /// Whether the video pipeline is stalled.
    pub fn is_stalled(&self) -> (stalled: bool)
        ensures
            stalled == self.stalled,
    {
        self.stalled
    }

    /// Signal an audio underrun to the wrapped clock.
    pub fn signal_underrun(&mut self)
        ensures
            *final(self) == (SyncController {
                clock: AudioClock { underrun: true, ..old(self).clock },
                ..*old(self)
            }),
    {
        self.clock.signal_underrun();
    }

    /// Feed a raw PTS to the wrapped clock.
    pub fn push_pts(&mut self, raw_pts: u64) -> (us: i64)
        ensures
            *final(self) == (SyncController {
                clock: if old(self).clock.breaks_timeline(raw_pts) {
                    AudioClock {
                        anchor_pts_raw: raw_pts,
                        samples_played: 0,
                        last_pts_raw: raw_pts,
                        underrun: false,
                        ..old(self).clock
                    }
                } else {
                    AudioClock { last_pts_raw: raw_pts, ..old(self).clock }
                },
                ..*old(self)
            }),
            us == final(self).clock.time_us(),
    {
        self.clock.push_pts(raw_pts)
    }
}

/// What one tick does to a controller and hands out.
pub open spec fn ticked(
    before: SyncController,
    after: SyncController,
    next: Option<(FrameAction, VideoFrame)>,
) -> bool {
    let now = before.clock.time_us();
    if before.queue.frames().len() == 0 {
        &&& next is None
        &&& after == (SyncController {
            stalled: before.stalled || (before.last_frame_pts_us matches Some(pts) && now > pts),
            ..before
        })
    } else if before.catches_up() {
        let ends = before.burst_drop_count + 1 >= before.catch_up.max_burst_drops;
        &&& next == Some((FrameAction::Drop, before.queue.head()))
        &&& head_dropped(before.queue, after.queue)
        &&& after == (SyncController {
            queue: after.queue,
            burst_drop_count: if ends {
                0
            } else {
                (before.burst_drop_count + 1) as usize
            },
            last_burst_end_clock_us: if ends {
                now as i64
            } else {
                before.last_burst_end_clock_us
            },
            ..before
        })
    } else {
        let ends = before.burst_drop_count > 0 && next is Some;
        &&& popped(before.queue, after.queue, now, next)
        &&& after == (SyncController {
            queue: after.queue,
            burst_drop_count: if ends {
                0
            } else {
                before.burst_drop_count
            },
            last_burst_end_clock_us: if ends {
                now as i64
            } else {
                before.last_burst_end_clock_us
            },
            last_frame_pts_us: match next {
                Some((_, f)) => Some(f.pts_us),
                None => before.last_frame_pts_us,
            },
            ..before
        })
    }
}

/// Audio stays the master: no tick ever moves the audio clock.
pub proof fn tick_never_moves_the_clock(
    before: SyncController,
    after: SyncController,
    next: Option<(FrameAction, VideoFrame)>,
)
    requires
        ticked(before, after, next),
    ensures
        after.clock == before.clock,
        after.catch_up == before.catch_up,
{
}

/// A burst never grows past its limit: the running count of burst drops stays
/// below `max_burst_drops`, and is zero whenever no burst is running.
pub proof fn burst_stays_bounded(
    before: SyncController,
    after: SyncController,
    next: Option<(FrameAction, VideoFrame)>,
)
    requires
        ticked(before, after, next),
        before.burst_drop_count == 0 || before.burst_drop_count < before.catch_up.max_burst_drops,
    ensures
        after.burst_drop_count == 0 || after.burst_drop_count < after.catch_up.max_burst_drops,
        after.burst_drop_count <= before.burst_drop_count + 1,
{
}

/// Within the cooldown after a burst no new burst starts, however late the
/// video is.
pub proof fn cooldown_holds_off_bursts(
    before: SyncController,
    after: SyncController,
    next: Option<(FrameAction, VideoFrame)>,
)
    requires
        ticked(before, after, next),
        before.burst_drop_count == 0,
        before.in_cooldown(),
    ensures
        after.burst_drop_count == 0,
        after.last_burst_end_clock_us == before.last_burst_end_clock_us,
{
}

/// A tick that has frames to work with neither starts nor ends a stall.
pub proof fn stall_needs_an_empty_queue(
    before: SyncController,
    after: SyncController,
    next: Option<(FrameAction, VideoFrame)>,
)
    requires
        ticked(before, after, next),
        before.queue.frames().len() > 0,
    ensures
        after.stalled == before.stalled,
{
}

} // verus!
