//! The audio-master media clock.

use vstd::prelude::*;
use crate::sync::pts::{pts_delta_33, ticks_to_us, wrapped_delta, PTS_RANGE};

verus! {

/// Default jump, in 90 kHz ticks, beyond which a PTS re-anchors the clock.
pub const DEFAULT_DISCONTINUITY_THRESHOLD: u64 = 90_000;

/// Media clock driven by the number of PCM samples played out, anchored to the
/// PTS of the first audio sample.
pub struct AudioClock {
    /// PTS (90 kHz ticks) of the sample the clock counts from.
    pub anchor_pts_raw: u64,
    /// Sample rate of the audio in Hz.
    pub sample_rate: u32,
    /// PCM frames played since the anchor.
    pub samples_played: u64,
    /// Lip-sync trim in microseconds, added to the reported time.
    pub offset_us: i64,
    /// Jump between consecutive PTS values, in ticks, beyond which the clock
    /// re-anchors.
    pub discontinuity_threshold: u64,
    /// The most recent 33-bit PTS seen.
    pub last_pts_raw: u64,
    /// Whether an underrun was signalled since the last PTS.
    pub underrun: bool,
}

/// Microseconds that `samples` PCM frames last at `rate` Hz, rounded down.
pub open spec fn elapsed_us(samples: int, rate: int) -> int {
    if rate == 0 {
        0
    } else {
        samples * 1_000_000 / rate
    }
}

/// `v` limited to the range of `i64`.
pub open spec fn clamp_i64(v: int) -> int {
    if v > i64::MAX {
        i64::MAX as int
    } else if v < i64::MIN {
        i64::MIN as int
    } else {
        v
    }
}

impl AudioClock {
    /// The media time of the clock in microseconds.
    pub open spec fn time_us(self) -> int {
        clamp_i64(
            ticks_to_us(self.anchor_pts_raw as int) + elapsed_us(
                self.samples_played as int,
                self.sample_rate as int,
            ) + self.offset_us,
        )
    }

    /// Whether `raw` may not be taken as the continuation of the timeline.
    pub open spec fn breaks_timeline(self, raw: u64) -> bool {
        let delta = wrapped_delta(
            raw as int % PTS_RANGE as int,
            self.last_pts_raw as int % PTS_RANGE as int,
        );
        self.underrun || delta > self.discontinuity_threshold || -delta
            > self.discontinuity_threshold
    }

    /// The clock after a PTS of the audio stream was seen: one that continues
    /// the timeline is noted, any other becomes the anchor.
    pub open spec fn after_pts(self, raw: u64) -> AudioClock {
        if self.breaks_timeline(raw) {
            AudioClock {
                anchor_pts_raw: raw,
                samples_played: 0,
                last_pts_raw: raw,
                underrun: false,
                ..self
            }
        } else {
            AudioClock { last_pts_raw: raw, ..self }
        }
    }

    /// The clock after more PCM frames were played out.
    pub open spec fn after_playing(self, samples: u64) -> AudioClock {
        AudioClock { samples_played: self.samples_played.saturating_add(samples), ..self }
    }

    /// Create a clock anchored at `anchor_pts_raw` for audio at `sample_rate`.
    pub fn new(anchor_pts_raw: u64, sample_rate: u32) -> (clock: Self)
        ensures
            clock == (AudioClock {
                anchor_pts_raw,
                sample_rate,
                samples_played: 0,
                offset_us: 0,
                discontinuity_threshold: DEFAULT_DISCONTINUITY_THRESHOLD,
                last_pts_raw: anchor_pts_raw,
                underrun: false,
            }),
    {
        AudioClock {
            anchor_pts_raw,
            sample_rate,
            samples_played: 0,
            offset_us: 0,
            discontinuity_threshold: DEFAULT_DISCONTINUITY_THRESHOLD,
            last_pts_raw: anchor_pts_raw,
            underrun: false,
        }
    }

    /// Current media time in microseconds.
    pub fn media_time_us(&self) -> (us: i64)
        ensures
            us == self.time_us(),
    {
        let anchor: i128 = self.anchor_pts_raw as i128 * 100 / 9;
        let elapsed: i128 = if self.sample_rate == 0 {
            0
        } else {
            (self.samples_played as u128 * 1_000_000 / self.sample_rate as u128) as i128
        };
        proof {
            if self.sample_rate != 0 {
                let n = self.samples_played as int * 1_000_000;
                let r = self.sample_rate as int;
                assert(0 <= n / r <= n) by (nonlinear_arith)
                    requires
                        n >= 0,
                        r >= 1,
                ;
            }
        }
        let total: i128 = anchor + elapsed + self.offset_us as i128;
        if total > i64::MAX as i128 {
            i64::MAX
        } else if total < i64::MIN as i128 {
            i64::MIN
        } else {
            total as i64
        }
    }

    /// Advance by `samples` PCM frames played out and report the new time.
    pub fn advance(&mut self, samples: u64) -> (us: i64)
        ensures
            *final(self) == (AudioClock {
                samples_played: old(self).samples_played.saturating_add(samples),
                ..*old(self)
            }),
            *final(self) == old(self).after_playing(samples),
            us == final(self).time_us(),
    {
        self.samples_played = self.samples_played.saturating_add(samples);
        self.media_time_us()
    }

    /// Take note of a PTS carried by the audio stream and report the time.
    ///
    /// A PTS that follows the previous one, across a 33-bit wrap or not, only
    /// becomes the new reference. One that jumps further than the threshold,
    /// or the first after an underrun, becomes the anchor: the sample count
    /// starts over from it.
    pub fn push_pts(&mut self, raw: u64) -> (us: i64)
        ensures
            *final(self) == (if old(self).breaks_timeline(raw) {
                AudioClock {
                    anchor_pts_raw: raw,
                    samples_played: 0,
                    last_pts_raw: raw,
                    underrun: false,
                    ..*old(self)
                }
            } else {
                AudioClock { last_pts_raw: raw, ..*old(self) }
            }),
            *final(self) == old(self).after_pts(raw),
            us == final(self).time_us(),
    {
        let delta: i64 = pts_delta_33(raw % PTS_RANGE, self.last_pts_raw % PTS_RANGE);
        let jump: u64 = if delta < 0 {
            (0 - delta) as u64
        } else {
            delta as u64
        };
        if self.underrun || jump > self.discontinuity_threshold {
            self.anchor_pts_raw = raw;
            self.samples_played = 0;
            self.underrun = false;
        }
        self.last_pts_raw = raw;
        self.media_time_us()
    }

    /// Note that playback ran dry; the next PTS re-anchors the clock.
    pub fn signal_underrun(&mut self)
        ensures
            *final(self) == (AudioClock { underrun: true, ..*old(self) }),
    {
        self.underrun = true;
    }

    /// Set the lip-sync trim in microseconds.
    pub fn set_offset_us(&mut self, offset_us: i64)
        ensures
            *final(self) == (AudioClock { offset_us, ..*old(self) }),
    {
        self.offset_us = offset_us;
    }
}

impl Default for AudioClock {
    /// A clock anchored at zero for 48 kHz audio.
    fn default() -> (clock: Self)
        ensures
            clock == (AudioClock {
                anchor_pts_raw: 0,
                sample_rate: 48_000,
                samples_played: 0,
                offset_us: 0,
                discontinuity_threshold: DEFAULT_DISCONTINUITY_THRESHOLD,
                last_pts_raw: 0,
                underrun: false,
            }),
            clock.time_us() == 0,
    {
        AudioClock::new(0, 48_000)
    }
}

/// Playing more samples never moves the clock back.
pub proof fn clock_is_monotonic(clock: AudioClock, more: u64)
    ensures
        (AudioClock { samples_played: clock.samples_played.saturating_add(more), ..clock }).time_us()
            >= clock.time_us(),
{
    let a = clock.samples_played as int * 1_000_000;
    let b = clock.samples_played.saturating_add(more) as int * 1_000_000;
    let r = clock.sample_rate as int;
    if r != 0 {
        assert(a / r <= b / r) by (nonlinear_arith)
            requires
                a <= b,
                r > 0,
        ;
    }
}

/// A whole second of samples moves the clock by exactly one million
/// microseconds, as long as nothing is clamped.
pub proof fn clock_keeps_real_time(clock: AudioClock, seconds: nat)
    requires
        clock.sample_rate > 0,
        clock.samples_played + seconds * clock.sample_rate <= u64::MAX,
        ticks_to_us(clock.anchor_pts_raw as int) + elapsed_us(
            clock.samples_played as int,
            clock.sample_rate as int,
        ) + seconds * 1_000_000 + clock.offset_us <= i64::MAX,
    ensures
        (AudioClock {
            samples_played: (clock.samples_played + seconds * clock.sample_rate) as u64,
            ..clock
        }).time_us() == clock.time_us() + seconds * 1_000_000,
{
    let p = clock.samples_played as int;
    let r = clock.sample_rate as int;
    let s = seconds as int;
    assert((p + s * r) * 1_000_000 / r == p * 1_000_000 / r + s * 1_000_000) by (nonlinear_arith)
        requires
            r > 0,
    {
        assert((p + s * r) * 1_000_000 == (s * 1_000_000) * r + p * 1_000_000);
        vstd::arithmetic::div_mod::lemma_hoist_over_denominator(p * 1_000_000, s * 1_000_000, r as nat);
    }
    assert(0 <= p * 1_000_000 / r) by (nonlinear_arith)
        requires
            p >= 0,
            r > 0,
    ;
    assert(s * r >= 0) by (nonlinear_arith)
        requires
            s >= 0,
            r > 0,
    ;
}

} // verus!
