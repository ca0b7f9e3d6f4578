//! How far the timestamps of the samples in a stream may run.
//!
//! A segmenter adds up in 64 bits how far the samples of each track advance,
//! and scales the sum to clocks of 90 kHz and 27 MHz. A ledger keeps a bound on
//! that sum for each track, so that a sample that would take it too far can be
//! told before it is handed on.

use std::collections::HashMap;
use vstd::prelude::*;
use crate::ts::demux::{MediaSample, SampleView};

verus! {

broadcast use vstd::std_specs::hash::group_hash_axioms;

/// The furthest that the samples of a track may advance, in ticks: 72 years of
/// a 90 kHz clock.
pub const MAX_TICKS: u64 = 204_961_000_000_000;

/// The furthest that the samples of a track may advance, in seconds. It tells
/// where a track has fewer than 301 ticks in a second.
pub const MAX_SECONDS: u64 = 683_000_000_000;

/// The ticks in a second of a track, at least one.
pub open spec fn tick_rate(timescale: u32) -> int {
    if timescale == 0 {
        1
    } else {
        timescale as int
    }
}

/// How many ticks the samples of a track of this timescale may advance.
pub open spec fn tick_limit(timescale: u32) -> u64 {
    if tick_rate(timescale) * MAX_SECONDS < MAX_TICKS {
        (tick_rate(timescale) * MAX_SECONDS) as u64
    } else {
        MAX_TICKS
    }
}

/// Compute [`tick_limit`].
pub fn limit_for(timescale: u32) -> (limit: u64)
    ensures
        limit == tick_limit(timescale),
{
    let rate: u128 = if timescale == 0 {
        1
    } else {
        timescale as u128
    };
    assert(rate * MAX_SECONDS <= u32::MAX * MAX_SECONDS) by (nonlinear_arith)
        requires
            rate <= u32::MAX,
    ;
    let ticks: u128 = rate * MAX_SECONDS as u128;
    if ticks < MAX_TICKS as u128 {
        ticks as u64
    } else {
        MAX_TICKS
    }
}

/// A time at 90 kHz, rounded to nearest.
pub open spec fn at_90khz(ticks: int, timescale: u32) -> int {
    (ticks * 90_000 + tick_rate(timescale) / 2) / tick_rate(timescale)
}

/// Within the limit of its timescale, a time can be scaled in 64 bits: to 90
/// kHz, also when it is later by as much as 31 bits can tell, and from there to
/// 27 MHz.
pub proof fn times_within_the_limit_can_be_scaled(ticks: int, later: int, timescale: u32)
    requires
        0 <= ticks <= tick_limit(timescale),
        0 <= later <= i32::MAX,
    ensures
        (ticks + later) * 90_000 + tick_rate(timescale) / 2 <= u64::MAX,
        at_90khz(ticks, timescale) * 300 <= u64::MAX,
{
    let rate = tick_rate(timescale);
    let top = ticks * 90_000 + rate / 2;
    let most = MAX_SECONDS as int * 90_000 + 1;
    assert(ticks * 90_000 <= rate * MAX_SECONDS * 90_000);
    assert(rate * MAX_SECONDS * 90_000 + rate == rate * (MAX_SECONDS * 90_000 + 1))
        by (nonlinear_arith);
    assert(top <= rate * most);
    assert(top / rate <= most) by (nonlinear_arith)
        requires
            top <= rate * most,
            rate > 0,
    ;
}

/// A ledger as a mathematical value.
#[verifier::ext_equal]
pub struct LedgerView {
    /// The latest decode time of each track.
    pub last: Map<u32, i64>,
    /// How far the samples of each track have advanced, in ticks.
    pub spent: Map<u32, u64>,
}

/// The ledger of a stream without samples.
pub open spec fn new_ledger() -> LedgerView {
    LedgerView { last: Map::empty(), spent: Map::empty() }
}

/// How far the samples of a track have advanced.
pub open spec fn spent_by(ledger: LedgerView, track_id: u32) -> int {
    if ledger.spent.contains_key(track_id) {
        ledger.spent[track_id] as int
    } else {
        0
    }
}

/// Whether the time from decoding a sample to presenting it fits in 64 bits.
pub open spec fn offset_fits(sample: SampleView) -> bool {
    match (sample.dts, sample.pts) {
        (Some(dts), Some(pts)) => i64::MIN <= pts - dts <= i64::MAX,
        _ => true,
    }
}

/// How far a sample advances its track at most: by its duration, or by the
/// time since the sample before it.
pub open spec fn advance(ledger: LedgerView, track_id: u32, sample: SampleView) -> int {
    let duration = match sample.duration {
        Some(duration) => duration as int,
        None => 0,
    };
    match sample.dts {
        Some(now) => if ledger.last.contains_key(track_id) && now - ledger.last[track_id]
            > duration {
            now - ledger.last[track_id]
        } else {
            duration
        },
        None => duration,
    }
}

/// Whether a sample keeps its track within a limit of ticks.
pub open spec fn fits(ledger: LedgerView, track_id: u32, sample: SampleView, limit: u64) -> bool {
    &&& offset_fits(sample)
    &&& spent_by(ledger, track_id) + advance(ledger, track_id, sample) <= limit
}

/// The ledger with one more sample.
pub open spec fn charged(ledger: LedgerView, track_id: u32, sample: SampleView) -> LedgerView {
    LedgerView {
        last: match sample.dts {
            Some(now) => ledger.last.insert(track_id, now),
            None => ledger.last,
        },
        spent: ledger.spent.insert(
            track_id,
            (spent_by(ledger, track_id) + advance(ledger, track_id, sample)) as u64,
        ),
    }
}

/// A sample that comes some ticks after the one before it on its track, and
/// lasts no longer than that, takes the track on by those ticks; one that comes
/// no later takes it on by its duration. Other tracks are not charged. So a
/// stream of such samples fits until its own time reaches the limit.
pub proof fn samples_cost_the_time_between_them(
    ledger: LedgerView,
    track_id: u32,
    first: SampleView,
    next: SampleView,
    step: int,
    limit: u64,
    other: u32,
)
    requires
        first.dts matches Some(t) && next.dts matches Some(u) && u - t == step,
        fits(ledger, track_id, first, limit),
        offset_fits(next),
    ensures
        ({
            let before = charged(ledger, track_id, first);
            let after = charged(before, track_id, next);
            let duration = match next.duration {
                Some(d) => d as int,
                None => 0,
            };
            let cost = if step > duration {
                step
            } else {
                duration
            };
            &&& fits(before, track_id, next, limit) <==> spent_by(before, track_id) + cost <= limit
            &&& fits(before, track_id, next, limit) ==> spent_by(after, track_id) == spent_by(
                before,
                track_id,
            ) + cost
            &&& other != track_id ==> spent_by(after, other) == spent_by(ledger, other)
        }),
{
}

/// Keeps how far the samples of each track have advanced.
pub struct TickLedger {
    last: HashMap<u32, i64>,
    spent: HashMap<u32, u64>,
}

impl TickLedger {
    pub closed spec fn view(&self) -> LedgerView {
        LedgerView { last: self.last@, spent: self.spent@ }
    }

    /// The ledger of a stream without samples.
    pub fn new() -> (ledger: TickLedger)
        ensures
            ledger.view() == new_ledger(),
    {
        let ledger = TickLedger { last: HashMap::new(), spent: HashMap::new() };
        assert(ledger.view() =~= new_ledger());
        ledger
    }

    /// Enter a sample that fits. Any other leaves the ledger as it is.
    pub fn charge(&mut self, track_id: u32, sample: &MediaSample, limit: u64) -> (entered: bool)
        ensures
            entered == fits(old(self).view(), track_id, sample.view(), limit),
            final(self).view() == if entered {
                charged(old(self).view(), track_id, sample.view())
            } else {
                old(self).view()
            },
    {
        if let (Some(dts), Some(pts)) = (sample.dts, sample.pts) {
            let offset: i128 = pts as i128 - dts as i128;
            if offset < i64::MIN as i128 || offset > i64::MAX as i128 {
                return false;
            }
        }
        let duration: u32 = match sample.duration {
            Some(duration) => duration,
            None => 0,
        };
        let mut ahead: i128 = duration as i128;
        if let Some(now) = sample.dts {
            if let Some(last) = self.last.get(&track_id) {
                let step: i128 = now as i128 - *last as i128;
                if step > ahead {
                    ahead = step;
                }
            }
        }
        assert(ahead == advance(self.view(), track_id, sample.view()));
        let before: u64 = match self.spent.get(&track_id) {
            Some(spent) => *spent,
            None => 0,
        };
        let spent: i128 = before as i128 + ahead;
        if spent > limit as i128 {
            return false;
        }
        self.spent.insert(track_id, spent as u64);
        if let Some(now) = sample.dts {
            self.last.insert(track_id, now);
        }
        assert(self.view() =~= charged(old(self).view(), track_id, sample.view()));
        true
    }
}

} // verus!
