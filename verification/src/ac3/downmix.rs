//! Multichannel to stereo downmix: which channel goes where.
//!
//! Browsers reliably render only stereo; channels that the device does not
//! output go silent. Channels are in WAVE order (L, R, C, LFE, Ls, Rs for
//! 5.1).

use vstd::prelude::*;
use crate::mpa::{le_bytes, pcm_bytes, pcm_is_two_bytes_per_sample};

verus! {

/// How much of a channel goes to an output channel.
#[derive(Debug, Clone, Copy, PartialEq, Eq, Structural)]
pub enum Gain {
    /// Nothing.
    Silent,
    /// All of it.
    Unity,
    /// 3 dB less (ITU-R BS.775).
    Reduced,
}

/// Where a channel goes.
#[derive(Debug, Clone, Copy, PartialEq, Eq, Structural)]
pub struct Route {
    pub left: Gain,
    pub right: Gain,
}

/// The route of channel `index` of `channels`. Mono goes to both sides. The
/// first two channels are left and right, the third is a centre for both; the
/// fourth of six or more is the LFE and is dropped; the rest alternate, left
/// first.
pub open spec fn route_of(channels: int, index: int) -> Route {
    if channels <= 1 {
        Route { left: Gain::Unity, right: Gain::Unity }
    } else if index == 0 {
        Route { left: Gain::Unity, right: Gain::Silent }
    } else if index == 1 {
        Route { left: Gain::Silent, right: Gain::Unity }
    } else if index == 2 {
        Route { left: Gain::Reduced, right: Gain::Reduced }
    } else if index == 3 && channels >= 6 {
        Route { left: Gain::Silent, right: Gain::Silent }
    } else if index % 2 == 0 {
        Route { left: Gain::Reduced, right: Gain::Silent }
    } else {
        Route { left: Gain::Silent, right: Gain::Reduced }
    }
}

/// The routes of the channels of a frame. No channels count as one.
pub fn stereo_routes(channels: u16) -> (routes: Vec<Route>)
    ensures
        routes@.len() == (if channels == 0 {
            1
        } else {
            channels as int
        }),
        forall|i: int|
            0 <= i < routes@.len() ==> #[trigger] routes@[i] == route_of(channels as int, i),
{
    let count: u16 = if channels == 0 {
        1
    } else {
        channels
    };
    let mut routes: Vec<Route> = Vec::new();
    let mut i: u16 = 0;
    while i < count
        invariant
            i <= count,
            count == (if channels == 0 {
                1
            } else {
                channels
            }),
            routes@.len() == i,
            forall|j: int| 0 <= j < i ==> #[trigger] routes@[j] == route_of(channels as int, j),
        decreases count - i,
    {
        let route: Route = if channels <= 1 {
            Route { left: Gain::Unity, right: Gain::Unity }
        } else if i == 0 {
            Route { left: Gain::Unity, right: Gain::Silent }
        } else if i == 1 {
            Route { left: Gain::Silent, right: Gain::Unity }
        } else if i == 2 {
            Route { left: Gain::Reduced, right: Gain::Reduced }
        } else if i == 3 && channels >= 6 {
            Route { left: Gain::Silent, right: Gain::Silent }
        } else if i % 2 == 0 {
            Route { left: Gain::Reduced, right: Gain::Silent }
        } else {
            Route { left: Gain::Silent, right: Gain::Reduced }
        };
        routes.push(route);
        i = i + 1;
    }
    routes
}

/// The sample in two little-endian bytes.
pub open spec fn sample_of(low: u8, high: u8) -> int {
    let u = low + 256 * high;
    if u >= 32768 {
        u - 65536
    } else {
        u
    }
}

/// The samples in little-endian PCM. A trailing odd byte is left out.
pub open spec fn samples_of(pcm: Seq<u8>) -> Seq<i16> {
    Seq::new(pcm.len() / 2, |i: int| sample_of(pcm[2 * i], pcm[2 * i + 1]) as i16)
}

/// Read little-endian PCM.
pub fn read_samples(pcm: &[u8]) -> (samples: Vec<i16>)
    ensures
        samples@ == samples_of(pcm@),
{
    let len: usize = pcm.len();
    let total: usize = len / 2;
    let mut samples: Vec<i16> = Vec::new();
    let mut i: usize = 0;
    while i < total
        invariant
            len == pcm@.len(),
            total == len / 2,
            i <= total,
            samples@ == samples_of(pcm@).take(i as int),
        decreases total - i,
    {
        let low: i32 = pcm[2 * i] as i32;
        let high: i32 = pcm[2 * i + 1] as i32;
        let u: i32 = low + 256 * high;
        let s: i32 = if u >= 32768 {
            u - 65536
        } else {
            u
        };
        samples.push(s as i16);
        assert(samples_of(pcm@).take(i + 1) =~= samples_of(pcm@).take(i as int).push(s as i16));
        i = i + 1;
    }
    assert(samples_of(pcm@).take(i as int) =~= samples_of(pcm@));
    samples
}

/// What is written as PCM is read back.
pub proof fn samples_read_back(samples: Seq<i16>)
    ensures
        samples_of(pcm_bytes(samples)) == samples,
    decreases samples.len(),
{
    pcm_is_two_bytes_per_sample(samples);
    if samples.len() > 0 {
        let rest = samples.drop_last();
        let pcm = pcm_bytes(samples);
        samples_read_back(rest);
        pcm_is_two_bytes_per_sample(rest);
        assert forall|i: int| 0 <= i < samples.len() implies samples_of(pcm)[i] == samples[i] by {
            if i < rest.len() {
                assert(pcm[2 * i] == pcm_bytes(rest)[2 * i]);
                assert(pcm[2 * i + 1] == pcm_bytes(rest)[2 * i + 1]);
                assert(samples_of(pcm_bytes(rest))[i] == rest[i]);
            } else {
                let s = samples.last();
                assert(pcm[2 * i] == le_bytes(s)[0]);
                assert(pcm[2 * i + 1] == le_bytes(s)[1]);
            }
        }
        assert(samples_of(pcm) =~= samples);
    } else {
        assert(samples_of(pcm_bytes(samples)) =~= samples);
    }
}

/// Nothing but the LFE is lost: every other channel is heard on some side.
pub proof fn only_the_lfe_is_dropped(channels: int, index: int)
    requires
        0 <= index < channels,
    ensures
        (route_of(channels, index).left == Gain::Silent && route_of(channels, index).right
            == Gain::Silent) == (index == 3 && channels >= 6),
{
}

} // verus!
