//! The `.ts` segmenter that an HLS session drives.

use transmux::ts_hls::StreamingTsHlsSegmenter as WireSegmenter;
use vstd::prelude::*;
use crate::text::millionths_text;
use crate::ts::demux::{
    codec_held, identity_held, read_identity, MediaSample, SampleView, TrackIdentity,
};
use crate::ts::tick_budget::{
    charged, fits, limit_for, new_ledger, tick_limit, LedgerView, TickLedger,
};
use crate::ts::track::{Codec, StreamTrack};

verus! {

#[verifier::external_type_specification]
#[verifier::external_body]
pub struct ExTsHlsSegmenter(transmux::ts_hls::StreamingTsHlsSegmenter);

/// A finished segment as the segmenter hands it out.
pub struct CutSegment {
    /// The segment's transport stream packets.
    pub bytes: Vec<u8>,
    /// The duration in seconds, to six decimals.
    pub duration: String,
    /// The duration in seconds, rounded up.
    pub ceil_secs: u64,
    /// Whether a discontinuity comes before the segment.
    pub discontinuous: bool,
}

/// [`CutSegment`] as a mathematical value.
pub struct CutView {
    pub bytes: Seq<u8>,
    pub duration: Seq<char>,
    pub ceil_secs: u64,
    pub discontinuous: bool,
}

impl CutSegment {
    pub open spec fn view(&self) -> CutView {
        CutView {
            bytes: self.bytes@,
            duration: self.duration@,
            ceil_secs: self.ceil_secs,
            discontinuous: self.discontinuous,
        }
    }
}

/// A call that a segmenter has taken.
pub enum HlsCall {
    Push(u32, SampleView),
    Finish,
    MarkDiscontinuity,
    AddTrack(transmux::ir::TrackSpec),
}

/// How a segmenter was made and which calls it has taken since.
pub struct HlsHistory {
    pub target_secs: u32,
    pub window: usize,
    /// The tracks that it knows.
    pub tracks: Seq<transmux::ir::TrackSpec>,
    pub calls: Seq<HlsCall>,
}

impl HlsHistory {
    /// The history with one more call.
    pub open spec fn then_call(self, call: HlsCall) -> HlsHistory {
        HlsHistory { calls: self.calls.push(call), ..self }
    }

    /// Whether a track of this number is known.
    pub open spec fn knows(self, track_id: u32) -> bool {
        exists|i: int|
            0 <= i < self.tracks.len() && (#[trigger] identity_held(self.tracks[i])).track_id
                == track_id
    }
}

/// The number of a track and how many ticks its samples may advance.
pub open spec fn limit_held(track: transmux::ir::TrackSpec) -> (u32, u64) {
    (identity_held(track).track_id, tick_limit(identity_held(track).timescale))
}

/// How many ticks the samples of a track may advance, if it is known.
pub open spec fn limit_of(tracks: Seq<transmux::ir::TrackSpec>, track_id: u32) -> Option<u64>
    decreases tracks.len(),
{
    if tracks.len() == 0 {
        None
    } else if limit_held(tracks.last()).0 == track_id {
        Some(limit_held(tracks.last()).1)
    } else {
        limit_of(tracks.drop_last(), track_id)
    }
}

/// Whether a sample belongs to one of the tracks and keeps it within its limit.
pub open spec fn sample_fits(
    ledger: LedgerView,
    tracks: Seq<transmux::ir::TrackSpec>,
    track_id: u32,
    sample: SampleView,
) -> bool {
    match limit_of(tracks, track_id) {
        Some(limit) => fits(ledger, track_id, sample, limit),
        None => false,
    }
}

/// The ledger of the samples in a list of calls; there is none once a sample
/// did not fit.
pub open spec fn ledger_after(
    calls: Seq<HlsCall>,
    tracks: Seq<transmux::ir::TrackSpec>,
) -> Option<LedgerView>
    decreases calls.len(),
{
    if calls.len() == 0 {
        Some(new_ledger())
    } else {
        match (ledger_after(calls.drop_last(), tracks), calls.last()) {
            (Some(ledger), HlsCall::Push(track_id, sample)) => if sample_fits(
                ledger,
                tracks,
                track_id,
                sample,
            ) {
                Some(charged(ledger, track_id, sample))
            } else {
                None
            },
            (ledger, _) => ledger,
        }
    }
}

/// The largest number of tracks in a segmenter: each can get a PID of its own
/// in the segments, which are numbered from 256 in 16 bits.
pub const MAX_TRACKS: usize = 0xfeff;

/// Whether a sample belongs to a track of the segmenter and fits behind those
/// that it has taken.
pub open spec fn can_push(history: HlsHistory, track_id: u32, sample: SampleView) -> bool {
    match ledger_after(history.calls, history.tracks) {
        Some(ledger) => sample_fits(ledger, history.tracks, track_id, sample),
        None => false,
    }
}

/// Whether a segmenter can be made for these tracks: there is a track, no
/// number occurs twice, and some track carries timed samples to cut by.
pub open spec fn can_segment(tracks: Seq<transmux::ir::TrackSpec>) -> bool {
    &&& tracks.len() > 0
    &&& forall|i: int, j: int|
        0 <= i < j < tracks.len() ==> (#[trigger] identity_held(tracks[i])).track_id != (
        #[trigger] identity_held(tracks[j])).track_id
    &&& exists|i: int|
        0 <= i < tracks.len() && #[trigger] codec_held(tracks[i]) != (Codec::Data { sections: true })
}

/// How a segmenter was made and which calls it has taken.
pub uninterp spec fn hls_history(segmenter: transmux::ts_hls::StreamingTsHlsSegmenter) -> HlsHistory;

/// A segment that a segmenter has cut.
pub struct WireCut {
    pub bytes: Seq<u8>,
    /// The duration in microseconds.
    pub micros: nat,
    /// The duration in seconds, rounded up.
    pub ceil_secs: u64,
    pub discontinuous: bool,
}

/// A segment as it is handed out.
pub open spec fn shown(cut: WireCut) -> CutView {
    CutView {
        bytes: cut.bytes,
        duration: millionths_text(cut.micros),
        ceil_secs: cut.ceil_secs,
        discontinuous: cut.discontinuous,
    }
}

/// Segments as they are handed out.
pub open spec fn all_shown(cuts: Seq<WireCut>) -> Seq<CutView> {
    cuts.map_values(|cut: WireCut| shown(cut))
}

/// The segments that a segmenter holds ready, oldest first.
pub uninterp spec fn hls_ready(segmenter: transmux::ts_hls::StreamingTsHlsSegmenter) -> Seq<WireCut>;

/// Whether a segmenter with this history accepts a sample, and the segments
/// that it cuts on it.
pub uninterp spec fn hls_on_push(history: HlsHistory, track_id: u32, sample: SampleView) -> (
    bool,
    Seq<WireCut>,
);

/// Whether a segmenter with this history can close, and the segments that it
/// cuts as it does.
pub uninterp spec fn hls_on_finish(history: HlsHistory) -> (bool, Seq<WireCut>);

/// What [`hls_on_push`] names, with the segments as they are handed out.
pub open spec fn cut_on_push(history: HlsHistory, track_id: u32, sample: SampleView) -> (
    bool,
    Seq<CutView>,
) {
    let answer = hls_on_push(history, track_id, sample);
    (answer.0, all_shown(answer.1))
}

/// What [`hls_on_finish`] names, with the segments as they are handed out.
pub open spec fn cut_on_finish(history: HlsHistory) -> (bool, Seq<CutView>) {
    let answer = hls_on_finish(history);
    (answer.0, all_shown(answer.1))
}

/// The `transmux` tracks behind a list of tracks.
pub open spec fn sources(tracks: Seq<StreamTrack>) -> Seq<transmux::ir::TrackSpec> {
    tracks.map_values(|t: StreamTrack| t.source)
}

/// `StreamingTsHlsSegmenter::new`: fails without tracks, on a repeated track
/// number, on an empty window, and where every track carries sections.
/// Otherwise it gives a segmenter that holds nothing ready.
#[verifier::external_body]
fn segmenter_new(tracks: &Vec<StreamTrack>, target_secs: u32, window: usize) -> (made:
    Option<transmux::ts_hls::StreamingTsHlsSegmenter>)
    ensures
        match made {
            Some(segmenter) => can_segment(sources(tracks@)) && window > 0 && hls_ready(segmenter)
                == Seq::<WireCut>::empty() && hls_history(segmenter) == (HlsHistory {
                target_secs,
                window,
                tracks: sources(tracks@),
                calls: Seq::empty(),
            }),
            None => !can_segment(sources(tracks@)) || window == 0,
        },
{
    let specs = tracks.iter().map(|t| t.source.clone()).collect();
    WireSegmenter::new(specs, target_secs, window).ok()
}

/// `StreamingTsHlsSegmenter::push` of a sample made by `Sample::new`: what is
/// cut is appended to the segments held ready. Whether the sample is accepted,
/// and what is cut, depends on what the segmenter has taken before and on the
/// sample; [`hls_on_push`] names it. How far the samples of a track advance is
/// added up in 64 bits and scaled to 90 kHz and to 27 MHz, and the tracks' PIDs
/// are numbered, without a check: the sample has to fit, and so do the tracks.
/// A cut writes a clock reference for every 40 ms between two samples; how much
/// memory that takes is not stated.
#[verifier::external_body]
fn segmenter_push(
    segmenter: &mut transmux::ts_hls::StreamingTsHlsSegmenter,
    track_id: u32,
    sample: &MediaSample,
) -> (accepted: bool)
    requires
        can_push(hls_history(*old(segmenter)), track_id, sample.view()),
        hls_history(*old(segmenter)).tracks.len() <= MAX_TRACKS,
    ensures
        hls_history(*final(segmenter)) == hls_history(*old(segmenter)).then_call(
            HlsCall::Push(track_id, sample.view()),
        ),
        accepted == hls_on_push(hls_history(*old(segmenter)), track_id, sample.view()).0,
        hls_ready(*final(segmenter)) == hls_ready(*old(segmenter)) + hls_on_push(
            hls_history(*old(segmenter)),
            track_id,
            sample.view(),
        ).1,
{
    let data = sample.data.clone();
    let sample = transmux::Sample::new(data, sample.dts, sample.pts, sample.duration, sample.is_sync);
    segmenter.push(track_id, sample).is_ok()
}

/// `StreamingTsHlsSegmenter::finish`: what is left is cut and appended to the
/// segments held ready. Whether that succeeds, and what is cut, depends on
/// what the segmenter has taken before; [`hls_on_finish`] names it. All that
/// it has taken has to fit, for the sums that a push makes too, and so do the
/// tracks.
#[verifier::external_body]
fn segmenter_finish(segmenter: &mut transmux::ts_hls::StreamingTsHlsSegmenter) -> (closed:
    bool)
    requires
        ledger_after(
            hls_history(*old(segmenter)).calls,
            hls_history(*old(segmenter)).tracks,
        ) is Some,
        hls_history(*old(segmenter)).tracks.len() <= MAX_TRACKS,
    ensures
        hls_history(*final(segmenter)) == hls_history(*old(segmenter)).then_call(HlsCall::Finish),
        closed == hls_on_finish(hls_history(*old(segmenter))).0,
        hls_ready(*final(segmenter)) == hls_ready(*old(segmenter)) + hls_on_finish(
            hls_history(*old(segmenter)),
        ).1,
{
    segmenter.finish().is_ok()
}

/// `StreamingTsHlsSegmenter::mark_discontinuity`: cuts nothing by itself.
#[verifier::external_body]
fn segmenter_mark_discontinuity(
    segmenter: &mut transmux::ts_hls::StreamingTsHlsSegmenter,
)
    ensures
        hls_history(*final(segmenter)) == hls_history(*old(segmenter)).then_call(
            HlsCall::MarkDiscontinuity,
        ),
        hls_ready(*final(segmenter)) == hls_ready(*old(segmenter)),
{
    segmenter.mark_discontinuity();
}

/// The history of a segmenter that was offered one more track. A track whose
/// number is known is refused and changes nothing.
pub open spec fn with_track(history: HlsHistory, track: transmux::ir::TrackSpec) -> HlsHistory {
    if history.knows(identity_held(track).track_id) {
        history
    } else {
        HlsHistory {
            tracks: history.tracks.push(track),
            calls: history.calls.push(HlsCall::AddTrack(track)),
            ..history
        }
    }
}

/// `StreamingTsHlsSegmenter::add_track`: fails if and only if the track's
/// number is known, and cuts nothing.
#[verifier::external_body]
fn segmenter_add_track(
    segmenter: &mut transmux::ts_hls::StreamingTsHlsSegmenter,
    track: &StreamTrack,
) -> (added: bool)
    ensures
        added == !hls_history(*old(segmenter)).knows(identity_held(track.source).track_id),
        hls_history(*final(segmenter)) == with_track(hls_history(*old(segmenter)), track.source),
        hls_ready(*final(segmenter)) == hls_ready(*old(segmenter)),
{
    segmenter.add_track(track.source.clone()).is_ok()
}

/// `StreamingTsHlsSegmenter::take_ready`: hands the segments out, oldest
/// first, and keeps none. The duration of each is a number of seconds, finite
/// and not negative, and is written by std's formatting to six decimals.
#[verifier::external_body]
fn segmenter_take_ready(segmenter: &mut transmux::ts_hls::StreamingTsHlsSegmenter) -> (cut:
    Vec<CutSegment>)
    ensures
        cut@.map_values(|s: CutSegment| s.view()) == all_shown(hls_ready(*old(segmenter))),
        hls_ready(*final(segmenter)) == Seq::<WireCut>::empty(),
        hls_history(*final(segmenter)) == hls_history(*old(segmenter)),
{
    segmenter.take_ready().into_iter().map(|segment| CutSegment {
        duration: format!("{:.6}", segment.duration),
        ceil_secs: segment.duration.ceil() as u64,
        bytes: segment.bytes,
        discontinuous: segment.discontinuous,
    }).collect()
}

/// The history of a segmenter that was offered one more track. There are at
/// most [`MAX_TRACKS`].
pub open spec fn with_track_in_limit(
    history: HlsHistory,
    track: transmux::ir::TrackSpec,
) -> HlsHistory {
    if history.tracks.len() < MAX_TRACKS {
        with_track(history, track)
    } else {
        history
    }
}

proof fn lemma_known(tracks: Seq<transmux::ir::TrackSpec>, track_id: u32)
    ensures
        limit_of(tracks, track_id) is Some <==> exists|i: int|
            0 <= i < tracks.len() && (#[trigger] identity_held(tracks[i])).track_id == track_id,
    decreases tracks.len(),
{
    if tracks.len() > 0 {
        let rest = tracks.drop_last();
        lemma_known(rest, track_id);
        if limit_of(tracks, track_id) is Some {
            if limit_held(tracks.last()).0 == track_id {
                assert(identity_held(tracks[tracks.len() - 1]).track_id == track_id);
            } else {
                let i = choose|i: int|
                    0 <= i < rest.len() && (#[trigger] identity_held(rest[i])).track_id == track_id;
                assert(identity_held(tracks[i]).track_id == track_id);
            }
        } else if exists|i: int|
            0 <= i < tracks.len() && (#[trigger] identity_held(tracks[i])).track_id == track_id {
            let i = choose|i: int|
                0 <= i < tracks.len() && (#[trigger] identity_held(tracks[i])).track_id == track_id;
            assert(identity_held(rest[i]).track_id == track_id);
        }
    }
}

/// A new track changes nothing for the samples of the others.
proof fn lemma_ledger_with_track(
    calls: Seq<HlsCall>,
    tracks: Seq<transmux::ir::TrackSpec>,
    track: transmux::ir::TrackSpec,
)
    requires
        ledger_after(calls, tracks) is Some,
        limit_of(tracks, identity_held(track).track_id) is None,
    ensures
        ledger_after(calls, tracks.push(track)) == ledger_after(calls, tracks),
    decreases calls.len(),
{
    if calls.len() > 0 {
        lemma_ledger_with_track(calls.drop_last(), tracks, track);
        if let HlsCall::Push(track_id, sample) = calls.last() {
            assert(tracks.push(track).drop_last() =~= tracks);
        }
    }
}

/// Whether a list tells the limits of these tracks.
spec fn tells_limits(limits: Seq<(u32, u64)>, tracks: Seq<transmux::ir::TrackSpec>) -> bool {
    &&& limits.len() == tracks.len()
    &&& forall|i: int| 0 <= i < tracks.len() ==> limits[i] == limit_held(#[trigger] tracks[i])
}

fn read_limit(track: &StreamTrack) -> (limit: (u32, u64))
    ensures
        limit == limit_held(track.source),
{
    let identity: TrackIdentity = read_identity(&track.source);
    (identity.track_id, limit_for(identity.timescale))
}

fn find_limit(
    limits: &Vec<(u32, u64)>,
    track_id: u32,
    Ghost(tracks): Ghost<Seq<transmux::ir::TrackSpec>>,
) -> (limit: Option<u64>)
    requires
        tells_limits(limits@, tracks),
    ensures
        limit == limit_of(tracks, track_id),
{
    let mut i: usize = limits.len();
    assert(tracks.take(i as int) =~= tracks);
    while i > 0
        invariant
            i <= limits@.len(),
            tells_limits(limits@, tracks),
            limit_of(tracks, track_id) == limit_of(tracks.take(i as int), track_id),
        decreases i,
    {
        proof {
            assert(tracks.take(i as int).drop_last() =~= tracks.take(i - 1));
            assert(tracks.take(i as int).last() == tracks[i - 1]);
        }
        i = i - 1;
        if limits[i].0 == track_id {
            return Some(limits[i].1);
        }
    }
    None
}

/// A segmenter that is only given tracks and samples that fit.
pub struct HlsSegmenter {
    wire: transmux::ts_hls::StreamingTsHlsSegmenter,
    ledger: TickLedger,
    /// The tracks' numbers, and how many ticks their samples may advance.
    limits: Vec<(u32, u64)>,
}

impl HlsSegmenter {
    #[verifier::type_invariant]
    spec fn calls_fit(&self) -> bool {
        let history = hls_history(self.wire);
        &&& ledger_after(history.calls, history.tracks) == Some(self.ledger.view())
        &&& tells_limits(self.limits@, history.tracks)
        &&& history.tracks.len() <= MAX_TRACKS
    }

    /// How the segmenter was made and which calls it has taken.
    pub closed spec fn history(&self) -> HlsHistory {
        hls_history(self.wire)
    }

    /// The segments that the segmenter holds ready, oldest first.
    pub closed spec fn ready(&self) -> Seq<CutView> {
        all_shown(hls_ready(self.wire))
    }

    /// A segmenter for these tracks, if one can be made.
    pub(crate) fn new(tracks: &Vec<StreamTrack>, target_secs: u32, window: usize) -> (made: Option<
        HlsSegmenter,
    >)
        ensures
            match made {
                Some(segmenter) => can_segment(sources(tracks@)) && tracks@.len() <= MAX_TRACKS
                    && window > 0 && segmenter.ready() == Seq::<CutView>::empty()
                    && segmenter.history() == (HlsHistory {
                    target_secs,
                    window,
                    tracks: sources(tracks@),
                    calls: Seq::empty(),
                }),
                None => !can_segment(sources(tracks@)) || tracks@.len() > MAX_TRACKS || window == 0,
            },
    {
        if tracks.len() > MAX_TRACKS {
            return None;
        }
        let wire = match segmenter_new(tracks, target_secs, window) {
            Some(wire) => wire,
            None => {
                return None;
            },
        };
        let mut limits: Vec<(u32, u64)> = Vec::new();
        while limits.len() < tracks.len()
            invariant
                limits@.len() <= tracks@.len(),
                forall|i: int|
                    0 <= i < limits@.len() ==> #[trigger] limits@[i] == limit_held(tracks@[i].source),
            decreases tracks@.len() - limits@.len(),
        {
            limits.push(read_limit(&tracks[limits.len()]));
        }
        let ghost known = sources(tracks@);
        assert forall|i: int| 0 <= i < known.len() implies limits@[i] == limit_held(
            #[trigger] known[i],
        ) by {}
        assert(all_shown(Seq::empty()) =~= Seq::<CutView>::empty());
        Some(HlsSegmenter { wire, ledger: TickLedger::new(), limits })
    }

    /// Take a sample. One that does not fit, or that belongs to no known track,
    /// is refused and changes nothing.
    pub(crate) fn push(self, track_id: u32, sample: &MediaSample) -> (pushed: (HlsSegmenter, bool))
        ensures
            if can_push(self.history(), track_id, sample.view()) {
                let answer = cut_on_push(self.history(), track_id, sample.view());
                &&& pushed.0.history() == self.history().then_call(
                    HlsCall::Push(track_id, sample.view()),
                )
                &&& pushed.0.ready() == self.ready() + answer.1
                &&& pushed.1 == answer.0
            } else {
                pushed.0.history() == self.history() && pushed.0.ready() == self.ready()
                    && !pushed.1
            },
    {
        proof {
            use_type_invariant(&self);
        }
        let HlsSegmenter { mut wire, mut ledger, limits } = self;
        let limit: u64 = match find_limit(&limits, track_id, Ghost(hls_history(wire).tracks)) {
            Some(limit) => limit,
            None => {
                return (HlsSegmenter { wire, ledger, limits }, false);
            },
        };
        if !ledger.charge(track_id, sample, limit) {
            return (HlsSegmenter { wire, ledger, limits }, false);
        }
        let ghost calls = hls_history(wire).calls;
        let ghost ready = hls_ready(wire);
        let accepted: bool = segmenter_push(&mut wire, track_id, sample);
        assert(hls_history(wire).calls.drop_last() =~= calls);
        assert(all_shown(hls_ready(wire)) =~= all_shown(ready) + cut_on_push(
            self.history(),
            track_id,
            sample.view(),
        ).1);
        (HlsSegmenter { wire, ledger, limits }, accepted)
    }

    /// End the input: cut what is left.
    pub(crate) fn finish(self) -> (closed: (HlsSegmenter, bool))
        ensures
            closed.0.history() == self.history().then_call(HlsCall::Finish),
            closed.0.ready() == self.ready() + cut_on_finish(self.history()).1,
            closed.1 == cut_on_finish(self.history()).0,
    {
        proof {
            use_type_invariant(&self);
        }
        let HlsSegmenter { mut wire, ledger, limits } = self;
        let ghost calls = hls_history(wire).calls;
        let ghost ready = hls_ready(wire);
        let closed: bool = segmenter_finish(&mut wire);
        assert(hls_history(wire).calls.drop_last() =~= calls);
        assert(all_shown(hls_ready(wire)) =~= all_shown(ready) + cut_on_finish(self.history()).1);
        (HlsSegmenter { wire, ledger, limits }, closed)
    }

    /// Mark the next segment as discontinuous.
    pub(crate) fn mark_discontinuity(self) -> (marked: HlsSegmenter)
        ensures
            marked.history() == self.history().then_call(HlsCall::MarkDiscontinuity),
            marked.ready() == self.ready(),
    {
        proof {
            use_type_invariant(&self);
        }
        let HlsSegmenter { mut wire, ledger, limits } = self;
        let ghost calls = hls_history(wire).calls;
        segmenter_mark_discontinuity(&mut wire);
        assert(hls_history(wire).calls.drop_last() =~= calls);
        HlsSegmenter { wire, ledger, limits }
    }

    /// Take one more track.
    pub(crate) fn add_track(self, track: &StreamTrack) -> (extended: (HlsSegmenter, bool))
        ensures
            extended.0.history() == with_track_in_limit(self.history(), track.source),
            extended.0.ready() == self.ready(),
            extended.1 == (self.history().tracks.len() < MAX_TRACKS && !self.history().knows(
                identity_held(track.source).track_id,
            )),
    {
        proof {
            use_type_invariant(&self);
        }
        let HlsSegmenter { mut wire, ledger, mut limits } = self;
        if limits.len() >= MAX_TRACKS {
            return (HlsSegmenter { wire, ledger, limits }, false);
        }
        let ghost before = hls_history(wire);
        let added: bool = segmenter_add_track(&mut wire, track);
        if added {
            proof {
                lemma_known(before.tracks, identity_held(track.source).track_id);
                lemma_ledger_with_track(before.calls, before.tracks, track.source);
                assert(hls_history(wire).calls.drop_last() =~= before.calls);
            }
            limits.push(read_limit(track));
            assert forall|i: int| 0 <= i < hls_history(wire).tracks.len() implies limits@[i]
                == limit_held(#[trigger] hls_history(wire).tracks[i]) by {
                if i < before.tracks.len() {
                    assert(hls_history(wire).tracks[i] == before.tracks[i]);
                }
            }
        }
        (HlsSegmenter { wire, ledger, limits }, added)
    }

    /// Hand out the segments that are ready, oldest first.
    pub(crate) fn take_ready(self) -> (taken: (HlsSegmenter, Vec<CutSegment>))
        ensures
            taken.1@.map_values(|s: CutSegment| s.view()) == self.ready(),
            taken.0.ready() == Seq::<CutView>::empty(),
            taken.0.history() == self.history(),
    {
        proof {
            use_type_invariant(&self);
        }
        let HlsSegmenter { mut wire, ledger, limits } = self;
        let cut: Vec<CutSegment> = segmenter_take_ready(&mut wire);
        assert(all_shown(Seq::empty()) =~= Seq::<CutView>::empty());
        (HlsSegmenter { wire, ledger, limits }, cut)
    }
}

} // verus!
