//! The CMAF segmenter that the bridge drives.

use transmux::Segmenter as WireSegmenter;
use vstd::prelude::*;
use crate::ts::demux::{codec_held, MediaSample, SampleView};
use crate::ts::tick_budget::{charged, fits, new_ledger, LedgerView, TickLedger};
use crate::ts::track::{Codec, StreamTrack};

verus! {

#[verifier::external_type_specification]
#[verifier::external_body]
pub struct ExCmafSegmenter(transmux::segmenter::Segmenter);

/// A call that a segmenter has taken.
pub enum CmafCall {
    Push(u32, SampleView),
    Flush,
    MarkDiscontinuity,
}

/// The single track that a segmenter was made for.
pub struct CmafTrack {
    pub track_id: u32,
    pub timescale: u32,
    /// The track whose codec configuration is used.
    pub source: transmux::ir::TrackSpec,
    pub movie_timescale: u32,
    pub target_secs: u32,
}

/// How a segmenter was made and which calls it has taken since.
pub struct CmafHistory {
    pub track: CmafTrack,
    pub calls: Seq<CmafCall>,
}

impl CmafHistory {
    /// The history with one more call.
    pub open spec fn then_call(self, call: CmafCall) -> CmafHistory {
        CmafHistory { calls: self.calls.push(call), ..self }
    }
}

/// The largest number of media segments, which are numbered from one in 32
/// bits with one number left for the next.
pub const MAX_SEGMENTS: u32 = 0xffff_fffe;

/// How a segmenter was made and which calls it has taken.
pub uninterp spec fn cmaf_history(segmenter: transmux::segmenter::Segmenter) -> CmafHistory;

/// The media segments that a segmenter holds ready, oldest first.
pub uninterp spec fn cmaf_ready(segmenter: transmux::segmenter::Segmenter) -> Seq<Seq<u8>>;

/// Whether a segmenter with this history accepts a sample, and the media
/// segments that it cuts on it.
pub uninterp spec fn cmaf_on_push(history: CmafHistory, track_id: u32, sample: SampleView) -> (
    bool,
    Seq<Seq<u8>>,
);

/// Whether a segmenter with this history can be flushed, and the media
/// segments that it cuts as it is.
pub uninterp spec fn cmaf_on_flush(history: CmafHistory) -> (bool, Seq<Seq<u8>>);

/// The ledger of the samples in a list of calls to the segmenter of a track;
/// there is none once a sample belonged to another track or did not fit.
pub open spec fn ledger_after(calls: Seq<CmafCall>, track: u32) -> Option<LedgerView>
    decreases calls.len(),
{
    if calls.len() == 0 {
        Some(new_ledger())
    } else {
        match (ledger_after(calls.drop_last(), track), calls.last()) {
            (Some(ledger), CmafCall::Push(track_id, sample)) => if track_id == track && fits(
                ledger,
                track_id,
                sample,
                u64::MAX,
            ) {
                Some(charged(ledger, track_id, sample))
            } else {
                None
            },
            (ledger, _) => ledger,
        }
    }
}

/// How many media segments a segmenter with this history has cut.
pub open spec fn segments_cut(history: CmafHistory) -> nat
    decreases history.calls.len(),
{
    if history.calls.len() == 0 {
        0
    } else {
        let before = CmafHistory { calls: history.calls.drop_last(), ..history };
        segments_cut(before) + match history.calls.last() {
            CmafCall::Push(track_id, sample) => cmaf_on_push(before, track_id, sample).1.len(),
            CmafCall::Flush => cmaf_on_flush(before).1.len(),
            CmafCall::MarkDiscontinuity => 0,
        }
    }
}

/// Whether a sample belongs to the track of the segmenter and fits behind those
/// that it has taken. A sync sample can close a segment, so there has to be a
/// number for one.
pub open spec fn can_push(history: CmafHistory, track_id: u32, sample: SampleView) -> bool {
    &&& track_id == history.track.track_id
    &&& ledger_after(history.calls, history.track.track_id) matches Some(ledger) && fits(
        ledger,
        track_id,
        sample,
        u64::MAX,
    )
    &&& sample.is_sync ==> segments_cut(history) < MAX_SEGMENTS
}

/// Whether there is a number for the segment that a flush can cut.
pub open spec fn can_flush(history: CmafHistory) -> bool {
    &&& ledger_after(history.calls, history.track.track_id) is Some
    &&& segments_cut(history) < MAX_SEGMENTS
}

/// The initialization segment for a track, if one can be built.
pub uninterp spec fn cmaf_init(track: CmafTrack) -> Option<Seq<u8>>;

/// `Segmenter::new` for the one track that `TrackSpec::new` makes of the
/// number, the timescale and the codec configuration: fails without a target
/// duration and for a track that carries sections. Otherwise it gives a
/// segmenter that holds nothing ready.
#[verifier::external_body]
fn cmaf_new(track: &StreamTrack, movie_timescale: u32, target_secs: u32) -> (made: Option<
    transmux::segmenter::Segmenter,
>)
    ensures
        match made {
            Some(segmenter) => target_secs > 0 && codec_held(track.source) != (Codec::Data {
                sections: true,
            }) && cmaf_ready(segmenter) == Seq::<Seq<u8>>::empty() && cmaf_history(segmenter)
                == (CmafHistory {
                track: CmafTrack {
                    track_id: track.track_id,
                    timescale: track.timescale,
                    source: track.source,
                    movie_timescale,
                    target_secs,
                },
                calls: Seq::empty(),
            }),
            None => target_secs == 0 || codec_held(track.source) == (Codec::Data {
                sections: true,
            }),
        },
{
    let config = track.source.config.clone();
    let spec = transmux::TrackSpec::new(track.track_id, track.timescale, config);
    WireSegmenter::new(vec![spec], movie_timescale, target_secs.into()).ok()
}

/// `Segmenter::push` of a sample made by `Sample::new`: what is cut is appended
/// to the media segments held ready. Whether the sample is accepted, and what
/// is cut, depends on what the segmenter has taken before and on the sample;
/// [`cmaf_on_push`] names it. At most one segment is cut, and only on a sync
/// sample. How far the samples advance is added up in 64 bits, and segments are
/// counted in 32 bits, without a check: the sample has to fit.
#[verifier::external_body]
fn cmaf_push(
    segmenter: &mut transmux::segmenter::Segmenter,
    track_id: u32,
    sample: &MediaSample,
) -> (accepted: bool)
    requires
        can_push(cmaf_history(*old(segmenter)), track_id, sample.view()),
    ensures
        cmaf_history(*final(segmenter)) == cmaf_history(*old(segmenter)).then_call(
            CmafCall::Push(track_id, sample.view()),
        ),
        accepted == cmaf_on_push(cmaf_history(*old(segmenter)), track_id, sample.view()).0,
        cmaf_ready(*final(segmenter)) == cmaf_ready(*old(segmenter)) + cmaf_on_push(
            cmaf_history(*old(segmenter)),
            track_id,
            sample.view(),
        ).1,
        cmaf_ready(*final(segmenter)).len() <= cmaf_ready(*old(segmenter)).len() + if sample.is_sync {
            1nat
        } else {
            0
        },
{
    let data = sample.data.clone();
    let sample = transmux::Sample::new(data, sample.dts, sample.pts, sample.duration, sample.is_sync);
    segmenter.push(track_id, sample).is_ok()
}

/// `Segmenter::flush`: what is left is cut and appended to the media segments
/// held ready. Whether that succeeds, and what is cut, depends on what the
/// segmenter has taken before; [`cmaf_on_flush`] names it. At most one segment
/// is cut. The call has to fit, for the sums that a push makes too.
#[verifier::external_body]
fn cmaf_flush(segmenter: &mut transmux::segmenter::Segmenter) -> (flushed: bool)
    requires
        can_flush(cmaf_history(*old(segmenter))),
    ensures
        cmaf_history(*final(segmenter)) == cmaf_history(*old(segmenter)).then_call(CmafCall::Flush),
        flushed == cmaf_on_flush(cmaf_history(*old(segmenter))).0,
        cmaf_ready(*final(segmenter)) == cmaf_ready(*old(segmenter)) + cmaf_on_flush(
            cmaf_history(*old(segmenter)),
        ).1,
        cmaf_ready(*final(segmenter)).len() <= cmaf_ready(*old(segmenter)).len() + 1,
{
    segmenter.flush().is_ok()
}

/// `Segmenter::mark_discontinuity`: cuts nothing by itself.
#[verifier::external_body]
fn cmaf_mark_discontinuity(segmenter: &mut transmux::segmenter::Segmenter)
    ensures
        cmaf_history(*final(segmenter)) == cmaf_history(*old(segmenter)).then_call(
            CmafCall::MarkDiscontinuity,
        ),
        cmaf_ready(*final(segmenter)) == cmaf_ready(*old(segmenter)),
{
    segmenter.mark_discontinuity();
}

/// Byte strings as mathematical values.
pub open spec fn segment_bytes(segments: Seq<Vec<u8>>) -> Seq<Seq<u8>> {
    segments.map_values(|s: Vec<u8>| s@)
}

/// `Segmenter::take_ready`: hands the media segments out, oldest first, and
/// keeps none.
#[verifier::external_body]
fn cmaf_take_ready(segmenter: &mut transmux::segmenter::Segmenter) -> (ready: Vec<Vec<u8>>)
    ensures
        segment_bytes(ready@) == cmaf_ready(*old(segmenter)),
        cmaf_ready(*final(segmenter)) == Seq::<Seq<u8>>::empty(),
        cmaf_history(*final(segmenter)) == cmaf_history(*old(segmenter)),
{
    segmenter.take_ready()
}

/// `Segmenter::init_segment`. Whether it can be built, and its bytes, depend on
/// the track alone; [`cmaf_init`] names it. It writes the number after the
/// track's own, so there has to be one.
#[verifier::external_body]
fn cmaf_init_segment(segmenter: &transmux::segmenter::Segmenter) -> (init: Option<Vec<u8>>)
    requires
        cmaf_history(*segmenter).track.track_id < u32::MAX,
    ensures
        match init {
            Some(bytes) => cmaf_init(cmaf_history(*segmenter).track) == Some(bytes@),
            None => cmaf_init(cmaf_history(*segmenter).track) is None,
        },
{
    segmenter.init_segment().ok()
}

/// Takes the segments that the segmenter holds ready, of which there is at most
/// one, and counts them.
fn collect(wire: &mut transmux::segmenter::Segmenter, ready: &mut Vec<Vec<u8>>) -> (cut: u32)
    requires
        cmaf_ready(*old(wire)).len() <= 1,
    ensures
        cut == cmaf_ready(*old(wire)).len(),
        segment_bytes(final(ready)@) == segment_bytes(old(ready)@) + cmaf_ready(*old(wire)),
        cmaf_ready(*final(wire)) == Seq::<Seq<u8>>::empty(),
        cmaf_history(*final(wire)) == cmaf_history(*old(wire)),
{
    let mut taken: Vec<Vec<u8>> = cmaf_take_ready(wire);
    assert(taken@.len() == segment_bytes(taken@).len());
    let ghost before = segment_bytes(ready@);
    let ghost all = segment_bytes(taken@);
    if taken.len() == 0 {
        assert(before + all =~= before);
        return 0;
    }
    let bytes: Vec<u8> = taken.remove(0);
    let ghost view = bytes@;
    ready.push(bytes);
    proof {
        assert(all[0] == view);
        assert(segment_bytes(ready@) =~= before + all);
    }
    1
}

proof fn lemma_one_more(before: CmafHistory, call: CmafCall)
    ensures
        ({
            let after = before.then_call(call);
            &&& after.calls.drop_last() == before.calls
            &&& segments_cut(after) == segments_cut(before) + match call {
                CmafCall::Push(track_id, sample) => cmaf_on_push(before, track_id, sample).1.len(),
                CmafCall::Flush => cmaf_on_flush(before).1.len(),
                CmafCall::MarkDiscontinuity => 0,
            }
        }),
{
    let after = before.then_call(call);
    assert(after.calls.drop_last() =~= before.calls);
    assert(CmafHistory { calls: after.calls.drop_last(), ..after } == before);
}

/// A segmenter that only takes calls that fit.
pub struct CmafSegmenter {
    wire: transmux::segmenter::Segmenter,
    ledger: TickLedger,
    /// How many media segments have been cut.
    cuts: u32,
    /// Those that have not been handed out yet.
    ready: Vec<Vec<u8>>,
    /// The number of the track.
    track: u32,
}

impl CmafSegmenter {
    #[verifier::type_invariant]
    spec fn calls_fit(&self) -> bool {
        let history = cmaf_history(self.wire);
        &&& ledger_after(history.calls, history.track.track_id) == Some(self.ledger.view())
        &&& segments_cut(history) == self.cuts
        &&& self.cuts <= MAX_SEGMENTS
        &&& history.track.track_id == self.track
        &&& self.track < u32::MAX
        &&& cmaf_ready(self.wire) == Seq::<Seq<u8>>::empty()
    }

    /// How the segmenter was made and which calls it has taken.
    pub closed spec fn history(&self) -> CmafHistory {
        cmaf_history(self.wire)
    }

    /// The media segments that the segmenter holds ready, oldest first.
    pub closed spec fn ready(&self) -> Seq<Seq<u8>> {
        segment_bytes(self.ready@)
    }

    /// A segmenter for a track, if one can be made. The last track number has
    /// none after it, and gets no segmenter.
    pub(crate) fn new(track: &StreamTrack, movie_timescale: u32, target_secs: u32) -> (made: Option<
        CmafSegmenter,
    >)
        ensures
            match made {
                Some(segmenter) => track.track_id < u32::MAX && target_secs > 0 && codec_held(
                    track.source,
                ) != (Codec::Data { sections: true }) && segmenter.ready()
                    == Seq::<Seq<u8>>::empty() && segmenter.history() == (CmafHistory {
                    track: CmafTrack {
                        track_id: track.track_id,
                        timescale: track.timescale,
                        source: track.source,
                        movie_timescale,
                        target_secs,
                    },
                    calls: Seq::empty(),
                }),
                None => track.track_id == u32::MAX || target_secs == 0 || codec_held(track.source)
                    == (Codec::Data { sections: true }),
            },
    {
        if track.track_id == u32::MAX {
            return None;
        }
        match cmaf_new(track, movie_timescale, target_secs) {
            Some(wire) => {
                let ready: Vec<Vec<u8>> = Vec::new();
                assert(segment_bytes(ready@) =~= Seq::empty());
                Some(CmafSegmenter { wire, ledger: TickLedger::new(), cuts: 0, ready, track: track.track_id })
            },
            None => None,
        }
    }

    /// Take a sample. One that does not fit, or that belongs to another track,
    /// is refused and changes nothing.
    pub(crate) fn push(self, track_id: u32, sample: &MediaSample) -> (pushed: (CmafSegmenter, bool))
        ensures
            if can_push(self.history(), track_id, sample.view()) {
                let answer = cmaf_on_push(self.history(), track_id, sample.view());
                &&& pushed.0.history() == self.history().then_call(
                    CmafCall::Push(track_id, sample.view()),
                )
                &&& pushed.0.ready() == self.ready() + answer.1
                &&& pushed.1 == answer.0
            } else {
                pushed.0.history() == self.history() && pushed.0.ready() == self.ready()
                    && !pushed.1
            },
    {
        proof {
            use_type_invariant(&self);
        }
        let CmafSegmenter { mut wire, mut ledger, cuts, mut ready, track } = self;
        if track_id != track || (sample.is_sync && cuts >= MAX_SEGMENTS) || !ledger.charge(
            track_id,
            sample,
            u64::MAX,
        ) {
            return (CmafSegmenter { wire, ledger, cuts, ready, track }, false);
        }
        let ghost before = cmaf_history(wire);
        let accepted: bool = cmaf_push(&mut wire, track_id, sample);
        proof {
            lemma_one_more(before, CmafCall::Push(track_id, sample.view()));
        }
        let cut: u32 = collect(&mut wire, &mut ready);
        (CmafSegmenter { wire, ledger, cuts: cuts + cut, ready, track }, accepted)
    }

    /// Cut what is left. Where no further segment can be numbered, nothing
    /// changes.
    pub(crate) fn flush(self) -> (flushed: (CmafSegmenter, bool))
        ensures
            if can_flush(self.history()) {
                let answer = cmaf_on_flush(self.history());
                &&& flushed.0.history() == self.history().then_call(CmafCall::Flush)
                &&& flushed.0.ready() == self.ready() + answer.1
                &&& flushed.1 == answer.0
            } else {
                flushed.0.history() == self.history() && flushed.0.ready() == self.ready()
                    && !flushed.1
            },
    {
        proof {
            use_type_invariant(&self);
        }
        let CmafSegmenter { mut wire, ledger, cuts, mut ready, track } = self;
        if cuts >= MAX_SEGMENTS {
            return (CmafSegmenter { wire, ledger, cuts, ready, track }, false);
        }
        let ghost before = cmaf_history(wire);
        let flushed: bool = cmaf_flush(&mut wire);
        proof {
            lemma_one_more(before, CmafCall::Flush);
        }
        let cut: u32 = collect(&mut wire, &mut ready);
        (CmafSegmenter { wire, ledger, cuts: cuts + cut, ready, track }, flushed)
    }

    /// Mark the next media segment as discontinuous.
    pub(crate) fn mark_discontinuity(self) -> (marked: CmafSegmenter)
        ensures
            marked.history() == self.history().then_call(CmafCall::MarkDiscontinuity),
            marked.ready() == self.ready(),
    {
        proof {
            use_type_invariant(&self);
        }
        let CmafSegmenter { mut wire, ledger, cuts, ready, track } = self;
        let ghost before = cmaf_history(wire);
        cmaf_mark_discontinuity(&mut wire);
        proof {
            lemma_one_more(before, CmafCall::MarkDiscontinuity);
        }
        CmafSegmenter { wire, ledger, cuts, ready, track }
    }

    /// Hand out the media segments that are ready, oldest first.
    pub(crate) fn take_ready(self) -> (taken: (CmafSegmenter, Vec<Vec<u8>>))
        ensures
            segment_bytes(taken.1@) == self.ready(),
            taken.0.ready() == Seq::<Seq<u8>>::empty(),
            taken.0.history() == self.history(),
    {
        proof {
            use_type_invariant(&self);
        }
        let CmafSegmenter { wire, ledger, cuts, ready, track } = self;
        let none: Vec<Vec<u8>> = Vec::new();
        assert(segment_bytes(none@) =~= Seq::empty());
        (CmafSegmenter { wire, ledger, cuts, ready: none, track }, ready)
    }

    /// The initialization segment, if one can be built.
    pub(crate) fn init_segment(&self) -> (init: Option<Vec<u8>>)
        ensures
            match init {
                Some(bytes) => cmaf_init(self.history().track) == Some(bytes@),
                None => cmaf_init(self.history().track) is None,
            },
    {
        proof {
            use_type_invariant(self);
        }
        cmaf_init_segment(&self.wire)
    }
}

} // verus!
