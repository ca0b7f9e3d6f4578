//! What holds of a bridge whatever stream it is fed.

use vstd::prelude::*;
use crate::bridge::dto::{PcmView, ShownCueView};
use crate::bridge::stream::{
    ac3_decoded, audio_decoded, bridge_run, bridge_step, channels_after, clock_after, degraded,
    discontinued, mpa_decoded, sample_seen, video_sample, waiting_cues, with_decoded, with_subtitle,
    BridgeView, Counts, DecodeView,
};
use crate::bridge::tracks::lookup;
use crate::mpa::fresh_mpa;
use crate::ts::codec::{AudioCodec, TrackKind};
use crate::ts::demux::{Degradation, Discontinuity, EventView, SampleView};
use crate::ts::subtitle_compositor::cleared;
use crate::ts::ticks::ticks_90k;
use crate::ts::track::TrackMeta;

verus! {

/// Feeding events in two parts is feeding them in one.
pub proof fn events_run_in_turn(bridge: BridgeView, first: Seq<EventView>, rest: Seq<EventView>)
    ensures
        bridge_run(bridge, first + rest) == bridge_run(bridge_run(bridge, first), rest),
    decreases first.len(),
{
    if first.len() == 0 {
        assert(first + rest =~= rest);
    } else {
        assert((first + rest).drop_first() =~= first.drop_first() + rest);
        events_run_in_turn(bridge_step(bridge, first[0]), first.drop_first(), rest);
    }
}

/// Whether no counter went down.
pub open spec fn counts_grow(a: Counts, b: Counts) -> bool {
    &&& a.audio_decode_errors <= b.audio_decode_errors
    &&& a.segmenter_errors <= b.segmenter_errors
    &&& a.timeline_reanchors <= b.timeline_reanchors
    &&& a.transport_errors <= b.transport_errors
    &&& a.continuity_gaps <= b.continuity_gaps
    &&& a.unknown_events <= b.unknown_events
}

/// Whether `b` can come after `a` by events alone: choices stay as they are,
/// what was learnt stays, and what waits to be taken is only added to.
pub open spec fn follows(a: BridgeView, b: BridgeView) -> bool {
    &&& a.selected_audio_pid is Some ==> b.selected_audio_pid == a.selected_audio_pid
    &&& a.video_track_id is Some ==> b.video_track_id == a.video_track_id
    &&& a.video_config is Some ==> b.video_config is Some
    &&& a.segmenter is Some ==> b.segmenter is Some
    &&& b.selected_subtitle_pid == a.selected_subtitle_pid
    &&& b.playing == a.playing
    &&& b.downmix_audio == a.downmix_audio
    &&& b.ended == a.ended
    &&& b.cues == a.cues
    &&& b.ready_segments == a.ready_segments
    &&& a.latest_pcr is Some ==> b.latest_pcr is Some
    &&& forall|pid: u16| #[trigger]
        a.audio_channels.contains_key(pid) ==> b.audio_channels.contains_key(pid)
            && b.audio_channels[pid] == a.audio_channels[pid]
    &&& a.video_aus.len() <= b.video_aus.len()
    &&& forall|i: int| 0 <= i < a.video_aus.len() ==> a.video_aus[i] == #[trigger] b.video_aus[i]
    &&& a.pcm.len() <= b.pcm.len()
    &&& forall|i: int| 0 <= i < a.pcm.len() ==> a.pcm[i] == #[trigger] b.pcm[i]
    &&& counts_grow(a.counts, b.counts)
}

proof fn lemma_decoded_follows(
    bridge: BridgeView,
    decoded: DecodeView,
    pts_ticks: Option<u64>,
    pid: Option<u16>,
)
    ensures
        follows(bridge, with_decoded(bridge, decoded, pts_ticks, pid)),
{
}

proof fn lemma_audio_follows(
    bridge: BridgeView,
    channels: Map<u16, u8>,
    codec: AudioCodec,
    pts_ticks: Option<u64>,
    data: Seq<u8>,
    pid: Option<u16>,
)
    requires
        forall|p: u16| #[trigger]
            bridge.audio_channels.contains_key(p) ==> channels.contains_key(p) && channels[p]
                == bridge.audio_channels[p],
    ensures
        follows(
            bridge,
            audio_decoded(
                BridgeView { audio_channels: channels, ..bridge },
                codec,
                pts_ticks,
                data,
                pid,
            ),
        ),
{
    let probed = BridgeView { audio_channels: channels, ..bridge };
    match codec {
        AudioCodec::Mp2 => {
            let (decoded, after) = mpa_decoded(data, bridge.mpa);
            lemma_decoded_follows(BridgeView { mpa: after, ..probed }, decoded, pts_ticks, pid);
        },
        _ => {
            let (decoded, after) = ac3_decoded(data, bridge.ac3_done);
            lemma_decoded_follows(BridgeView { ac3_done: after, ..probed }, decoded, pts_ticks, pid);
        },
    }
}

proof fn lemma_sample_follows(bridge: BridgeView, track_id: u32, sample: SampleView)
    ensures
        follows(bridge, sample_seen(bridge, track_id, sample)),
{
    if let Some(meta) = lookup(bridge.tracks, track_id) {
        if let TrackKind::Audio(codec) = meta.kind {
            lemma_audio_follows(
                bridge,
                channels_after(bridge.audio_channels, meta.pid, codec, sample.data),
                codec,
                ticks_90k(sample.pts, meta.timescale),
                sample.data,
                meta.pid,
            );
        }
    }
}

proof fn lemma_step_follows(bridge: BridgeView, event: EventView)
    ensures
        follows(bridge, bridge_step(bridge, event)),
{
    match event {
        EventView::Sample { track_id, sample } => {
            lemma_sample_follows(bridge, track_id, sample);
        },
        _ => {},
    }
}

/// Whatever events come, the selected audio and subtitle tracks, the shown
/// video track and the player's settings stay as they are; a channel count,
/// once read from a frame header, is never changed; access units and PCM that
/// wait to be taken stay in front of what is added; no counter goes down.
pub proof fn events_keep_choices(bridge: BridgeView, events: Seq<EventView>)
    ensures
        follows(bridge, bridge_run(bridge, events)),
    decreases events.len(),
{
    if events.len() > 0 {
        let next = bridge_step(bridge, events[0]);
        let end = bridge_run(next, events.drop_first());
        lemma_step_follows(bridge, events[0]);
        events_keep_choices(next, events.drop_first());
        assert forall|pid: u16| #[trigger] bridge.audio_channels.contains_key(pid) implies
            end.audio_channels.contains_key(pid) && end.audio_channels[pid]
            == bridge.audio_channels[pid] by {
            assert(next.audio_channels.contains_key(pid));
        }
        assert forall|i: int| 0 <= i < bridge.video_aus.len() implies bridge.video_aus[i]
            == #[trigger] end.video_aus[i] by {
            assert(bridge.video_aus[i] == next.video_aus[i]);
        }
        assert forall|i: int| 0 <= i < bridge.pcm.len() implies bridge.pcm[i]
            == #[trigger] end.pcm[i] by {
            assert(bridge.pcm[i] == next.pcm[i]);
        }
    }
}

/// Whether a PCM chunk can be played: it has a rate and channels, and is either
/// stereo or handed out with the channels that were decoded.
pub open spec fn playable(chunk: PcmView) -> bool {
    &&& chunk.sample_rate > 0
    &&& chunk.native_channels > 0
    &&& chunk.channels == 2 || chunk.channels == chunk.native_channels
    &&& chunk.native_channels <= 2 ==> chunk.channels == 2
}

/// Every PCM chunk is playable. While downmixing is on, every new one is
/// stereo.
pub proof fn pcm_is_playable(bridge: BridgeView, events: Seq<EventView>)
    requires
        forall|i: int| 0 <= i < bridge.pcm.len() ==> playable(#[trigger] bridge.pcm[i]),
    ensures
        ({
            let end = bridge_run(bridge, events);
            &&& forall|i: int| 0 <= i < end.pcm.len() ==> playable(#[trigger] end.pcm[i])
            &&& forall|i: int|
                bridge.pcm.len() <= i < end.pcm.len() && bridge.downmix_audio ==> (
                #[trigger] end.pcm[i]).channels == 2
        }),
    decreases events.len(),
{
    if events.len() > 0 {
        let next = bridge_step(bridge, events[0]);
        let end = bridge_run(next, events.drop_first());
        lemma_step_follows(bridge, events[0]);
        assert forall|i: int| 0 <= i < next.pcm.len() implies playable(#[trigger] next.pcm[i]) by {
            if i < bridge.pcm.len() {
                assert(next.pcm[i] == bridge.pcm[i]);
            }
        }
        pcm_is_playable(next, events.drop_first());
        events_keep_choices(next, events.drop_first());
        assert forall|i: int|
            bridge.pcm.len() <= i < end.pcm.len() && bridge.downmix_audio implies (
        #[trigger] end.pcm[i]).channels == 2 by {
            if i < next.pcm.len() {
                assert(end.pcm[i] == next.pcm[i]);
            }
        }
    }
}

/// Audio of a PID that is not selected is never decoded: it tells its channel
/// count and nothing else.
pub proof fn unselected_audio_is_not_decoded(
    bridge: BridgeView,
    track_id: u32,
    meta: TrackMeta,
    sample: SampleView,
)
    requires
        lookup(bridge.tracks, track_id) == Some(meta),
        meta.kind is Audio,
        meta.pid != bridge.selected_audio_pid,
    ensures
        sample_seen(bridge, track_id, sample) == (BridgeView {
            audio_channels: channels_after(
                bridge.audio_channels,
                meta.pid,
                meta.kind->Audio_0,
                sample.data,
            ),
            ..bridge
        }),
{
}

/// The decoded PID is a report, not a request: it changes only together with
/// a new PCM chunk, and then it is the PID of the track that the chunk came
/// from, which is the selected one.
pub proof fn decoded_pid_follows_pcm(bridge: BridgeView, event: EventView)
    ensures
        ({
            let next = bridge_step(bridge, event);
            if next.pcm.len() == bridge.pcm.len() {
                next.decoded_audio_pid == bridge.decoded_audio_pid && next.last_audio_channels
                    == bridge.last_audio_channels
            } else {
                &&& next.pcm.len() == bridge.pcm.len() + 1
                &&& next.decoded_audio_pid == bridge.selected_audio_pid
                &&& next.last_audio_channels == next.pcm.last().native_channels
                &&& event matches EventView::Sample { track_id, .. } && lookup(
                    bridge.tracks,
                    track_id,
                ) matches Some(meta) && meta.pid == next.decoded_audio_pid
            }
        }),
{
}

/// A clock reference sets the clock whatever it was, and from then on no video
/// timestamp moves it.
pub proof fn clock_reference_is_authoritative(
    bridge: BridgeView,
    track_id: u32,
    meta: TrackMeta,
    sample: SampleView,
)
    requires
        bridge.latest_pcr is Some,
    ensures
        video_sample(bridge, track_id, meta, sample).latest_pcr == bridge.latest_pcr,
{
}

/// A clock reference at 27 MHz is divided by 300.
pub proof fn pcr_is_divided_by_300(latest: Option<i64>, ticks: u64)
    ensures
        clock_after(latest, ticks, 27_000_000) == Some((ticks as int / 300) as i64),
{
    assert(ticks as int * 90_000 / 27_000_000 == ticks as int / 300) by (nonlinear_arith);
}

/// A re-anchored timeline is counted and changes nothing else; every other
/// discontinuity leaves both decoders as if new.
pub proof fn only_reanchoring_spares_the_decoders(bridge: BridgeView, kind: Discontinuity)
    ensures
        ({
            let next = discontinued(bridge, kind);
            if kind == Discontinuity::TimelineReanchored {
                next == (BridgeView { counts: next.counts, ..bridge })
            } else {
                next.ac3_done.len() == 0 && next.mpa == fresh_mpa() && next.counts == bridge.counts
            }
        }),
{
}

/// A single corrupt packet is counted and changes nothing else; lost packets
/// leave both decoders as if new. Neither touches the segmenter.
pub proof fn degradation_never_marks_the_segmenter(bridge: BridgeView, kind: Degradation)
    ensures
        ({
            let next = degraded(bridge, kind);
            &&& next.segmenter == bridge.segmenter
            &&& if kind == Degradation::TransportError {
                next == (BridgeView { counts: next.counts, ..bridge })
            } else {
                next.ac3_done.len() == 0 && next.mpa == fresh_mpa()
            }
        }),
{
}

/// After a change of the subtitle PID, or when subtitles are switched off, no
/// cue of the PID before waits to be taken, and none of its segments is left.
/// Nothing else changes.
pub proof fn switching_subtitles_drops_their_cues(bridge: BridgeView, pid: Option<u16>)
    requires
        bridge.selected_subtitle_pid != pid,
    ensures
        ({
            let after = with_subtitle(bridge, pid);
            &&& waiting_cues(after) == Seq::<ShownCueView>::empty()
            &&& after.compositor == cleared()
            &&& after == (BridgeView {
                selected_subtitle_pid: pid,
                compositor: after.compositor,
                cues: after.cues,
                ..bridge
            })
        }),
{
    assert(waiting_cues(with_subtitle(bridge, pid)) =~= Seq::empty());
}

} // verus!
