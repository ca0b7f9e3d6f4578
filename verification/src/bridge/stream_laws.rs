//! What a bridge hands out of the samples that it sees.

use vstd::prelude::*;
use crate::ac3::decoder::{audio_of, decode_outcome, AuOutcome, AudioView};
use crate::ac3::header::syncframe_channels;
use crate::bridge::cmaf::{
    can_flush, can_push, cmaf_on_flush, cmaf_on_push, CmafCall, CmafHistory,
};
use crate::bridge::dto::{
    AuView, WasmPcmChunk, WasmSubtitleCue, WasmSubtitleRegion, WasmVideoAu,
};
use crate::bridge::stream::{
    bridge_run, bridge_step, ended_bridge, header_channels, new_bridge, waiting_cues,
    waiting_segments, with_audio, BridgeView, CmafView,
};
use crate::bridge::tracks::{lookup, set_then_get};
use crate::engine_laws::{at_90k, samples_of_track, tells_time};
use crate::hls::playlist::bumped;
use crate::mpa::mpa_outcome;
use crate::ts::avc::{avc1_string, avcc_bytes, has_wire_form, RecordView};
use crate::ts::codec::{AudioCodec, TrackKind};
use crate::ts::demux::{EventView, MediaSample, SampleView};
use crate::ts::mp2_header::layer2_channels;
use crate::ts::segments::pes_segments;
use crate::ts::subtitle_compositor::{fed, with_segments, Outcome};
use crate::ts::ticks::ticks_90k;
use crate::ts::track::{meta_of, TrackMeta, TrackView};

verus! {

/// What is handed out shows its fields.
pub proof fn units_and_chunks_show_their_fields(
    au: WasmVideoAu,
    chunk: WasmPcmChunk,
    cue: WasmSubtitleCue,
    region: WasmSubtitleRegion,
    sample: MediaSample,
)
    ensures
        au.view().pts_ticks == au.pts_ticks,
        au.view().dts_ticks == au.dts_ticks,
        au.view().is_keyframe == au.is_keyframe,
        au.view().bytes == au.bytes@,
        chunk.view().pts_ticks == chunk.pts_ticks,
        chunk.view().sample_rate == chunk.sample_rate,
        chunk.view().channels == chunk.channels,
        chunk.view().native_channels == chunk.native_channels,
        chunk.view().pcm_s16le == chunk.pcm_s16le@,
        cue.view().start_pts == cue.start_pts,
        cue.view().end_pts == cue.end_pts,
        region.view().x == region.x,
        region.view().y == region.y,
        region.view().width == region.width,
        region.view().height == region.height,
        region.view().rgba == region.rgba@,
        sample.view().data == sample.data@,
        sample.view().dts == sample.dts,
        sample.view().pts == sample.pts,
        sample.view().duration == sample.duration,
        sample.view().is_sync == sample.is_sync,
{
}

/// Whether `ticks` is this time of a track, brought to 90 kHz; none where the
/// track cannot tell it.
pub open spec fn is_time(ticks: Option<u64>, time: Option<i64>, timescale: u32) -> bool {
    &&& (ticks is Some) == tells_time(time, timescale)
    &&& ticks matches Some(t) ==> at_90k(t as int, time->0 as int, timescale as int)
    &&& ticks is Some && timescale == 90_000 ==> ticks->0 == time->0
}

proof fn lemma_is_time(time: Option<i64>, timescale: u32)
    ensures
        is_time(ticks_90k(time, timescale), time, timescale),
{
    if let Some(t) = time {
        if t >= 0 && timescale > 0 {
            let q = t * 90_000 / timescale as int;
            let d = timescale as int;
            vstd::arithmetic::div_mod::lemma_fundamental_div_mod(t * 90_000, d);
            vstd::arithmetic::div_mod::lemma_mod_bound(t * 90_000, d);
            vstd::arithmetic::div_mod::lemma_div_pos_is_pos(t * 90_000, d);
            assert(d * q == q * d) by (nonlinear_arith);
            assert((q + 1) * d == q * d + d) by (nonlinear_arith);
            let top = 0x1_0000_0000_0000_0000int;
            if q >= top {
                assert(q * d >= top * d) by (nonlinear_arith)
                    requires
                        q >= top,
                        d > 0,
                ;
            } else {
                assert((q + 1) * d <= top * d) by (nonlinear_arith)
                    requires
                        q + 1 <= top,
                        d > 0,
                ;
            }
        }
    }
}

// ---------------------------------------------------------------------------
// Video
// ---------------------------------------------------------------------------

/// A sample of the shown video track becomes one access unit behind those
/// before it, with the presentation time of the sample as its PTS and its
/// decode time as its DTS, both at 90 kHz, with its flag and its bytes. A
/// sample of any other track becomes none.
pub proof fn video_units_carry_both_times(
    bridge: BridgeView,
    track_id: u32,
    meta: TrackMeta,
    sample: SampleView,
)
    requires
        lookup(bridge.tracks, track_id) == Some(meta),
    ensures
        ({
            let after = bridge_step(bridge, EventView::Sample { track_id, sample });
            let shown = meta.kind is Video && bridge.video_track_id == Some(track_id);
            &&& shown ==> {
                let unit = after.video_aus.last();
                &&& after.video_aus.len() == bridge.video_aus.len() + 1
                &&& after.video_aus.drop_last() == bridge.video_aus
                &&& is_time(unit.pts_ticks, sample.pts, meta.timescale)
                &&& is_time(unit.dts_ticks, sample.dts, meta.timescale)
                &&& unit.is_keyframe == sample.is_sync
                &&& unit.bytes == sample.data
            }
            &&& !shown ==> after.video_aus == bridge.video_aus
        }),
{
    let after = bridge_step(bridge, EventView::Sample { track_id, sample });
    lemma_is_time(sample.pts, meta.timescale);
    lemma_is_time(sample.dts, meta.timescale);
    if meta.kind is Video && bridge.video_track_id == Some(track_id) {
        assert(after.video_aus.drop_last() =~= bridge.video_aus);
    }
}

/// Whether access units hold the bytes and flags of samples, in order.
pub open spec fn aus_of(aus: Seq<AuView>, samples: Seq<SampleView>) -> bool {
    &&& aus.len() == samples.len()
    &&& forall|i: int|
        0 <= i < aus.len() ==> (#[trigger] aus[i]).bytes == samples[i].data && aus[i].is_keyframe
            == samples[i].is_sync
}

/// Whether no event tells of this track.
pub open spec fn track_stays(events: Seq<EventView>, id: u32) -> bool {
    forall|i: int|
        0 <= i < events.len() ==> match #[trigger] events[i] {
            EventView::TrackAdded(track) => track.track_id != id,
            EventView::TrackUpdated(track) => track.track_id != id,
            _ => true,
        }
}

/// Over any events that do not change the shown video track, the access units
/// that are added are the samples of that track: all of them, in order, and
/// nothing else.
pub proof fn every_video_sample_is_handed_out(
    bridge: BridgeView,
    id: u32,
    meta: TrackMeta,
    events: Seq<EventView>,
)
    requires
        bridge.video_track_id == Some(id),
        lookup(bridge.tracks, id) == Some(meta),
        meta.kind is Video,
        track_stays(events, id),
    ensures
        ({
            let after = bridge_run(bridge, events);
            let n = bridge.video_aus.len() as int;
            &&& after.video_aus.len() >= n
            &&& after.video_aus.take(n) == bridge.video_aus
            &&& aus_of(after.video_aus.skip(n), samples_of_track(events, id))
        }),
    decreases events.len(),
{
    let n = bridge.video_aus.len() as int;
    let after = bridge_run(bridge, events);
    if events.len() == 0 {
        assert(after.video_aus.take(n) =~= bridge.video_aus);
    } else {
        let event = events[0];
        let next = bridge_step(bridge, event);
        let m = next.video_aus.len() as int;
        let rest = events.drop_first();
        assert(track_stays(rest, id)) by {
            assert forall|i: int| 0 <= i < rest.len() implies match #[trigger] rest[i] {
                EventView::TrackAdded(track) => track.track_id != id,
                EventView::TrackUpdated(track) => track.track_id != id,
                _ => true,
            } by {
                assert(rest[i] == events[i + 1]);
            }
        }
        match event {
            EventView::TrackAdded(track) => {
                set_then_get(bridge.tracks, track.track_id, meta_of(track), id);
            },
            EventView::TrackUpdated(track) => {
                set_then_get(bridge.tracks, track.track_id, meta_of(track), id);
            },
            EventView::Sample { track_id, sample } => {
                if let Some(other) = lookup(bridge.tracks, track_id) {
                    video_units_carry_both_times(bridge, track_id, other, sample);
                }
            },
            _ => {},
        }
        every_video_sample_is_handed_out(next, id, meta, rest);
        if let EventView::Sample { track_id, sample } = event {
            if track_id == id {
                let all = samples_of_track(events, id);
                let later = samples_of_track(rest, id);
                let aus = after.video_aus.skip(n);
                assert(after.video_aus.take(n) =~= after.video_aus.take(m).take(n));
                assert(next.video_aus.take(n) =~= bridge.video_aus);
                assert(after.video_aus.take(m)[n] == after.video_aus[n]);
                assert forall|i: int| 0 <= i < aus.len() implies (#[trigger] aus[i]).bytes
                    == all[i].data && aus[i].is_keyframe == all[i].is_sync by {
                    if i > 0 {
                        assert(aus[i] == after.video_aus.skip(m)[i - 1]);
                        assert(all[i] == later[i - 1]);
                    }
                }
            }
        }
    }
}

/// Each sample of the shown video track is handed to the segmenter, behind what
/// it was given before, or counted as an error; what it cuts waits behind what
/// waited before. The end of the stream cuts what is left.
pub proof fn every_video_sample_is_segmented(
    bridge: BridgeView,
    segmenter: CmafView,
    track_id: u32,
    meta: TrackMeta,
    sample: SampleView,
)
    requires
        bridge.segmenter == Some(segmenter),
        bridge.video_track_id == Some(track_id),
        lookup(bridge.tracks, track_id) == Some(meta),
        meta.kind is Video,
    ensures
        ({
            let after = bridge_step(bridge, EventView::Sample { track_id, sample });
            let given = segmenter.history.calls.push(CmafCall::Push(track_id, sample));
            &&& after.segmenter matches Some(next) && {
                &&& can_push(segmenter.history, track_id, sample) ==> next.history.calls == given
                    && waiting_segments(after) == waiting_segments(bridge) + cmaf_on_push(
                    segmenter.history,
                    track_id,
                    sample,
                ).1
                &&& next.history.calls == given || (next.history.calls == segmenter.history.calls
                    && after.counts.segmenter_errors == bumped(bridge.counts.segmenter_errors)
                    && waiting_segments(after) == waiting_segments(bridge))
            }
        }),
        ({
            let after = ended_bridge(bridge);
            &&& after.ended
            &&& after.video_aus == bridge.video_aus
            &&& after.pcm == bridge.pcm
            &&& after.segmenter matches Some(next) && {
                &&& can_flush(segmenter.history) ==> next.history.calls
                    == segmenter.history.calls.push(CmafCall::Flush) && waiting_segments(after)
                    == waiting_segments(bridge) + cmaf_on_flush(segmenter.history).1
                &&& !can_flush(segmenter.history) ==> next == segmenter
                    && after.counts.segmenter_errors == bumped(bridge.counts.segmenter_errors)
            }
        }),
{
    let push = bridge_step(bridge, EventView::Sample { track_id, sample });
    let end = ended_bridge(bridge);
    assert(waiting_segments(push) =~= if can_push(segmenter.history, track_id, sample) {
        waiting_segments(bridge) + cmaf_on_push(segmenter.history, track_id, sample).1
    } else {
        waiting_segments(bridge)
    });
    assert(waiting_segments(end) =~= if can_flush(segmenter.history) {
        waiting_segments(bridge) + cmaf_on_flush(segmenter.history).1
    } else {
        waiting_segments(bridge)
    });
}

/// The first video track that is announced is the one that is shown, and its
/// segmenter is made for its number, its timescale and its own configuration.
/// The first audio track that has a PID is selected.
pub proof fn first_tracks_are_chosen(bridge: BridgeView, track: TrackView)
    ensures
        ({
            let after = bridge_step(bridge, EventView::TrackAdded(track));
            let meta = meta_of(track);
            &&& lookup(after.tracks, track.track_id) == Some(meta)
            &&& bridge.video_track_id is Some ==> after.video_track_id == bridge.video_track_id
                && after.segmenter == bridge.segmenter && after.video_config == bridge.video_config
            &&& bridge.video_track_id is None && !(meta.kind is Video) ==> after.video_track_id
                is None && after.segmenter == bridge.segmenter
            &&& bridge.video_track_id is None && meta.kind is Video ==> after.video_track_id
                == Some(track.track_id)
            &&& bridge.video_track_id is None && meta.kind is Video && track.track_id < u32::MAX
                && after.segmenter != bridge.segmenter ==> (after.segmenter matches Some(made) && {
                &&& made.history.track.track_id == track.track_id
                &&& made.history.track.timescale == track.timescale
                &&& made.history.track.source == track.source
                &&& made.history.track.movie_timescale == 90_000
                &&& made.history.track.target_secs == 2
                &&& made.history.calls.len() == 0
                &&& made.ready.len() == 0
            })
            &&& bridge.selected_audio_pid is Some ==> after.selected_audio_pid
                == bridge.selected_audio_pid
            &&& bridge.selected_audio_pid is None ==> after.selected_audio_pid == if meta.kind
                is Audio {
                meta.pid
            } else {
                None
            }
        }),
{
    set_then_get(bridge.tracks, track.track_id, meta_of(track), track.track_id);
}

// ---------------------------------------------------------------------------
// Audio
// ---------------------------------------------------------------------------

/// What the decoder of this codec makes of an access unit: MPEG audio goes to
/// the one, everything else to the other.
pub open spec fn decoded(bridge: BridgeView, codec: AudioCodec, data: Seq<u8>) -> Option<AudioView> {
    match codec {
        AudioCodec::Mp2 => match mpa_outcome(bridge.mpa, data).1 {
            Ok(Some((pcm_s16le, sample_rate, channels))) => Some(
                AudioView { pcm_s16le, sample_rate, channels },
            ),
            _ => None,
        },
        AudioCodec::Ac3 | AudioCodec::EAc3 => match decode_outcome(data, bridge.ac3_done) {
            AuOutcome::Done(collected, _) => audio_of(collected),
            AuOutcome::Failed(..) => None,
        },
    }
}

/// A sample of the selected audio track that decodes to audio becomes one PCM
/// chunk behind those before it: with the presentation time of the sample at
/// 90 kHz, and the samples, the rate and the native channels that the decoder
/// gave. Up to two channels are played as stereo, and more too while downmixing
/// is on; else as many as there are. A sample of another track becomes none.
pub proof fn pcm_chunks_carry_their_time(
    bridge: BridgeView,
    track_id: u32,
    meta: TrackMeta,
    codec: AudioCodec,
    sample: SampleView,
)
    requires
        lookup(bridge.tracks, track_id) == Some(meta),
        meta.kind == TrackKind::Audio(codec),
    ensures
        ({
            let after = bridge_step(bridge, EventView::Sample { track_id, sample });
            let audio = decoded(bridge, codec, sample.data);
            let plays = meta.pid == bridge.selected_audio_pid && audio is Some
                && audio->0.sample_rate > 0 && audio->0.channels > 0;
            &&& plays ==> {
                let chunk = after.pcm.last();
                &&& after.pcm.len() == bridge.pcm.len() + 1
                &&& after.pcm.drop_last() == bridge.pcm
                &&& is_time(chunk.pts_ticks, sample.pts, meta.timescale)
                &&& chunk.pcm_s16le == audio->0.pcm_s16le
                &&& chunk.sample_rate == audio->0.sample_rate
                &&& chunk.native_channels == audio->0.channels
                &&& chunk.channels == if audio->0.channels > 2 && !bridge.downmix_audio {
                    audio->0.channels
                } else {
                    2
                }
                &&& after.decoded_audio_pid == meta.pid
                &&& after.last_audio_channels == audio->0.channels
            }
            &&& !plays ==> after.pcm == bridge.pcm
            &&& after.video_aus == bridge.video_aus
        }),
{
    let after = bridge_step(bridge, EventView::Sample { track_id, sample });
    lemma_is_time(sample.pts, meta.timescale);
    if after.pcm.len() > bridge.pcm.len() {
        assert(after.pcm.drop_last() =~= bridge.pcm);
    }
}

/// The decoders go on from access unit to access unit of the selected track:
/// each starts where the one before it left off, and that of the other codec is
/// not touched. A unit that cannot be decoded is counted.
pub proof fn decoders_go_on(
    bridge: BridgeView,
    track_id: u32,
    meta: TrackMeta,
    codec: AudioCodec,
    sample: SampleView,
)
    requires
        lookup(bridge.tracks, track_id) == Some(meta),
        meta.kind == TrackKind::Audio(codec),
        meta.pid == bridge.selected_audio_pid,
    ensures
        ({
            let after = bridge_step(bridge, EventView::Sample { track_id, sample });
            let errors = bridge.counts.audio_decode_errors;
            match codec {
                AudioCodec::Mp2 => {
                    &&& after.mpa == mpa_outcome(bridge.mpa, sample.data).0
                    &&& after.ac3_done == bridge.ac3_done
                    &&& after.counts.audio_decode_errors == if mpa_outcome(
                        bridge.mpa,
                        sample.data,
                    ).1 is Err {
                        bumped(errors)
                    } else {
                        errors
                    }
                },
                _ => {
                    &&& after.mpa == bridge.mpa
                    &&& match decode_outcome(sample.data, bridge.ac3_done) {
                        AuOutcome::Done(_, done) => after.ac3_done == done
                            && after.counts.audio_decode_errors == errors,
                        AuOutcome::Failed(_, done) => after.ac3_done == done
                            && after.counts.audio_decode_errors == bumped(errors),
                    }
                },
            }
        }),
{
}

/// Selecting another audio PID takes effect at once and starts both decoders
/// afresh; selecting the same again changes nothing. What waits to be taken
/// stays.
pub proof fn switching_audio_starts_afresh(bridge: BridgeView, pid: u16)
    ensures
        ({
            let after = with_audio(bridge, pid);
            &&& after.selected_audio_pid == Some(pid)
            &&& bridge.selected_audio_pid == Some(pid) ==> after == bridge
            &&& bridge.selected_audio_pid != Some(pid) ==> after.ac3_done.len() == 0
                && after.mpa.done.len() == 0 && after.mpa.sample_rate == 0
            &&& after.pcm == bridge.pcm
            &&& after.video_aus == bridge.video_aus
            &&& after.tracks == bridge.tracks
            &&& after.selected_subtitle_pid == bridge.selected_subtitle_pid
            &&& after.decoded_audio_pid == bridge.decoded_audio_pid
        }),
{
}

/// A new bridge has seen nothing and hands nothing out; it has no selection,
/// and downmixes.
pub proof fn new_bridges_are_empty()
    ensures
        ({
            let bridge = new_bridge();
            &&& bridge.tracks.len() == 0
            &&& bridge.video_track_id is None
            &&& bridge.selected_audio_pid is None
            &&& bridge.selected_subtitle_pid is None
            &&& bridge.latest_pcr is None
            &&& bridge.segmenter is None
            &&& bridge.video_aus.len() == 0
            &&& bridge.pcm.len() == 0
            &&& waiting_cues(bridge).len() == 0
            &&& waiting_segments(bridge).len() == 0
            &&& bridge.ac3_done.len() == 0
            &&& bridge.downmix_audio
            &&& !bridge.playing
            &&& !bridge.ended
        }),
{
}

/// MPEG audio tells its channels in its own header, and everything else in that
/// of AC-3.
pub proof fn channels_are_read_by_codec(data: Seq<u8>)
    ensures
        header_channels(AudioCodec::Mp2, data) == layer2_channels(data),
        header_channels(AudioCodec::Ac3, data) == syncframe_channels(data),
        header_channels(AudioCodec::EAc3, data) == syncframe_channels(data),
{
}

/// The first sample of the track of a segmenter fits, with any times that are
/// no more than 2^62 from zero.
pub proof fn first_video_samples_fit(history: CmafHistory, sample: SampleView)
    requires
        history.calls.len() == 0,
        sample.dts matches Some(dts) ==> -0x4000_0000_0000_0000 <= dts <= 0x3fff_ffff_ffff_ffff,
        sample.pts matches Some(pts) ==> -0x4000_0000_0000_0000 <= pts <= 0x3fff_ffff_ffff_ffff,
    ensures
        can_push(history, history.track.track_id, sample),
        can_flush(history),
{
}

/// The configuration of the shown video track is the codec string and the
/// record of its announcement, and follows its updates; that of another track
/// is not taken over.
pub proof fn the_shown_track_is_configured(bridge: BridgeView, track: TrackView, record: RecordView)
    requires
        track.avc_record == Some(record),
    ensures
        ({
            let added = bridge_step(bridge, EventView::TrackAdded(track));
            let updated = bridge_step(bridge, EventView::TrackUpdated(track));
            let told = (
                avc1_string(
                    record.profile_indication,
                    record.profile_compatibility,
                    record.level_indication,
                ),
                if has_wire_form(record) {
                    avcc_bytes(record)
                } else {
                    Seq::empty()
                },
            );
            &&& bridge.video_track_id is None && meta_of(track).kind is Video ==> added.video_config
                == Some(told)
            &&& bridge.video_track_id is Some ==> added.video_config == bridge.video_config
            &&& bridge.video_track_id == Some(track.track_id) ==> updated.video_config == Some(told)
            &&& bridge.video_track_id != Some(track.track_id) ==> updated.video_config
                == bridge.video_config
            &&& updated.video_track_id == bridge.video_track_id
            &&& updated.selected_audio_pid == bridge.selected_audio_pid
            &&& lookup(updated.tracks, track.track_id) == Some(meta_of(track))
        }),
{
    set_then_get(bridge.tracks, track.track_id, meta_of(track), track.track_id);
}

/// What a track that is gone, or never came, tells changes nothing.
pub proof fn lost_tracks_change_nothing(bridge: BridgeView, track_id: u32, generation: u32)
    ensures
        bridge_step(bridge, EventView::TrackRemoved { track_id }) == bridge,
        bridge_step(bridge, EventView::TrackAbandoned) == bridge,
        bridge_step(bridge, EventView::TracksResolved { generation }) == bridge,
{
}

// ---------------------------------------------------------------------------
// Subtitles
// ---------------------------------------------------------------------------

/// A data field on the selected subtitle PID is composited with the PID and the
/// presentation time of its sample at 90 kHz; the cues that come of it wait
/// behind those that waited. Where that fails its segments are kept. A field on
/// any other PID changes nothing.
pub proof fn selected_subtitles_are_composited(
    bridge: BridgeView,
    track_id: u32,
    meta: TrackMeta,
    sample: SampleView,
    pid: u16,
)
    requires
        lookup(bridge.tracks, track_id) == Some(meta),
        meta.kind is Subtitle,
        meta.pid == Some(pid),
    ensures
        ({
            let after = bridge_step(bridge, EventView::Sample { track_id, sample });
            &&& bridge.selected_subtitle_pid != Some(pid) ==> after == bridge
            &&& bridge.selected_subtitle_pid == Some(pid) && sample.data.len() > 0
                && sample.data[0] == 0x20 && pes_segments(sample.data) is Some ==> exists|
                time: Option<u64>,
            |
                #![trigger fed(bridge.compositor, pid, time, pes_segments(sample.data)->0)]
                is_time(time, sample.pts, meta.timescale) && (match fed(
                    bridge.compositor,
                    pid,
                    time,
                    pes_segments(sample.data)->0,
                ) {
                    Outcome::Done(compositor) => after.compositor == compositor,
                    _ => after.compositor == with_segments(
                        bridge.compositor,
                        pes_segments(sample.data)->0,
                    ),
                })
            &&& sample.data.len() == 0 || sample.data[0] != 0x20 || pes_segments(sample.data) is None
                ==> after.compositor == bridge.compositor
            &&& after.cues == bridge.cues
        }),
{
    lemma_is_time(sample.pts, meta.timescale);
    let time = ticks_90k(sample.pts, meta.timescale);
    if pes_segments(sample.data) is Some {
        let outcome = fed(bridge.compositor, pid, time, pes_segments(sample.data)->0);
    }
}

/// Cues are handed out oldest first, with their times and regions as they were
/// composited.
pub proof fn cues_are_handed_out_as_composited(bridge: BridgeView, i: int)
    ensures
        waiting_cues(bridge).len() == bridge.cues.len() + bridge.compositor.cues.len(),
        0 <= i < bridge.cues.len() ==> waiting_cues(bridge)[i] == bridge.cues[i],
        0 <= i < bridge.compositor.cues.len() ==> {
            let shown = waiting_cues(bridge)[bridge.cues.len() + i];
            let cue = bridge.compositor.cues[i];
            &&& shown.start_pts == cue.start_pts
            &&& shown.end_pts == cue.end_pts
            &&& shown.regions == cue.regions
        },
{
}

// ---------------------------------------------------------------------------
// The clock
// ---------------------------------------------------------------------------

/// A clock reference at any rate is brought to 90 kHz, rounded down; one that
/// cannot be, or does not fit, leaves the clock as it was.
pub proof fn clock_references_are_brought_to_90khz(
    bridge: BridgeView,
    ticks: u64,
    clock_hz: u32,
    discontinuous: bool,
)
    ensures
        ({
            let after = bridge_step(
                bridge,
                EventView::ClockReference { ticks, clock_hz, discontinuous },
            );
            let fits = clock_hz > 0 && ticks * 90_000 < 0x8000_0000_0000_0000 * clock_hz;
            &&& fits ==> (after.latest_pcr matches Some(clock) && at_90k(
                clock as int,
                ticks as int,
                clock_hz as int,
            ))
            &&& !fits ==> after.latest_pcr == bridge.latest_pcr
        }),
{
    if clock_hz > 0 {
        let d = clock_hz as int;
        let n = ticks * 90_000;
        let q = n / d;
        vstd::arithmetic::div_mod::lemma_fundamental_div_mod(n, d);
        vstd::arithmetic::div_mod::lemma_mod_bound(n, d);
        vstd::arithmetic::div_mod::lemma_div_pos_is_pos(n, d);
        assert(d * q == q * d) by (nonlinear_arith);
        assert((q + 1) * d == q * d + d) by (nonlinear_arith);
        let top = 0x8000_0000_0000_0000int;
        if q >= top {
            assert(q * d >= top * d) by (nonlinear_arith)
                requires
                    q >= top,
                    d > 0,
            ;
        } else {
            assert((q + 1) * d <= top * d) by (nonlinear_arith)
                requires
                    q + 1 <= top,
                    d > 0,
            ;
        }
    }
}

/// Until a clock reference comes, the clock stands at the presentation time of
/// the first video sample that has one; video never moves it after that.
pub proof fn video_seeds_the_clock(
    bridge: BridgeView,
    track_id: u32,
    meta: TrackMeta,
    sample: SampleView,
)
    requires
        lookup(bridge.tracks, track_id) == Some(meta),
        meta.kind is Video,
        bridge.video_track_id == Some(track_id),
    ensures
        ({
            let after = bridge_step(bridge, EventView::Sample { track_id, sample });
            &&& bridge.latest_pcr is Some ==> after.latest_pcr == bridge.latest_pcr
            &&& bridge.latest_pcr is None ==> (after.latest_pcr matches Some(clock) ==> at_90k(
                clock as int,
                sample.pts->0 as int,
                meta.timescale as int,
            ))
            &&& bridge.latest_pcr is None && meta.timescale == 90_000 ==> (sample.pts matches Some(
                pts,
            ) ==> (pts >= 0 ==> after.latest_pcr == Some(pts)))
        }),
{
    lemma_is_time(sample.pts, meta.timescale);
}

} // verus!
