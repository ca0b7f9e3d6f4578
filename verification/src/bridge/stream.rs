//! The bridge itself: from transport stream chunks to access units, media
//! segments, PCM and subtitle cues.

use std::collections::{BTreeMap, VecDeque};
use vstd::prelude::*;
use crate::ac3::decoder::{
    audio_of, decode_outcome, AuOutcome, AudioView, DecodedAudio, IncrementalDecoder,
};
use crate::ac3::header::{channels_from_syncframe, syncframe_channels};
use crate::bridge::actions::{degradation_action, discontinuity_action, EventAction};
use crate::bridge::cmaf::{
    can_flush, can_push, cmaf_init, cmaf_on_flush, cmaf_on_push, segment_bytes, CmafCall, CmafHistory,
    CmafSegmenter, CmafTrack,
};
use crate::bridge::dto::{
    region_views, AuView, CachedVideoConfig, PcmView, ShownCueView, WasmMediaSegment,
    WasmPcmChunk, WasmSubtitleCue, WasmSubtitleRegion, WasmTrackList, WasmVideoAu,
};
use crate::bridge::helpers::{
    decode_time_from, parse_base_media_decode_time, parse_sample_count_from_segment, samples_before,
};
use crate::bridge::tracks::{lookup, track_list_of, with_entry, TrackTable};
use crate::hls::playlist::bumped;
use crate::mpa::{fresh_mpa, mpa_outcome, DecodedMpa, IncrementalMpaDecoder, MpaState};
use crate::ts::avc::{avc1_string, build_avcc_config, description_of};
use crate::ts::codec::{AudioCodec, TrackKind};
use crate::ts::demux::{
    codec_held, events_on_feed, events_on_finish, Degradation, DemuxEvent, Discontinuity, EventView,
    MediaSample, SampleView, TsDemux,
};
use crate::ts::mp2_header::{channels_from_header, layer2_channels};
use crate::ts::segments::{pes_segments, PesDataField};
use crate::ts::subtitle_compositor::{
    cleared, fed, picture_views, with_segments, CompositedCue, CompositedRegion, CompositorState,
    CompositorView, CueView, Outcome,
};
use crate::ts::ticks::{checked_ticks_90k, ticks_90k};
use crate::ts::track::{meta_of, track_meta, Codec, StreamTrack, TrackMeta, TrackView};

verus! {

broadcast use vstd::std_specs::btree::group_btree_axioms;

/// Ticks per second of every timestamp that the bridge hands out.
pub const MOVIE_TIMESCALE: u32 = 90_000;

/// Target duration of a media segment, in seconds.
pub const TARGET_SEGMENT_SECS: u32 = 2;

/// First byte of a DVB subtitle PES data field (ETSI EN 300 743 §7.1).
pub const SUBTITLE_DATA_IDENTIFIER: u8 = 0x20;

// ---------------------------------------------------------------------------
// The bridge as a mathematical value
// ---------------------------------------------------------------------------

/// A segmenter as a mathematical value.
pub struct CmafView {
    pub history: CmafHistory,
    pub ready: Seq<Seq<u8>>,
}

/// [`SkyfireBridge`] as a mathematical value.
#[verifier::ext_equal]
pub struct BridgeView {
    pub tracks: Seq<(u32, TrackMeta)>,
    pub video_track_id: Option<u32>,
    /// Codec string and description of the video track.
    pub video_config: Option<(Seq<char>, Seq<u8>)>,
    pub selected_audio_pid: Option<u16>,
    pub audio_channels: Map<u16, u8>,
    pub selected_subtitle_pid: Option<u16>,
    pub playing: bool,
    pub video_aus: Seq<AuView>,
    pub segmenter: Option<CmafView>,
    pub ready_segments: Seq<Seq<u8>>,
    /// Packets that the AC-3 decoder has worked off since it was reset.
    pub ac3_done: Seq<Seq<u8>>,
    pub mpa: MpaState,
    pub pcm: Seq<PcmView>,
    pub compositor: CompositorView,
    pub cues: Seq<ShownCueView>,
    pub latest_pcr: Option<i64>,
    pub ended: bool,
    pub downmix_audio: bool,
    pub decoded_audio_pid: Option<u16>,
    pub last_audio_channels: u16,
    pub counts: Counts,
}

/// How often things happened since the bridge was made. A counter stays at the
/// top of its range.
#[derive(Clone, Copy)]
pub struct Counts {
    pub audio_decode_errors: u64,
    pub segmenter_errors: u64,
    pub timeline_reanchors: u64,
    pub transport_errors: u64,
    pub continuity_gaps: u64,
    pub unknown_events: u64,
}

/// A bridge that was given nothing.
pub open spec fn new_bridge() -> BridgeView {
    BridgeView {
        tracks: Seq::empty(),
        video_track_id: None,
        video_config: None,
        selected_audio_pid: None,
        audio_channels: Map::empty(),
        selected_subtitle_pid: None,
        playing: false,
        video_aus: Seq::empty(),
        segmenter: None,
        ready_segments: Seq::empty(),
        ac3_done: Seq::empty(),
        mpa: fresh_mpa(),
        pcm: Seq::empty(),
        compositor: cleared(),
        cues: Seq::empty(),
        latest_pcr: None,
        ended: false,
        downmix_audio: true,
        decoded_audio_pid: None,
        last_audio_channels: 0,
        counts: Counts {
            audio_decode_errors: 0,
            segmenter_errors: 0,
            timeline_reanchors: 0,
            transport_errors: 0,
            continuity_gaps: 0,
            unknown_events: 0,
        },
    }
}

/// The WebCodecs configuration of a track, if it has a decoder configuration
/// record.
pub open spec fn config_of(track: TrackView) -> Option<(Seq<char>, Seq<u8>)> {
    match track.avc_record {
        Some(record) => Some(
            (
                avc1_string(
                    record.profile_indication,
                    record.profile_compatibility,
                    record.level_indication,
                ),
                description_of(record),
            ),
        ),
        None => None,
    }
}

/// The configuration after a track told its own: one without a record leaves
/// it as it was.
pub open spec fn config_with(
    config: Option<(Seq<char>, Seq<u8>)>,
    track: TrackView,
) -> Option<(Seq<char>, Seq<u8>)> {
    if track.avc_record is Some {
        config_of(track)
    } else {
        config
    }
}

/// The segmenter that is made for a track, if one can be. The largest track
/// number gets none.
pub open spec fn segmenter_for(track: TrackView) -> Option<CmafView> {
    if track.track_id == u32::MAX || codec_held(track.source) == (Codec::Data { sections: true }) {
        None
    } else {
        Some(
            CmafView {
                history: CmafHistory {
                    track: CmafTrack {
                        track_id: track.track_id,
                        timescale: track.timescale,
                        source: track.source,
                        movie_timescale: MOVIE_TIMESCALE,
                        target_secs: TARGET_SEGMENT_SECS,
                    },
                    calls: Seq::empty(),
                },
                ready: Seq::empty(),
            },
        )
    }
}

/// The bridge after a track was announced. The first video track is the one
/// that is shown; the first audio track with a PID is selected.
pub open spec fn track_added(bridge: BridgeView, track: TrackView) -> BridgeView {
    let meta = meta_of(track);
    let takes_video = meta.kind is Video && bridge.video_track_id is None;
    BridgeView {
        tracks: with_entry(bridge.tracks, track.track_id, meta),
        video_track_id: if takes_video {
            Some(track.track_id)
        } else {
            bridge.video_track_id
        },
        video_config: if takes_video {
            config_with(bridge.video_config, track)
        } else {
            bridge.video_config
        },
        segmenter: if takes_video && segmenter_for(track) is Some {
            segmenter_for(track)
        } else {
            bridge.segmenter
        },
        selected_audio_pid: if meta.kind is Audio && bridge.selected_audio_pid is None {
            meta.pid
        } else {
            bridge.selected_audio_pid
        },
        ..bridge
    }
}

/// The bridge after the metadata of a track changed.
pub open spec fn track_updated(bridge: BridgeView, track: TrackView) -> BridgeView {
    BridgeView {
        tracks: with_entry(bridge.tracks, track.track_id, meta_of(track)),
        video_config: if bridge.video_track_id == Some(track.track_id) {
            config_with(bridge.video_config, track)
        } else {
            bridge.video_config
        },
        ..bridge
    }
}

/// A tick count, where it fits a signed clock value.
pub open spec fn as_clock(ticks: int) -> Option<i64> {
    if 0 <= ticks <= i64::MAX {
        Some(ticks as i64)
    } else {
        None
    }
}

/// The clock after a clock reference: a conversion that fails keeps what was.
pub open spec fn clock_after(latest: Option<i64>, ticks: u64, clock_hz: u32) -> Option<i64> {
    if clock_hz > 0 && as_clock(ticks as int * 90_000 / clock_hz as int) is Some {
        as_clock(ticks as int * 90_000 / clock_hz as int)
    } else {
        latest
    }
}

/// The bridge after a sample of the video track. The clock is seeded from its
/// PTS until the first clock reference. A sample that does not fit behind those
/// that the segmenter has taken counts as a segmenter error.
pub open spec fn video_sample(
    bridge: BridgeView,
    track_id: u32,
    meta: TrackMeta,
    sample: SampleView,
) -> BridgeView {
    let pts = ticks_90k(sample.pts, meta.timescale);
    let shown = BridgeView {
        latest_pcr: if bridge.latest_pcr is None && pts is Some {
            as_clock(pts->0 as int)
        } else {
            bridge.latest_pcr
        },
        video_aus: bridge.video_aus.push(
            AuView {
                pts_ticks: pts,
                dts_ticks: ticks_90k(sample.dts, meta.timescale),
                is_keyframe: sample.is_sync,
                bytes: sample.data,
            },
        ),
        ..bridge
    };
    match bridge.segmenter {
        None => shown,
        Some(segmenter) => if can_push(segmenter.history, track_id, sample) {
            let answer = cmaf_on_push(segmenter.history, track_id, sample);
            BridgeView {
                segmenter: Some(
                    CmafView {
                        history: segmenter.history.then_call(CmafCall::Push(track_id, sample)),
                        ready: segmenter.ready + answer.1,
                    },
                ),
                counts: Counts {
                    segmenter_errors: if answer.0 {
                        bridge.counts.segmenter_errors
                    } else {
                        bumped(bridge.counts.segmenter_errors)
                    },
                    ..bridge.counts
                },
                ..shown
            }
        } else {
            BridgeView {
                counts: Counts {
                    segmenter_errors: bumped(bridge.counts.segmenter_errors),
                    ..bridge.counts
                },
                ..shown
            }
        },
    }
}

/// The channel count in a frame header of this codec.
pub open spec fn header_channels(codec: AudioCodec, data: Seq<u8>) -> Option<u8> {
    match codec {
        AudioCodec::Mp2 => layer2_channels(data),
        _ => syncframe_channels(data),
    }
}

/// The channel counts after a frame header was seen on a PID. The first count
/// stays.
pub open spec fn channels_after(
    channels: Map<u16, u8>,
    pid: Option<u16>,
    codec: AudioCodec,
    data: Seq<u8>,
) -> Map<u16, u8> {
    match pid {
        None => channels,
        Some(p) => if !channels.contains_key(p) && header_channels(codec, data) is Some {
            channels.insert(p, header_channels(codec, data)->0)
        } else {
            channels
        },
    }
}

/// What came of decoding an access unit.
pub enum DecodeView {
    Audio(AudioView),
    Nothing,
    Failed,
}

/// What the AC-3 decoder makes of an access unit, and the packets it has
/// worked off then.
pub open spec fn ac3_decoded(data: Seq<u8>, done: Seq<Seq<u8>>) -> (DecodeView, Seq<Seq<u8>>) {
    match decode_outcome(data, done) {
        AuOutcome::Done(collected, after) => (
            match audio_of(collected) {
                Some(audio) => DecodeView::Audio(audio),
                None => DecodeView::Nothing,
            },
            after,
        ),
        AuOutcome::Failed(_, after) => (DecodeView::Failed, after),
    }
}

/// What the MPEG audio decoder makes of an access unit, and its state then.
pub open spec fn mpa_decoded(data: Seq<u8>, state: MpaState) -> (DecodeView, MpaState) {
    let (after, outcome) = mpa_outcome(state, data);
    (
        match outcome {
            Ok(Some((pcm_s16le, sample_rate, channels))) => DecodeView::Audio(
                AudioView { pcm_s16le, sample_rate, channels },
            ),
            Ok(None) => DecodeView::Nothing,
            Err(_) => DecodeView::Failed,
        },
        after,
    )
}

/// The bridge after an access unit was decoded.
///
/// Audio with a rate and channels becomes a PCM chunk; at most two channels, or
/// any number while downmixing is on, are played as stereo. An error is
/// counted. Anything else leaves no trace.
pub open spec fn with_decoded(
    bridge: BridgeView,
    decoded: DecodeView,
    pts_ticks: Option<u64>,
    pid: Option<u16>,
) -> BridgeView {
    match decoded {
        DecodeView::Audio(audio) => if audio.sample_rate > 0 && audio.channels > 0 {
            BridgeView {
                decoded_audio_pid: pid,
                last_audio_channels: audio.channels,
                pcm: bridge.pcm.push(
                    PcmView {
                        pts_ticks,
                        sample_rate: audio.sample_rate,
                        channels: if bridge.downmix_audio || audio.channels <= 2 {
                            2
                        } else {
                            audio.channels
                        },
                        native_channels: audio.channels,
                        pcm_s16le: audio.pcm_s16le,
                    },
                ),
                ..bridge
            }
        } else {
            bridge
        },
        DecodeView::Nothing => bridge,
        DecodeView::Failed => BridgeView {
            counts: Counts {
                audio_decode_errors: bumped(bridge.counts.audio_decode_errors),
                ..bridge.counts
            },
            ..bridge
        },
    }
}

/// The bridge after an access unit of the selected audio track went to the
/// decoder of its codec.
pub open spec fn audio_decoded(
    bridge: BridgeView,
    codec: AudioCodec,
    pts_ticks: Option<u64>,
    data: Seq<u8>,
    pid: Option<u16>,
) -> BridgeView {
    match codec {
        AudioCodec::Mp2 => {
            let (decoded, after) = mpa_decoded(data, bridge.mpa);
            with_decoded(BridgeView { mpa: after, ..bridge }, decoded, pts_ticks, pid)
        },
        _ => {
            let (decoded, after) = ac3_decoded(data, bridge.ac3_done);
            with_decoded(BridgeView { ac3_done: after, ..bridge }, decoded, pts_ticks, pid)
        },
    }
}

/// The compositor after an access unit of the selected subtitle track. What is
/// no DVB subtitle data field is passed over.
pub open spec fn composited(
    compositor: CompositorView,
    pid: u16,
    pts_ticks: Option<u64>,
    data: Seq<u8>,
) -> CompositorView {
    if data.len() > 0 && data[0] == SUBTITLE_DATA_IDENTIFIER {
        match pes_segments(data) {
            Some(segments) => match fed(compositor, pid, pts_ticks, segments) {
                Outcome::Done(after) => after,
                _ => with_segments(compositor, segments),
            },
            None => compositor,
        }
    } else {
        compositor
    }
}

/// The bridge after a sample.
pub open spec fn sample_seen(bridge: BridgeView, track_id: u32, sample: SampleView) -> BridgeView {
    match lookup(bridge.tracks, track_id) {
        None => bridge,
        Some(meta) => match meta.kind {
            TrackKind::Video(_) => if bridge.video_track_id == Some(track_id) {
                video_sample(bridge, track_id, meta, sample)
            } else {
                bridge
            },
            TrackKind::Audio(codec) => {
                let probed = BridgeView {
                    audio_channels: channels_after(
                        bridge.audio_channels,
                        meta.pid,
                        codec,
                        sample.data,
                    ),
                    ..bridge
                };
                if meta.pid == bridge.selected_audio_pid {
                    audio_decoded(
                        probed,
                        codec,
                        ticks_90k(sample.pts, meta.timescale),
                        sample.data,
                        meta.pid,
                    )
                } else {
                    probed
                }
            },
            TrackKind::Subtitle(_) => if meta.pid == bridge.selected_subtitle_pid {
                BridgeView {
                    compositor: composited(
                        bridge.compositor,
                        match meta.pid {
                            Some(pid) => pid,
                            None => 0,
                        },
                        ticks_90k(sample.pts, meta.timescale),
                        sample.data,
                    ),
                    ..bridge
                }
            } else {
                bridge
            },
            TrackKind::Other => bridge,
        },
    }
}

/// The bridge after an action.
pub open spec fn acted(bridge: BridgeView, action: EventAction) -> BridgeView {
    BridgeView {
        segmenter: match bridge.segmenter {
            Some(segmenter) => if action.mark_segmenter_discontinuity {
                Some(
                    CmafView {
                        history: segmenter.history.then_call(CmafCall::MarkDiscontinuity),
                        ..segmenter
                    },
                )
            } else {
                Some(segmenter)
            },
            None => None,
        },
        ac3_done: if action.reset_decoders {
            Seq::empty()
        } else {
            bridge.ac3_done
        },
        mpa: if action.reset_decoders {
            fresh_mpa()
        } else {
            bridge.mpa
        },
        ..bridge
    }
}

/// The bridge after a discontinuity: everything but a re-anchored timeline,
/// which is only counted, resets the decoders and marks the segmenter.
pub open spec fn discontinued(bridge: BridgeView, kind: Discontinuity) -> BridgeView {
    if kind == Discontinuity::TimelineReanchored {
        BridgeView {
            counts: Counts {
                timeline_reanchors: bumped(bridge.counts.timeline_reanchors),
                ..bridge.counts
            },
            ..bridge
        }
    } else {
        acted(bridge, EventAction { reset_decoders: true, mark_segmenter_discontinuity: true })
    }
}

/// The bridge after the input degraded: it is counted, and everything but a
/// single corrupt packet resets the decoders.
pub open spec fn degraded(bridge: BridgeView, kind: Degradation) -> BridgeView {
    let counts = match kind {
        Degradation::TransportError => Counts {
            transport_errors: bumped(bridge.counts.transport_errors),
            ..bridge.counts
        },
        Degradation::ContinuityGap { .. } => Counts {
            continuity_gaps: bumped(bridge.counts.continuity_gaps),
            ..bridge.counts
        },
        Degradation::Unknown => Counts {
            unknown_events: bumped(bridge.counts.unknown_events),
            ..bridge.counts
        },
    };
    acted(
        BridgeView { counts, ..bridge },
        EventAction {
            reset_decoders: kind != Degradation::TransportError,
            mark_segmenter_discontinuity: false,
        },
    )
}

/// The bridge after an event.
pub open spec fn bridge_step(bridge: BridgeView, event: EventView) -> BridgeView {
    match event {
        EventView::TrackAdded(track) => track_added(bridge, track),
        EventView::TrackUpdated(track) => track_updated(bridge, track),
        EventView::Sample { track_id, sample } => sample_seen(bridge, track_id, sample),
        EventView::ClockReference { ticks, clock_hz, .. } => BridgeView {
            latest_pcr: clock_after(bridge.latest_pcr, ticks, clock_hz),
            ..bridge
        },
        EventView::Discontinuity(kind) => discontinued(bridge, kind),
        EventView::InputDegraded(kind) => degraded(bridge, kind),
        EventView::TrackRemoved { .. } => bridge,
        EventView::TrackAbandoned => bridge,
        EventView::TracksResolved { .. } => bridge,
        EventView::Unknown => BridgeView {
            counts: Counts {
                unknown_events: bumped(bridge.counts.unknown_events),
                ..bridge.counts
            },
            ..bridge
        },
    }
}

/// The bridge after several events, in order.
pub open spec fn bridge_run(bridge: BridgeView, events: Seq<EventView>) -> BridgeView
    decreases events.len(),
{
    if events.len() == 0 {
        bridge
    } else {
        bridge_run(bridge_step(bridge, events[0]), events.drop_first())
    }
}

/// The bridge after its segmenter was flushed and the stream marked ended. A
/// flush that does not fit counts as a segmenter error.
pub open spec fn ended_bridge(bridge: BridgeView) -> BridgeView {
    match bridge.segmenter {
        None => BridgeView { ended: true, ..bridge },
        Some(segmenter) => if can_flush(segmenter.history) {
            let answer = cmaf_on_flush(segmenter.history);
            BridgeView {
                segmenter: Some(
                    CmafView {
                        history: segmenter.history.then_call(CmafCall::Flush),
                        ready: segmenter.ready + answer.1,
                    },
                ),
                counts: Counts {
                    segmenter_errors: if answer.0 {
                        bridge.counts.segmenter_errors
                    } else {
                        bumped(bridge.counts.segmenter_errors)
                    },
                    ..bridge.counts
                },
                ended: true,
                ..bridge
            }
        } else {
            BridgeView {
                counts: Counts {
                    segmenter_errors: bumped(bridge.counts.segmenter_errors),
                    ..bridge.counts
                },
                ended: true,
                ..bridge
            }
        },
    }
}

/// The bridge after an audio PID was selected: another one than before is
/// decoded from a fresh start.
pub open spec fn with_audio(bridge: BridgeView, pid: u16) -> BridgeView {
    if bridge.selected_audio_pid == Some(pid) {
        bridge
    } else {
        BridgeView {
            selected_audio_pid: Some(pid),
            ac3_done: Seq::empty(),
            mpa: fresh_mpa(),
            ..bridge
        }
    }
}

/// The bridge after a subtitle PID was selected: another one than before starts
/// with a cleared compositor and without cues.
pub open spec fn with_subtitle(bridge: BridgeView, pid: Option<u16>) -> BridgeView {
    if bridge.selected_subtitle_pid == pid {
        bridge
    } else {
        BridgeView {
            selected_subtitle_pid: pid,
            compositor: cleared(),
            cues: Seq::empty(),
            ..bridge
        }
    }
}

/// The cues that wait to be taken, oldest first.
pub open spec fn waiting_cues(bridge: BridgeView) -> Seq<ShownCueView> {
    bridge.cues + bridge.compositor.cues.map_values(|c: CueView| shown_cue(c))
}

/// The cue as it is handed out.
pub open spec fn shown_cue(cue: CueView) -> ShownCueView {
    ShownCueView { start_pts: cue.start_pts, end_pts: cue.end_pts, regions: cue.regions }
}

// ---------------------------------------------------------------------------
// The bridge
// ---------------------------------------------------------------------------

/// Streaming bridge between a browser and the demuxer.
///
/// 1. Construct with [`SkyfireBridge::new`].
/// 2. Call `feed(chunk)` repeatedly as data arrives.
/// 3. Poll `track_list()` until it becomes `Some`.
/// 4. Call `take_video_aus()` each tick to drain pending video access units.
/// 5. Use `pcr_pts()` for the A/V sync clock.
pub struct SkyfireBridge {
    demux: TsDemux,
    tracks: TrackTable,
    video_track_id: Option<u32>,
    cached_video_config: Option<CachedVideoConfig>,
    selected_audio_pid: Option<u16>,
    audio_channels: BTreeMap<u16, u8>,
    selected_subtitle_pid: Option<u16>,
    playing: bool,
    video_aus: Vec<WasmVideoAu>,
    segmenter: Option<CmafSegmenter>,
    ready_segments: VecDeque<Vec<u8>>,
    audio_decoder: IncrementalDecoder,
    mpa_decoder: IncrementalMpaDecoder,
    audio_pcm_pending: Vec<WasmPcmChunk>,
    subtitle_compositor: CompositorState,
    subtitle_cues_pending: Vec<WasmSubtitleCue>,
    latest_pcr: Option<i64>,
    ended: bool,
    downmix_audio: bool,
    decoded_audio_pid: Option<u16>,
    last_audio_channels: u16,
    counts: Counts,
}

/// Video access units as mathematical values.
pub open spec fn au_views(aus: Seq<WasmVideoAu>) -> Seq<AuView> {
    aus.map_values(|a: WasmVideoAu| a.view())
}

/// PCM chunks as mathematical values.
pub open spec fn pcm_views(chunks: Seq<WasmPcmChunk>) -> Seq<PcmView> {
    chunks.map_values(|c: WasmPcmChunk| c.view())
}

/// Cues as mathematical values.
pub open spec fn shown_views(cues: Seq<WasmSubtitleCue>) -> Seq<ShownCueView> {
    cues.map_values(|c: WasmSubtitleCue| c.view())
}

fn show_regions(regions: Vec<CompositedRegion>) -> (shown: Vec<WasmSubtitleRegion>)
    ensures
        region_views(shown@) == picture_views(regions@),
{
    let ghost all = picture_views(regions@);
    let mut rest: Vec<CompositedRegion> = regions;
    let mut shown: Vec<WasmSubtitleRegion> = Vec::new();
    while rest.len() > 0
        invariant
            region_views(shown@) + picture_views(rest@) =~= all,
        decreases rest@.len(),
    {
        let ghost before = region_views(shown@);
        let ghost left = picture_views(rest@);
        let r: CompositedRegion = rest.remove(0);
        let ghost picture = r.view();
        shown.push(
            WasmSubtitleRegion { x: r.x, y: r.y, width: r.width, height: r.height, rgba: r.rgba },
        );
        proof {
            assert(region_views(shown@) =~= before.push(picture));
            assert(left[0] == picture);
            assert(picture_views(rest@) =~= left.drop_first());
        }
    }
    assert(region_views(shown@) =~= all);
    shown
}

impl SkyfireBridge {
    pub closed spec fn view(&self) -> BridgeView {
        BridgeView {
            tracks: self.tracks@,
            video_track_id: self.video_track_id,
            video_config: match self.cached_video_config {
                Some(config) => Some((config.codec@, config.description@)),
                None => None,
            },
            selected_audio_pid: self.selected_audio_pid,
            audio_channels: self.audio_channels@,
            selected_subtitle_pid: self.selected_subtitle_pid,
            playing: self.playing,
            video_aus: au_views(self.video_aus@),
            segmenter: match self.segmenter {
                Some(segmenter) => Some(
                    CmafView { history: segmenter.history(), ready: segmenter.ready() },
                ),
                None => None,
            },
            ready_segments: segment_bytes(self.ready_segments@),
            ac3_done: self.audio_decoder.done(),
            mpa: self.mpa_decoder.state(),
            pcm: pcm_views(self.audio_pcm_pending@),
            compositor: self.subtitle_compositor@,
            cues: shown_views(self.subtitle_cues_pending@),
            latest_pcr: self.latest_pcr,
            ended: self.ended,
            downmix_audio: self.downmix_audio,
            decoded_audio_pid: self.decoded_audio_pid,
            last_audio_channels: self.last_audio_channels,
            counts: self.counts,
        }
    }

    /// Whether the AC-3 decoder is ready for the next access unit, as it is
    /// between any two calls.
    pub closed spec fn wf(&self) -> bool {
        self.audio_decoder.idle()
    }

    /// What the bridge's demuxer has been given so far.
    pub closed spec fn input(&self) -> Seq<Option<Seq<u8>>> {
        self.demux.input()
    }

    /// Events that the demuxer still holds. None are left between calls.
    pub closed spec fn pending(&self) -> Seq<EventView> {
        self.demux.pending()
    }

    /// Create a new, empty bridge.
    #[must_use]
    pub fn new() -> (bridge: Self)
        ensures
            bridge.wf(),
            bridge.view() == new_bridge(),
            bridge.input() == Seq::<Option<Seq<u8>>>::empty(),
            bridge.pending() == Seq::<EventView>::empty(),
    {
        let audio_decoder: IncrementalDecoder = match IncrementalDecoder::new() {
            Ok(decoder) => decoder,
            Err(_) => vstd::pervasive::unreached(),
        };
        let bridge = SkyfireBridge {
            demux: TsDemux::new(),
            tracks: TrackTable::new(),
            video_track_id: None,
            cached_video_config: None,
            selected_audio_pid: None,
            audio_channels: BTreeMap::new(),
            selected_subtitle_pid: None,
            playing: false,
            video_aus: Vec::new(),
            segmenter: None,
            ready_segments: VecDeque::new(),
            audio_decoder,
            mpa_decoder: IncrementalMpaDecoder::new(),
            audio_pcm_pending: Vec::new(),
            subtitle_compositor: CompositorState::new(),
            subtitle_cues_pending: Vec::new(),
            latest_pcr: None,
            ended: false,
            downmix_audio: true,
            decoded_audio_pid: None,
            last_audio_channels: 0,
            counts: Counts {
                audio_decode_errors: 0,
                segmenter_errors: 0,
                timeline_reanchors: 0,
                transport_errors: 0,
                continuity_gaps: 0,
                unknown_events: 0,
            },
        };
        assert(bridge.view() =~= new_bridge());
        bridge
    }

    fn mark_segmenter(&mut self)
        ensures
            final(self).view() == acted(
                old(self).view(),
                EventAction { reset_decoders: false, mark_segmenter_discontinuity: true },
            ),
            final(self).wf() == old(self).wf(),
            final(self).demux == old(self).demux,
    {
        if let Some(segmenter) = self.segmenter.take() {
            self.segmenter = Some(segmenter.mark_discontinuity());
        }
    }

    fn reset_decoders(&mut self)
        ensures
            final(self).view() == acted(
                old(self).view(),
                EventAction { reset_decoders: true, mark_segmenter_discontinuity: false },
            ),
            final(self).wf(),
            final(self).demux == old(self).demux,
    {
        self.audio_decoder.reset();
        self.mpa_decoder.reset();
    }

    fn apply_action(&mut self, action: EventAction)
        requires
            old(self).wf(),
        ensures
            final(self).view() == acted(old(self).view(), action),
            final(self).wf(),
            final(self).demux == old(self).demux,
    {
        if action.mark_segmenter_discontinuity {
            self.mark_segmenter();
        }
        if action.reset_decoders {
            self.reset_decoders();
        }
    }

    fn apply_discontinuity(&mut self, kind: Discontinuity)
        requires
            old(self).wf(),
        ensures
            final(self).view() == discontinued(old(self).view(), kind),
            final(self).wf(),
            final(self).demux == old(self).demux,
    {
        if let Discontinuity::TimelineReanchored = kind {
            self.counts.timeline_reanchors = self.counts.timeline_reanchors.saturating_add(1);
        }
        self.apply_action(discontinuity_action(kind));
    }

    fn apply_input_degraded(&mut self, kind: Degradation)
        requires
            old(self).wf(),
        ensures
            final(self).view() == degraded(old(self).view(), kind),
            final(self).wf(),
            final(self).demux == old(self).demux,
    {
        match kind {
            Degradation::TransportError => {
                self.counts.transport_errors = self.counts.transport_errors.saturating_add(1);
            },
            Degradation::ContinuityGap { .. } => {
                self.counts.continuity_gaps = self.counts.continuity_gaps.saturating_add(1);
            },
            Degradation::Unknown => {
                self.counts.unknown_events = self.counts.unknown_events.saturating_add(1);
            },
        }
        self.apply_action(degradation_action(kind));
    }

    fn on_track_added(&mut self, track: StreamTrack)
        requires
            old(self).wf(),
        ensures
            final(self).view() == track_added(old(self).view(), track.view()),
            final(self).wf(),
            final(self).demux == old(self).demux,
    {
        let meta: TrackMeta = track_meta(&track);
        let is_video: bool = match meta.kind {
            TrackKind::Video(_) => true,
            _ => false,
        };
        if is_video && self.video_track_id.is_none() {
            self.video_track_id = Some(track.track_id);
            if let Some(record) = &track.avc_record {
                let (codec, description) = build_avcc_config(record);
                self.cached_video_config = Some(CachedVideoConfig { codec, description });
            }
            if let Some(segmenter) = CmafSegmenter::new(
                &track,
                MOVIE_TIMESCALE,
                TARGET_SEGMENT_SECS,
            ) {
                self.segmenter = Some(segmenter);
            }
        }
        if let TrackKind::Audio(_) = meta.kind {
            if self.selected_audio_pid.is_none() {
                self.selected_audio_pid = meta.pid;
            }
        }
        self.tracks.insert(track.track_id, meta);
    }

    fn on_track_updated(&mut self, track: StreamTrack)
        requires
            old(self).wf(),
        ensures
            final(self).view() == track_updated(old(self).view(), track.view()),
            final(self).wf(),
            final(self).demux == old(self).demux,
    {
        let meta: TrackMeta = track_meta(&track);
        if self.video_track_id == Some(track.track_id) {
            if let Some(record) = &track.avc_record {
                let (codec, description) = build_avcc_config(record);
                self.cached_video_config = Some(CachedVideoConfig { codec, description });
            }
        }
        self.tracks.insert(track.track_id, meta);
    }

    fn on_video_sample(&mut self, track_id: u32, meta: TrackMeta, sample: MediaSample)
        requires
            old(self).wf(),
        ensures
            final(self).view() == video_sample(old(self).view(), track_id, meta, sample.view()),
            final(self).wf(),
            final(self).demux == old(self).demux,
    {
        let pts: Option<u64> = checked_ticks_90k(sample.pts, meta.timescale);
        let dts: Option<u64> = checked_ticks_90k(sample.dts, meta.timescale);
        if self.latest_pcr.is_none() {
            if let Some(ticks) = pts {
                if ticks <= i64::MAX as u64 {
                    self.latest_pcr = Some(ticks as i64);
                }
            }
        }
        if let Some(segmenter) = self.segmenter.take() {
            let (segmenter, accepted) = segmenter.push(track_id, &sample);
            if !accepted {
                self.counts.segmenter_errors = self.counts.segmenter_errors.saturating_add(1);
            }
            self.segmenter = Some(segmenter);
        }
        let au = WasmVideoAu {
            pts_ticks: pts,
            dts_ticks: dts,
            is_keyframe: sample.is_sync,
            bytes: sample.data,
        };
        let ghost view = au.view();
        self.video_aus.push(au);
        assert(au_views(self.video_aus@) =~= au_views(old(self).video_aus@).push(view));
    }

    fn probe_channels(&mut self, pid: Option<u16>, codec: AudioCodec, data: &[u8])
        requires
            old(self).wf(),
        ensures
            final(self).view() == (BridgeView {
                audio_channels: channels_after(old(self).view().audio_channels, pid, codec, data@),
                ..old(self).view()
            }),
            final(self).wf(),
            final(self).demux == old(self).demux,
    {
        let pid: u16 = match pid {
            Some(pid) => pid,
            None => {
                return;
            },
        };
        if self.audio_channels.contains_key(&pid) {
            return;
        }
        let channels: Option<u8> = match codec {
            AudioCodec::Mp2 => channels_from_header(data),
            AudioCodec::Ac3 | AudioCodec::EAc3 => channels_from_syncframe(data),
        };
        if let Some(count) = channels {
            self.audio_channels.insert(pid, count);
        }
    }

    /// Takes what came of decoding an access unit.
    fn on_decoded(
        &mut self,
        decoded: Result<Option<DecodedAudio>, String>,
        pts_ticks: Option<u64>,
        pid: Option<u16>,
    )
        requires
            old(self).wf(),
        ensures
            final(self).view() == with_decoded(
                old(self).view(),
                match decoded {
                    Ok(Some(audio)) => DecodeView::Audio(audio.view()),
                    Ok(None) => DecodeView::Nothing,
                    Err(_) => DecodeView::Failed,
                },
                pts_ticks,
                pid,
            ),
            final(self).wf(),
            final(self).demux == old(self).demux,
    {
        match decoded {
            Ok(Some(audio)) => {
                let audio: DecodedAudio = audio;
                if audio.sample_rate > 0 && audio.channels > 0 {
                    self.decoded_audio_pid = pid;
                    self.last_audio_channels = audio.channels;
                    let channels: u16 = if self.downmix_audio || audio.channels <= 2 {
                        2
                    } else {
                        audio.channels
                    };
                    let chunk = WasmPcmChunk {
                        pts_ticks,
                        sample_rate: audio.sample_rate,
                        channels,
                        native_channels: audio.channels,
                        pcm_s16le: audio.pcm_s16le,
                    };
                    let ghost view = chunk.view();
                    self.audio_pcm_pending.push(chunk);
                    assert(pcm_views(self.audio_pcm_pending@) =~= pcm_views(
                        old(self).audio_pcm_pending@,
                    ).push(view));
                }
            },
            Ok(None) => {},
            Err(_) => {
                self.counts.audio_decode_errors = self.counts.audio_decode_errors.saturating_add(1);
            },
        }
    }

    fn decode_audio(
        &mut self,
        codec: AudioCodec,
        pts_ticks: Option<u64>,
        data: &[u8],
        pid: Option<u16>,
    )
        requires
            old(self).wf(),
        ensures
            final(self).view() == audio_decoded(old(self).view(), codec, pts_ticks, data@, pid),
            final(self).wf(),
            final(self).demux == old(self).demux,
    {
        let decoded: Result<Option<DecodedAudio>, String> = match codec {
            AudioCodec::Mp2 => match self.mpa_decoder.decode_au(data) {
                Ok(Some(audio)) => {
                    let audio: DecodedMpa = audio;
                    Ok(
                        Some(
                            DecodedAudio {
                                pcm_s16le: audio.pcm_s16le,
                                sample_rate: audio.sample_rate,
                                channels: audio.channels,
                            },
                        ),
                    )
                },
                Ok(None) => Ok(None),
                Err(e) => Err(e),
            },
            AudioCodec::Ac3 | AudioCodec::EAc3 => self.audio_decoder.decode_au(data),
        };
        self.on_decoded(decoded, pts_ticks, pid);
    }

    fn on_subtitle_sample(&mut self, meta: TrackMeta, sample: &MediaSample)
        requires
            old(self).wf(),
        ensures
            final(self).view() == (BridgeView {
                compositor: composited(
                    old(self).view().compositor,
                    match meta.pid {
                        Some(pid) => pid,
                        None => 0,
                    },
                    ticks_90k(sample.pts, meta.timescale),
                    sample.data@,
                ),
                ..old(self).view()
            }),
            final(self).wf(),
            final(self).demux == old(self).demux,
    {
        let pid: u16 = match meta.pid {
            Some(pid) => pid,
            None => 0,
        };
        let pts_ticks: Option<u64> = checked_ticks_90k(sample.pts, meta.timescale);
        if sample.data.len() > 0 && sample.data[0] == SUBTITLE_DATA_IDENTIFIER {
            if let Some(field) = PesDataField::parse(sample.data.as_slice()) {
                let _composited: bool = self.subtitle_compositor.feed_pes(pid, pts_ticks, &field);
            }
        }
    }

    fn on_sample(&mut self, track_id: u32, sample: MediaSample)
        requires
            old(self).wf(),
        ensures
            final(self).view() == sample_seen(old(self).view(), track_id, sample.view()),
            final(self).wf(),
            final(self).demux == old(self).demux,
    {
        let meta: TrackMeta = match self.tracks.get(track_id) {
            Some(meta) => meta,
            None => {
                return;
            },
        };
        match meta.kind {
            TrackKind::Video(_) => {
                if self.video_track_id == Some(track_id) {
                    self.on_video_sample(track_id, meta, sample);
                }
            },
            TrackKind::Audio(codec) => {
                let selected: bool = meta.pid == self.selected_audio_pid;
                self.probe_channels(meta.pid, codec, sample.data.as_slice());
                if selected {
                    let pts_ticks: Option<u64> = checked_ticks_90k(sample.pts, meta.timescale);
                    self.decode_audio(codec, pts_ticks, sample.data.as_slice(), meta.pid);
                }
            },
            TrackKind::Subtitle(_) => {
                if meta.pid == self.selected_subtitle_pid {
                    self.on_subtitle_sample(meta, &sample);
                }
            },
            TrackKind::Other => {},
        }
    }

    fn on_clock_reference(&mut self, ticks: u64, clock_hz: u32)
        requires
            old(self).wf(),
        ensures
            final(self).view() == (BridgeView {
                latest_pcr: clock_after(old(self).view().latest_pcr, ticks, clock_hz),
                ..old(self).view()
            }),
            final(self).wf(),
            final(self).demux == old(self).demux,
    {
        if clock_hz > 0 {
            let ticks_90k: u128 = ticks as u128 * 90_000 / clock_hz as u128;
            if ticks_90k <= i64::MAX as u128 {
                self.latest_pcr = Some(ticks_90k as i64);
            }
        }
    }

    /// Take one event of the stream, as [`feed`](Self::feed) does with each
    /// event that the bytes raise.
    pub fn on_event(&mut self, event: DemuxEvent)
        requires
            old(self).wf(),
        ensures
            final(self).view() == bridge_step(old(self).view(), event.view()),
            final(self).wf(),
            final(self).input() == old(self).input(),
            final(self).pending() == old(self).pending(),
    {
        match event {
            DemuxEvent::TrackAdded(track) => self.on_track_added(track),
            DemuxEvent::TrackUpdated(track) => self.on_track_updated(track),
            DemuxEvent::Sample { track_id, sample } => self.on_sample(track_id, sample),
            DemuxEvent::ClockReference { ticks, clock_hz, .. } => self.on_clock_reference(
                ticks,
                clock_hz,
            ),
            DemuxEvent::Discontinuity(kind) => self.apply_discontinuity(kind),
            DemuxEvent::InputDegraded(kind) => self.apply_input_degraded(kind),
            // A removed or abandoned track just stops producing samples, and
            // segments are cut without waiting for the set of tracks.
            DemuxEvent::TrackRemoved { .. } => {},
            DemuxEvent::TrackAbandoned => {},
            DemuxEvent::TracksResolved { .. } => {},
            DemuxEvent::Unknown => {
                self.counts.unknown_events = self.counts.unknown_events.saturating_add(1);
            },
        }
    }

    fn drain_events(&mut self)
        requires
            old(self).wf(),
        ensures
            final(self).wf(),
            final(self).view() == bridge_run(old(self).view(), old(self).pending()),
            final(self).pending() == Seq::<EventView>::empty(),
            final(self).input() == old(self).input(),
    {
        let ghost end = bridge_run(self.view(), self.pending());
        loop
            invariant_except_break
                bridge_run(self.view(), self.pending()) == end,
            invariant
                self.wf(),
                self.input() == old(self).input(),
                end == bridge_run(old(self).view(), old(self).pending()),
            ensures
                self.view() == end,
                self.pending() == Seq::<EventView>::empty(),
            decreases self.pending().len(),
        {
            let ghost before = self.view();
            let polled: Option<DemuxEvent> = self.demux.poll_event();
            assert(self.view() == before);
            match polled {
                Some(event) => {
                    self.on_event(event);
                },
                None => {
                    assert(self.pending() =~= Seq::empty());
                    break ;
                },
            }
        }
    }

    /// Push a raw transport stream chunk into the bridge.
    pub fn feed(&mut self, bytes: &[u8])
        requires
            old(self).wf(),
        ensures
            final(self).wf(),
            final(self).view() == bridge_run(
                old(self).view(),
                old(self).pending() + events_on_feed(old(self).input(), bytes@),
            ),
            final(self).input() == old(self).input().push(Some(bytes@)),
            final(self).pending() == Seq::<EventView>::empty(),
    {
        self.demux.feed(bytes);
        self.drain_events();
    }

    /// Signal end of stream: flush any partial access units and emit the final
    /// segment.
    pub fn flush(&mut self)
        requires
            old(self).wf(),
        ensures
            final(self).wf(),
            final(self).view() == ended_bridge(
                bridge_run(
                    old(self).view(),
                    old(self).pending() + events_on_finish(old(self).input()),
                ),
            ),
            final(self).input() == old(self).input().push(None),
            final(self).pending() == Seq::<EventView>::empty(),
    {
        self.demux.finish();
        self.drain_events();
        if let Some(segmenter) = self.segmenter.take() {
            let (segmenter, flushed) = segmenter.flush();
            if !flushed {
                self.counts.segmenter_errors = self.counts.segmenter_errors.saturating_add(1);
            }
            self.segmenter = Some(segmenter);
        }
        self.ended = true;
    }
}

impl SkyfireBridge {
    /// Native channel count of the most recently decoded audio (before any
    /// downmix), or 0 if none yet.
    #[must_use]
    pub fn audio_native_channels(&self) -> (channels: u16)
        ensures
            channels == self.view().last_audio_channels,
    {
        self.last_audio_channels
    }

    /// Number of audio decode errors since construction.
    #[must_use]
    pub fn audio_decode_error_count(&self) -> (count: u64)
        ensures
            count == self.view().counts.audio_decode_errors,
    {
        self.counts.audio_decode_errors
    }

    /// Number of segmenter errors since construction.
    #[must_use]
    pub fn segmenter_error_count(&self) -> (count: u64)
        ensures
            count == self.view().counts.segmenter_errors,
    {
        self.counts.segmenter_errors
    }

    /// Number of re-anchored audio timelines since construction; the decoders
    /// are not reset for these.
    #[must_use]
    pub fn timeline_reanchor_count(&self) -> (count: u64)
        ensures
            count == self.view().counts.timeline_reanchors,
    {
        self.counts.timeline_reanchors
    }

    /// Number of single corrupt packets since construction; the decoders are
    /// not reset for these.
    #[must_use]
    pub fn transport_error_count(&self) -> (count: u64)
        ensures
            count == self.view().counts.transport_errors,
    {
        self.counts.transport_errors
    }

    /// Number of gaps from lost packets since construction; each resets the
    /// audio decoders.
    #[must_use]
    pub fn continuity_gap_count(&self) -> (count: u64)
        ensures
            count == self.view().counts.continuity_gaps,
    {
        self.counts.continuity_gaps
    }

    /// Number of events that the bridge did not recognise since construction.
    #[must_use]
    pub fn unknown_event_count(&self) -> (count: u64)
        ensures
            count == self.view().counts.unknown_events,
    {
        self.counts.unknown_events
    }

    /// The audio PID routed for decoding, or `None` before any audio track is
    /// selected.
    #[must_use]
    pub fn selected_audio_pid(&self) -> (pid: Option<u16>)
        ensures
            pid == self.view().selected_audio_pid,
    {
        self.selected_audio_pid
    }

    /// The audio PID that most recently produced decoded PCM, or `None` before
    /// any audio has been decoded. A decode failure leaves it as it was.
    #[must_use]
    pub fn current_decoded_pid(&self) -> (pid: Option<u16>)
        ensures
            pid == self.view().decoded_audio_pid,
    {
        self.decoded_audio_pid
    }

    /// Latest clock value in 90 kHz ticks.
    #[must_use]
    pub fn pcr_pts(&self) -> (ticks: Option<i64>)
        ensures
            ticks == self.view().latest_pcr,
    {
        self.latest_pcr
    }

    /// Enable (default) or disable the stereo downmix.
    pub fn set_audio_downmix(&mut self, enabled: bool)
        requires
            old(self).wf(),
        ensures
            final(self).view() == (BridgeView { downmix_audio: enabled, ..old(self).view() }),
            final(self).wf(),
            final(self).input() == old(self).input(),
            final(self).pending() == old(self).pending(),
    {
        self.downmix_audio = enabled;
    }

    /// Select which audio PID to route and decode. Another PID starts with
    /// fresh decoders.
    pub fn select_audio(&mut self, pid: u16)
        requires
            old(self).wf(),
        ensures
            final(self).view() == (if old(self).view().selected_audio_pid == Some(pid) {
                old(self).view()
            } else {
                BridgeView {
                    selected_audio_pid: Some(pid),
                    ac3_done: Seq::empty(),
                    mpa: fresh_mpa(),
                    ..old(self).view()
                }
            }),
            final(self).view() == with_audio(old(self).view(), pid),
            final(self).wf(),
            final(self).input() == old(self).input(),
            final(self).pending() == old(self).pending(),
    {
        if self.selected_audio_pid != Some(pid) {
            self.reset_decoders();
        }
        self.selected_audio_pid = Some(pid);
    }

    /// Select a subtitle PID, or `None` to disable subtitles. On a change the
    /// compositor starts afresh, and cues that were not taken are dropped.
    pub fn select_subtitle(&mut self, pid: Option<u16>)
        requires
            old(self).wf(),
        ensures
            final(self).view() == with_subtitle(old(self).view(), pid),
            final(self).wf(),
            final(self).input() == old(self).input(),
            final(self).pending() == old(self).pending(),
    {
        if self.selected_subtitle_pid != pid {
            self.subtitle_cues_pending.clear();
            self.subtitle_compositor.clear();
            assert(shown_views(self.subtitle_cues_pending@) =~= Seq::empty());
        }
        self.selected_subtitle_pid = pid;
    }

    /// Set the play/pause state.
    pub fn set_playing(&mut self, playing: bool)
        requires
            old(self).wf(),
        ensures
            final(self).view() == (BridgeView { playing, ..old(self).view() }),
            final(self).wf(),
            final(self).input() == old(self).input(),
            final(self).pending() == old(self).pending(),
    {
        self.playing = playing;
    }

    /// Returns the track list once the video track has been seen, or `None`.
    pub fn track_list(&self) -> (list: Option<WasmTrackList>)
        ensures
            match list {
                Some(l) => track_list_of(
                    self.view().tracks,
                    self.view().video_track_id,
                    self.view().audio_channels,
                ) == Some(l.view()),
                None => track_list_of(
                    self.view().tracks,
                    self.view().video_track_id,
                    self.view().audio_channels,
                ) is None,
            },
    {
        self.tracks.track_list(self.video_track_id, &self.audio_channels)
    }

    /// CMAF initialization segment (`ftyp` + `moov`). Empty until a video track
    /// has been seen, and where none can be built for it.
    pub fn video_init_segment(&self) -> (bytes: Vec<u8>)
        ensures
            bytes@ == (match self.view().segmenter {
                Some(segmenter) => match cmaf_init(segmenter.history.track) {
                    Some(init) => init,
                    None => Seq::empty(),
                },
                None => Seq::empty(),
            }),
    {
        if let Some(segmenter) = &self.segmenter {
            if let Some(init) = segmenter.init_segment() {
                return init;
            }
        }
        Vec::new()
    }

    /// WebCodecs codec string (e.g. `"avc1.640028"`), or `None` if not yet
    /// available.
    pub fn video_codec(&self) -> (codec: Option<String>)
        ensures
            match codec {
                Some(c) => self.view().video_config matches Some(config) && c@ == config.0,
                None => self.view().video_config is None,
            },
    {
        match &self.cached_video_config {
            Some(config) => Some(config.codec.clone()),
            None => None,
        }
    }

    /// WebCodecs `avcC` description bytes, or empty if not yet available.
    pub fn video_config_description(&self) -> (bytes: Vec<u8>)
        ensures
            bytes@ == (match self.view().video_config {
                Some(config) => config.1,
                None => Seq::empty(),
            }),
    {
        match &self.cached_video_config {
            Some(config) => vstd::slice::slice_to_vec(config.description.as_slice()),
            None => Vec::new(),
        }
    }

    /// Drain all completed video access units since the last call.
    pub fn take_video_aus(&mut self) -> (aus: Vec<WasmVideoAu>)
        requires
            old(self).wf(),
        ensures
            au_views(aus@) == old(self).view().video_aus,
            final(self).view() == (BridgeView { video_aus: Seq::empty(), ..old(self).view() }),
            final(self).wf(),
            final(self).input() == old(self).input(),
            final(self).pending() == old(self).pending(),
    {
        let mut aus: Vec<WasmVideoAu> = Vec::new();
        std::mem::swap(&mut aus, &mut self.video_aus);
        assert(au_views(self.video_aus@) =~= Seq::empty());
        aus
    }

    /// Drain all decoded PCM chunks produced since the last call.
    pub fn take_audio_pcm(&mut self) -> (chunks: Vec<WasmPcmChunk>)
        requires
            old(self).wf(),
        ensures
            pcm_views(chunks@) == old(self).view().pcm,
            final(self).view() == (BridgeView { pcm: Seq::empty(), ..old(self).view() }),
            final(self).wf(),
            final(self).input() == old(self).input(),
            final(self).pending() == old(self).pending(),
    {
        let mut chunks: Vec<WasmPcmChunk> = Vec::new();
        std::mem::swap(&mut chunks, &mut self.audio_pcm_pending);
        assert(pcm_views(self.audio_pcm_pending@) =~= Seq::empty());
        chunks
    }

    /// Moves what the segmenter has cut to the segments that wait to be taken.
    fn collect_segments(&mut self)
        ensures
            final(self).view() == (BridgeView {
                segmenter: match old(self).view().segmenter {
                    Some(segmenter) => Some(CmafView { ready: Seq::empty(), ..segmenter }),
                    None => None,
                },
                ready_segments: waiting_segments(old(self).view()),
                ..old(self).view()
            }),
            final(self).wf() == old(self).wf(),
            final(self).demux == old(self).demux,
    {
        let ghost waiting = self.view().ready_segments;
        if let Some(segmenter) = self.segmenter.take() {
            let ghost cut = segmenter.ready();
            let (segmenter, rest) = segmenter.take_ready();
            let mut rest: Vec<Vec<u8>> = rest;
            while rest.len() > 0
                invariant
                    segment_bytes(self.ready_segments@) + segment_bytes(rest@) =~= waiting + cut,
                    *self == (SkyfireBridge {
                        segmenter: None,
                        ready_segments: self.ready_segments,
                        ..*old(self)
                    }),
                decreases rest@.len(),
            {
                let ghost before = segment_bytes(self.ready_segments@);
                let ghost left = segment_bytes(rest@);
                let bytes: Vec<u8> = rest.remove(0);
                let ghost view = bytes@;
                self.ready_segments.push_back(bytes);
                proof {
                    assert(left[0] == view);
                    assert(segment_bytes(self.ready_segments@) =~= before.push(view));
                    assert(segment_bytes(rest@) =~= left.drop_first());
                }
            }
            assert(segment_bytes(self.ready_segments@) =~= waiting + cut);
            self.segmenter = Some(segmenter);
        }
    }

    /// Drain the next complete media segment. Returns `None` until a full
    /// segment is ready.
    pub fn take_video_media_segment(&mut self) -> (segment: Option<WasmMediaSegment>)
        requires
            old(self).wf(),
        ensures
            match segment {
                Some(s) => {
                    let waiting = waiting_segments(old(self).view());
                    &&& waiting.len() > 0
                    &&& s.bytes@ == waiting[0]
                    &&& s.base_media_decode_time == decode_time_from(waiting[0], 0)
                    &&& s.sample_count == samples_before(waiting[0], waiting[0].len())
                        % 0x1_0000_0000
                    &&& waiting_segments(final(self).view()) == waiting.drop_first()
                },
                None => waiting_segments(old(self).view()).len() == 0 && waiting_segments(
                    final(self).view(),
                ).len() == 0,
            },
            final(self).view() == (BridgeView {
                segmenter: match old(self).view().segmenter {
                    Some(segmenter) => Some(CmafView { ready: Seq::empty(), ..segmenter }),
                    None => None,
                },
                ready_segments: waiting_segments(final(self).view()),
                ..old(self).view()
            }),
            final(self).wf(),
            final(self).input() == old(self).input(),
            final(self).pending() == old(self).pending(),
    {
        self.collect_segments();
        let ghost waiting = self.view().ready_segments;
        let ghost collected = self.ready_segments@;
        let bytes: Vec<u8> = match self.ready_segments.pop_front() {
            Some(bytes) => bytes,
            None => {
                assert(waiting_segments(self.view()) =~= waiting);
                return None;
            },
        };
        proof {
            assert(segment_bytes(collected)[0] == bytes@);
            assert(segment_bytes(self.ready_segments@) =~= waiting.drop_first());
            assert(waiting_segments(self.view()) =~= waiting.drop_first());
        }
        let sample_count: u32 = parse_sample_count_from_segment(bytes.as_slice());
        let base_media_decode_time: u64 = parse_base_media_decode_time(bytes.as_slice());
        Some(WasmMediaSegment { base_media_decode_time, bytes, sample_count })
    }

    /// Drain all composited subtitle cues since the last call.
    pub fn take_subtitle_cues(&mut self) -> (cues: Vec<WasmSubtitleCue>)
        requires
            old(self).wf(),
        ensures
            shown_views(cues@) == waiting_cues(old(self).view()),
            final(self).view() == (BridgeView {
                cues: Seq::empty(),
                compositor: CompositorView {
                    cues: Seq::empty(),
                    ..old(self).view().compositor
                },
                ..old(self).view()
            }),
            final(self).wf(),
            final(self).input() == old(self).input(),
            final(self).pending() == old(self).pending(),
    {
        let mut cues: Vec<WasmSubtitleCue> = Vec::new();
        std::mem::swap(&mut cues, &mut self.subtitle_cues_pending);
        assert(shown_views(self.subtitle_cues_pending@) =~= Seq::empty());
        let ghost waiting = shown_views(cues@);
        let ghost new = self.subtitle_compositor@.cues.map_values(|c: CueView| shown_cue(c));
        let mut rest: Vec<CompositedCue> = self.subtitle_compositor.take_cues();
        proof {
            assert(shown_of(rest@) =~= new);
        }
        while rest.len() > 0
            invariant
                shown_views(cues@) + shown_of(rest@) =~= waiting + new,
            decreases rest@.len(),
        {
            let ghost before = shown_views(cues@);
            let ghost left = shown_of(rest@);
            let cue: CompositedCue = rest.remove(0);
            let ghost view = shown_cue(cue.view());
            let regions: Vec<WasmSubtitleRegion> = show_regions(cue.regions);
            let shown = WasmSubtitleCue { start_pts: cue.start_pts, end_pts: cue.end_pts, regions };
            assert(shown.view() == view);
            cues.push(shown);
            proof {
                assert(left[0] == view);
                assert(shown_views(cues@) =~= before.push(view));
                assert(shown_of(rest@) =~= left.drop_first());
            }
        }
        assert(shown_views(cues@) =~= waiting + new);
        cues
    }
}

/// Composited cues as they are handed out.
pub open spec fn shown_of(cues: Seq<CompositedCue>) -> Seq<ShownCueView> {
    cues.map_values(|c: CompositedCue| shown_cue(c.view()))
}

/// The media segments that wait to be taken, oldest first.
pub open spec fn waiting_segments(bridge: BridgeView) -> Seq<Seq<u8>> {
    match bridge.segmenter {
        Some(segmenter) => bridge.ready_segments + segmenter.ready,
        None => bridge.ready_segments,
    }
}

impl Default for SkyfireBridge {
    fn default() -> (bridge: Self)
        ensures
            bridge.wf(),
            bridge.view() == new_bridge(),
            bridge.input() == Seq::<Option<Seq<u8>>>::empty(),
            bridge.pending() == Seq::<EventView>::empty(),
    {
        SkyfireBridge::new()
    }
}

} // verus!
