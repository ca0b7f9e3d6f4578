//! Incremental MPEG-TS demuxing.

use transmux::ir::DemuxEvent as WireEvent;
use transmux::ir::{CodecConfig, DataCarriage};
use vstd::prelude::*;
use crate::ts::avc::{AVCDecoderConfigurationRecord, RecordView};
use crate::ts::track::{Codec, StreamTrack, TrackView};

verus! {

/// MPEG-TS packet size in bytes (ISO/IEC 13818-1 §2.4.3.2).
pub const TS_PACKET_LEN: usize = 188;

#[verifier::external_type_specification]
#[verifier::external_body]
pub struct ExStreamingTsDemux(transmux::ts_demux::StreamingTsDemux);

#[verifier::external_type_specification]
#[verifier::external_body]
pub struct ExTransmuxSample(transmux::ir::Sample);

#[verifier::external_type_specification]
#[verifier::external_body]
pub struct ExTransmuxDiscontinuity(transmux::ir::DiscontinuityKind);

#[verifier::external_type_specification]
#[verifier::external_body]
pub struct ExTransmuxDegradation(transmux::ir::InputDegradation);

// ---------------------------------------------------------------------------
// Samples and events
// ---------------------------------------------------------------------------

/// A coded access unit.
pub struct MediaSample {
    /// The coded bytes; NAL units are length-prefixed.
    pub data: Vec<u8>,
    /// Decode timestamp, in ticks of the track's timescale.
    pub dts: Option<i64>,
    /// Presentation timestamp, in ticks of the track's timescale.
    pub pts: Option<i64>,
    /// Duration, in ticks of the track's timescale.
    pub duration: Option<u32>,
    /// Whether decoding can start here.
    pub is_sync: bool,
}

/// [`MediaSample`] as a mathematical value.
pub struct SampleView {
    pub data: Seq<u8>,
    pub dts: Option<i64>,
    pub pts: Option<i64>,
    pub duration: Option<u32>,
    pub is_sync: bool,
}

impl MediaSample {
    pub open spec fn view(&self) -> SampleView {
        SampleView {
            data: self.data@,
            dts: self.dts,
            pts: self.pts,
            duration: self.duration,
            is_sync: self.is_sync,
        }
    }
}

/// Why a discontinuity was raised.
#[derive(Debug, Clone, Copy, PartialEq, Eq, Structural)]
pub enum Discontinuity {
    /// The stream signalled the gap itself.
    Signalled,
    /// The audio timeline drifted from the wire clock and was re-anchored.
    TimelineReanchored,
    /// A buffer limit was exceeded and this many bytes were dropped.
    BudgetExceeded { bytes: u64 },
    /// A kind that this library does not know.
    Unknown,
}

/// What degraded the input signal.
#[derive(Debug, Clone, Copy, PartialEq, Eq, Structural)]
pub enum Degradation {
    /// A packet that the demodulator could not correct.
    TransportError,
    /// A gap in the continuity counter of a PID.
    ContinuityGap { expected: u8, got: u8 },
    /// A kind that this library does not know.
    Unknown,
}

/// What the demuxer reports.
pub enum DemuxEvent {
    /// A new track was discovered.
    TrackAdded(StreamTrack),
    /// The metadata of a track changed.
    TrackUpdated(StreamTrack),
    /// An access unit of a track is complete.
    Sample { track_id: u32, sample: MediaSample },
    /// A clock reference was observed, in ticks of `clock_hz`.
    ClockReference { ticks: u64, clock_hz: u32, discontinuous: bool },
    /// The stream is not contiguous here.
    Discontinuity(Discontinuity),
    /// The input degraded.
    InputDegraded(Degradation),
    /// A track is no longer declared.
    TrackRemoved { track_id: u32 },
    /// A declared track will never be announced.
    TrackAbandoned,
    /// Every declared track is announced.
    TracksResolved { generation: u32 },
    /// An event that this library does not know.
    Unknown,
}

/// [`DemuxEvent`] as a mathematical value.
pub enum EventView {
    TrackAdded(TrackView),
    TrackUpdated(TrackView),
    Sample { track_id: u32, sample: SampleView },
    ClockReference { ticks: u64, clock_hz: u32, discontinuous: bool },
    Discontinuity(Discontinuity),
    InputDegraded(Degradation),
    TrackRemoved { track_id: u32 },
    TrackAbandoned,
    TracksResolved { generation: u32 },
    Unknown,
}

impl DemuxEvent {
    pub open spec fn view(&self) -> EventView {
        match *self {
            DemuxEvent::TrackAdded(track) => EventView::TrackAdded(track.view()),
            DemuxEvent::TrackUpdated(track) => EventView::TrackUpdated(track.view()),
            DemuxEvent::Sample { track_id, sample } => EventView::Sample {
                track_id,
                sample: sample.view(),
            },
            DemuxEvent::ClockReference { ticks, clock_hz, discontinuous } => {
                EventView::ClockReference { ticks, clock_hz, discontinuous }
            },
            DemuxEvent::Discontinuity(kind) => EventView::Discontinuity(kind),
            DemuxEvent::InputDegraded(kind) => EventView::InputDegraded(kind),
            DemuxEvent::TrackRemoved { track_id } => EventView::TrackRemoved { track_id },
            DemuxEvent::TrackAbandoned => EventView::TrackAbandoned,
            DemuxEvent::TracksResolved { generation } => EventView::TracksResolved { generation },
            DemuxEvent::Unknown => EventView::Unknown,
        }
    }
}

// ---------------------------------------------------------------------------
// What the demuxer hands out
// ---------------------------------------------------------------------------

/// An event as the demuxer hands it out, its parts still to be read.
pub enum RawEvent {
    TrackAdded(transmux::ir::TrackSpec),
    TrackUpdated(transmux::ir::TrackSpec),
    Sample(u32, transmux::ir::Sample),
    ClockReference(u64, u32, bool),
    Discontinuity(transmux::ir::DiscontinuityKind),
    InputDegraded(transmux::ir::InputDegradation),
    TrackRemoved(u32),
    TrackAbandoned,
    TracksResolved(u32),
    Unknown,
}

/// What a demuxer has been given so far: chunks of bytes, and `None` for the
/// end of input.
pub uninterp spec fn demux_input(demux: transmux::ts_demux::StreamingTsDemux) -> Seq<
    Option<Seq<u8>>,
>;

/// The events that a demuxer holds ready, oldest first.
pub uninterp spec fn demux_queue(demux: transmux::ts_demux::StreamingTsDemux) -> Seq<RawEvent>;

/// The events that a chunk of bytes raises in a demuxer with this input.
pub uninterp spec fn raised_by_feed(input: Seq<Option<Seq<u8>>>, data: Seq<u8>) -> Seq<RawEvent>;

/// The events that the end of input raises in a demuxer with this input.
pub uninterp spec fn raised_by_finish(input: Seq<Option<Seq<u8>>>) -> Seq<RawEvent>;

/// `StreamingTsDemux::new`: a demuxer that has seen nothing and reports
/// nothing.
#[verifier::external_body]
fn demux_new() -> (demux: transmux::ts_demux::StreamingTsDemux)
    ensures
        demux_input(demux) == Seq::<Option<Seq<u8>>>::empty(),
        demux_queue(demux) == Seq::<RawEvent>::empty(),
{
    transmux::ts_demux::StreamingTsDemux::new()
}

/// `StreamingTsDemux::feed`: appends events to the queue. Which ones depends
/// on what was fed before and on the new bytes; [`raised_by_feed`] names them.
/// It takes any bytes: what they code is read with its bounds checked, and
/// parameter sets that cannot be used are passed over.
#[verifier::external_body]
fn demux_feed(demux: &mut transmux::ts_demux::StreamingTsDemux, data: &[u8])
    ensures
        demux_input(*final(demux)) == demux_input(*old(demux)).push(Some(data@)),
        demux_queue(*final(demux)) == demux_queue(*old(demux)) + raised_by_feed(
            demux_input(*old(demux)),
            data@,
        ),
{
    demux.feed(data);
}

/// `StreamingTsDemux::finish`: appends events to the queue. Which ones depends
/// on what was fed before; [`raised_by_finish`] names them.
#[verifier::external_body]
fn demux_finish(demux: &mut transmux::ts_demux::StreamingTsDemux)
    ensures
        demux_input(*final(demux)) == demux_input(*old(demux)).push(None),
        demux_queue(*final(demux)) == demux_queue(*old(demux)) + raised_by_finish(
            demux_input(*old(demux)),
        ),
{
    demux.finish();
}

/// `StreamingTsDemux::poll_event`: takes the oldest event from the queue.
#[verifier::external_body]
fn demux_poll(demux: &mut transmux::ts_demux::StreamingTsDemux) -> (event: Option<RawEvent>)
    ensures
        demux_input(*final(demux)) == demux_input(*old(demux)),
        match event {
            Some(e) => demux_queue(*old(demux)).len() > 0 && e == demux_queue(*old(demux))[0]
                && demux_queue(*final(demux)) == demux_queue(*old(demux)).drop_first(),
            None => demux_queue(*old(demux)).len() == 0 && demux_queue(*final(demux))
                == demux_queue(*old(demux)),
        },
{
    Some(match demux.poll_event()? {
        WireEvent::TrackAdded(track) => RawEvent::TrackAdded(track),
        WireEvent::TrackUpdated(track) => RawEvent::TrackUpdated(track),
        WireEvent::Sample { track_id, sample, .. } => RawEvent::Sample(track_id, sample),
        WireEvent::ClockReference { ticks, clock_hz, discontinuous, .. } => RawEvent::ClockReference(ticks, clock_hz, discontinuous),
        WireEvent::Discontinuity { kind, .. } => RawEvent::Discontinuity(kind),
        WireEvent::InputDegraded { kind, .. } => RawEvent::InputDegraded(kind),
        WireEvent::TrackRemoved { track_id, .. } => RawEvent::TrackRemoved(track_id),
        WireEvent::TrackAbandoned { .. } => RawEvent::TrackAbandoned,
        WireEvent::TracksResolved { generation, .. } => RawEvent::TracksResolved(generation),
        _ => RawEvent::Unknown,
    })
}

/// What a `transmux::ir::Sample` holds.
pub uninterp spec fn sample_held(sample: transmux::ir::Sample) -> SampleView;

/// Reads the fields of a `transmux::ir::Sample`.
#[verifier::external_body]
fn read_sample(sample: transmux::ir::Sample) -> (fields: MediaSample)
    ensures
        fields.view() == sample_held(sample),
{
    MediaSample {
        data: sample.data.to_vec(),
        dts: sample.dts,
        pts: sample.pts,
        duration: sample.duration,
        is_sync: sample.flags.is_sync,
    }
}

/// What a `transmux::ir::DiscontinuityKind` holds.
pub uninterp spec fn discontinuity_held(kind: transmux::ir::DiscontinuityKind) -> Discontinuity;

/// Tells the variants of `transmux::ir::DiscontinuityKind` apart.
#[verifier::external_body]
fn read_discontinuity(kind: transmux::ir::DiscontinuityKind) -> (read: Discontinuity)
    ensures
        read == discontinuity_held(kind),
{
    match kind {
        transmux::ir::DiscontinuityKind::Signalled => Discontinuity::Signalled,
        transmux::ir::DiscontinuityKind::TimelineReanchored => Discontinuity::TimelineReanchored,
        transmux::ir::DiscontinuityKind::BudgetExceeded { bytes } => Discontinuity::BudgetExceeded { bytes },
        _ => Discontinuity::Unknown,
    }
}

/// What a `transmux::ir::InputDegradation` holds.
pub uninterp spec fn degradation_held(kind: transmux::ir::InputDegradation) -> Degradation;

/// Tells the variants of `transmux::ir::InputDegradation` apart.
#[verifier::external_body]
fn read_degradation(kind: transmux::ir::InputDegradation) -> (read: Degradation)
    ensures
        read == degradation_held(kind),
{
    match kind {
        transmux::ir::InputDegradation::TransportError => Degradation::TransportError,
        transmux::ir::InputDegradation::ContinuityGap { expected, got } => Degradation::ContinuityGap { expected, got },
        _ => Degradation::Unknown,
    }
}

/// The identity of a track, without its codec.
pub struct TrackIdentity {
    pub track_id: u32,
    pub timescale: u32,
    pub source_pid: Option<u16>,
    pub es_info_descriptors: Vec<u8>,
}

/// [`TrackIdentity`] as a mathematical value.
pub struct IdentityView {
    pub track_id: u32,
    pub timescale: u32,
    pub source_pid: Option<u16>,
    pub es_info_descriptors: Seq<u8>,
}

impl TrackIdentity {
    pub open spec fn view(&self) -> IdentityView {
        IdentityView {
            track_id: self.track_id,
            timescale: self.timescale,
            source_pid: self.source_pid,
            es_info_descriptors: self.es_info_descriptors@,
        }
    }
}

/// The identity that a `transmux::ir::TrackSpec` holds.
pub uninterp spec fn identity_held(track: transmux::ir::TrackSpec) -> IdentityView;

/// Reads the identity fields of a `transmux::ir::TrackSpec`.
#[verifier::external_body]
pub(crate) fn read_identity(track: &transmux::ir::TrackSpec) -> (identity: TrackIdentity)
    ensures
        identity.view() == identity_held(*track),
{
    TrackIdentity {
        track_id: track.track_id,
        timescale: track.timescale,
        source_pid: track.source_pid,
        es_info_descriptors: track.es_info_descriptors.clone(),
    }
}

/// The codec of a `transmux::ir::TrackSpec`.
pub uninterp spec fn codec_held(track: transmux::ir::TrackSpec) -> Codec;

/// Tells the variants of the `CodecConfig` of a `transmux::ir::TrackSpec`
/// apart and reads the picture size.
#[verifier::external_body]
fn read_codec(track: &transmux::ir::TrackSpec) -> (codec: Codec)
    ensures
        codec == codec_held(*track),
{
    match &track.config {
        CodecConfig::Avc { width, height, .. } => Codec::Avc { width: *width, height: *height },
        CodecConfig::Hevc { width, height, .. } => Codec::Hevc { width: *width, height: *height },
        CodecConfig::Ac3 { .. } => Codec::Ac3,
        CodecConfig::Eac3 { .. } => Codec::Eac3,
        CodecConfig::MpegAudio { .. } => Codec::MpegAudio,
        CodecConfig::Data { carriage: DataCarriage::Sections, .. } => Codec::Data { sections: true },
        CodecConfig::Data { .. } => Codec::Data { sections: false },
        _ => Codec::Other,
    }
}

/// The H.264 decoder configuration that a `transmux::ir::TrackSpec` holds.
pub uninterp spec fn record_held(track: transmux::ir::TrackSpec) -> Option<RecordView>;

/// Reads the decoder configuration record of an H.264
/// `transmux::ir::TrackSpec`.
#[verifier::external_body]
fn read_record(track: &transmux::ir::TrackSpec) -> (record: Option<AVCDecoderConfigurationRecord>)
    ensures
        match record {
            Some(r) => record_held(*track) == Some(r.view()),
            None => record_held(*track) is None,
        },
{
    let CodecConfig::Avc { config, .. } = &track.config else { return None };
    let wire = &config.config;
    Some(AVCDecoderConfigurationRecord {
        configuration_version: wire.configuration_version, profile_indication: wire.profile_indication,
        profile_compatibility: wire.profile_compatibility, level_indication: wire.level_indication,
        length_size_minus_one: wire.length_size_minus_one,
        sps: wire.sps.iter().map(|s| s.0.clone()).collect(),
        pps: wire.pps.iter().map(|s| s.0.clone()).collect(),
        chroma_format: wire.chroma_format, bit_depth_luma_minus8: wire.bit_depth_luma_minus8,
        bit_depth_chroma_minus8: wire.bit_depth_chroma_minus8,
        sps_ext: wire.sps_ext.iter().map(|s| s.0.clone()).collect(),
    })
}

// ---------------------------------------------------------------------------
// TsDemux
// ---------------------------------------------------------------------------

/// A track as it is handed out.
pub open spec fn track_of(track: transmux::ir::TrackSpec) -> TrackView {
    TrackView {
        track_id: identity_held(track).track_id,
        timescale: identity_held(track).timescale,
        source_pid: identity_held(track).source_pid,
        es_info_descriptors: identity_held(track).es_info_descriptors,
        codec: codec_held(track),
        avc_record: record_held(track),
        source: track,
    }
}

/// An event as it is handed out.
pub open spec fn event_of(raw: RawEvent) -> EventView {
    match raw {
        RawEvent::TrackAdded(track) => EventView::TrackAdded(track_of(track)),
        RawEvent::TrackUpdated(track) => EventView::TrackUpdated(track_of(track)),
        RawEvent::Sample(track_id, sample) => EventView::Sample {
            track_id,
            sample: sample_held(sample),
        },
        RawEvent::ClockReference(ticks, clock_hz, discontinuous) => EventView::ClockReference {
            ticks,
            clock_hz,
            discontinuous,
        },
        RawEvent::Discontinuity(kind) => EventView::Discontinuity(discontinuity_held(kind)),
        RawEvent::InputDegraded(kind) => EventView::InputDegraded(degradation_held(kind)),
        RawEvent::TrackRemoved(track_id) => EventView::TrackRemoved { track_id },
        RawEvent::TrackAbandoned => EventView::TrackAbandoned,
        RawEvent::TracksResolved(generation) => EventView::TracksResolved { generation },
        RawEvent::Unknown => EventView::Unknown,
    }
}

/// A list of events as it is handed out.
pub open spec fn events_of(raw: Seq<RawEvent>) -> Seq<EventView> {
    raw.map_values(|e: RawEvent| event_of(e))
}

/// The events that a chunk of bytes raises after this input.
pub open spec fn events_on_feed(input: Seq<Option<Seq<u8>>>, data: Seq<u8>) -> Seq<EventView> {
    events_of(raised_by_feed(input, data))
}

/// The events that the end of input raises after this input.
pub open spec fn events_on_finish(input: Seq<Option<Seq<u8>>>) -> Seq<EventView> {
    events_of(raised_by_finish(input))
}

fn assemble_track(source: transmux::ir::TrackSpec) -> (track: StreamTrack)
    ensures
        track.view() == track_of(source),
{
    let identity: TrackIdentity = read_identity(&source);
    let codec: Codec = read_codec(&source);
    let avc_record: Option<AVCDecoderConfigurationRecord> = read_record(&source);
    StreamTrack {
        track_id: identity.track_id,
        timescale: identity.timescale,
        source_pid: identity.source_pid,
        es_info_descriptors: identity.es_info_descriptors,
        codec,
        avc_record,
        source,
    }
}

/// Incremental MPEG-TS demuxer.
///
/// Callers feed raw bytes in any chunk size, poll events, and call `finish()`
/// at end of input.
pub struct TsDemux {
    pub inner: transmux::ts_demux::StreamingTsDemux,
}

impl TsDemux {
    /// What the demuxer has been given so far.
    pub open spec fn input(self) -> Seq<Option<Seq<u8>>> {
        demux_input(self.inner)
    }

    /// The events that wait to be polled, oldest first.
    pub open spec fn pending(self) -> Seq<EventView> {
        events_of(demux_queue(self.inner))
    }

    /// Create a new, empty demuxer.
    pub fn new() -> (demux: Self)
        ensures
            demux.input() == Seq::<Option<Seq<u8>>>::empty(),
            demux.pending() == Seq::<EventView>::empty(),
    {
        let demux = TsDemux { inner: demux_new() };
        assert(demux.pending() =~= Seq::empty());
        demux
    }

    /// Feed raw TS bytes (any chunk size, any alignment).
    pub fn feed(&mut self, data: &[u8])
        ensures
            final(self).input() == old(self).input().push(Some(data@)),
            final(self).pending() == old(self).pending() + events_on_feed(old(self).input(), data@),
    {
        demux_feed(&mut self.inner, data);
        assert(self.pending() =~= old(self).pending() + events_on_feed(old(self).input(), data@));
    }

    /// Poll the next available [`DemuxEvent`], or `None` when the event queue
    /// is empty.
    pub fn poll_event(&mut self) -> (event: Option<DemuxEvent>)
        ensures
            final(self).input() == old(self).input(),
            match event {
                Some(e) => {
                    &&& old(self).pending().len() > 0
                    &&& e.view() == old(self).pending()[0]
                    &&& final(self).pending() == old(self).pending().drop_first()
                },
                None => {
                    &&& old(self).pending().len() == 0
                    &&& final(self).pending() == old(self).pending()
                },
            },
    {
        let raw: RawEvent = match demux_poll(&mut self.inner) {
            Some(raw) => raw,
            None => {
                return None;
            },
        };
        assert(self.pending() =~= old(self).pending().drop_first());
        Some(
            match raw {
                RawEvent::TrackAdded(track) => DemuxEvent::TrackAdded(assemble_track(track)),
                RawEvent::TrackUpdated(track) => DemuxEvent::TrackUpdated(assemble_track(track)),
                RawEvent::Sample(track_id, sample) => DemuxEvent::Sample {
                    track_id,
                    sample: read_sample(sample),
                },
                RawEvent::ClockReference(ticks, clock_hz, discontinuous) => {
                    DemuxEvent::ClockReference { ticks, clock_hz, discontinuous }
                },
                RawEvent::Discontinuity(kind) => DemuxEvent::Discontinuity(read_discontinuity(kind)),
                RawEvent::InputDegraded(kind) => DemuxEvent::InputDegraded(read_degradation(kind)),
                RawEvent::TrackRemoved(track_id) => DemuxEvent::TrackRemoved { track_id },
                RawEvent::TrackAbandoned => DemuxEvent::TrackAbandoned,
                RawEvent::TracksResolved(generation) => DemuxEvent::TracksResolved { generation },
                RawEvent::Unknown => DemuxEvent::Unknown,
            },
        )
    }

    /// Flush trailing partial access units.  Must be called exactly once, at
    /// end of input.
    pub fn finish(&mut self)
        ensures
            final(self).input() == old(self).input().push(None),
            final(self).pending() == old(self).pending() + events_on_finish(old(self).input()),
    {
        demux_finish(&mut self.inner);
        assert(self.pending() =~= old(self).pending() + events_on_finish(old(self).input()));
    }
}

impl Default for TsDemux {
    fn default() -> (demux: Self)
        ensures
            demux.input() == Seq::<Option<Seq<u8>>>::empty(),
            demux.pending() == Seq::<EventView>::empty(),
    {
        TsDemux::new()
    }
}

} // verus!
