//! The batch engine: transport stream bytes in, PCM, video access units and a
//! decoder configuration out.

use vstd::prelude::*;
use crate::ac3::decoder::{
    audio_of, decode_outcome, AuOutcome, AudioView, DecodedAudio, IncrementalDecoder,
};
use crate::sync::audio_clock::{AudioClock, DEFAULT_DISCONTINUITY_THRESHOLD};
use crate::sync::frame_queue::VideoFrameQueue;
use crate::ts::avc::{
    avc1_string, avcc_bytes, has_wire_form, rfc6381_avc1, serialize_record,
    AVCDecoderConfigurationRecord, RecordView,
};
use crate::ts::codec::TrackKind;
use crate::ts::demux::{
    events_on_feed, events_on_finish, DemuxEvent, EventView, MediaSample, SampleView, TsDemux,
};
use crate::ts::ticks::{checked_ticks_90k, ticks_90k};
use crate::ts::track::{meta_of, track_meta, StreamTrack, TrackMeta, TrackView};

verus! {

/// Engine build identifier (crate version).
#[must_use]
pub fn version() -> (text: &'static str)
    ensures
        text@ == "0.1.0"@,
{
    "0.1.0"
}

/// One H.264 video access unit with PTS and keyframe flag.
///
/// `data` contains length-prefixed NAL data.
#[derive(Debug, Clone)]
pub struct VideoUnit {
    /// Presentation timestamp in 90 kHz ticks; zero where the stream gave none.
    pub pts: u64,
    /// Whether the stream gave a presentation timestamp.
    pub timed: bool,
    /// Whether this access unit is a sync/keyframe (IDR).
    pub is_sync: bool,
    /// Length-prefixed NAL data bytes.
    pub data: Vec<u8>,
}

/// [`VideoUnit`] as a mathematical value.
pub struct UnitView {
    pub pts: u64,
    pub timed: bool,
    pub is_sync: bool,
    pub data: Seq<u8>,
}

impl VideoUnit {
    pub open spec fn view(&self) -> UnitView {
        UnitView { pts: self.pts, timed: self.timed, is_sync: self.is_sync, data: self.data@ }
    }
}

/// `WebCodecs` `VideoDecoder` configuration: RFC 6381 codec string and raw
/// avcC record bytes (the record without the box header).
#[derive(Debug, Clone)]
pub struct VideoConfig {
    /// RFC 6381 codec string (e.g. `"avc1.640028"`).
    pub codec: String,
    /// Raw avcC decoder configuration record bytes.
    pub description: Vec<u8>,
}

/// Metadata of one announced track.
#[derive(Debug, Clone, Copy)]
pub struct TrackInfo {
    /// The number of the track.
    pub track_id: u32,
    /// Source PID from the PMT.
    pub pid: Option<u16>,
    /// Track kind (video / audio / subtitle / other).
    pub kind: TrackKind,
    /// ISO 639-2 language, if present.
    pub language: Option<[u8; 3]>,
}

// ---------------------------------------------------------------------------
// The engine as a mathematical value
// ---------------------------------------------------------------------------

/// [`Engine`] as a mathematical value.
#[verifier::ext_equal]
pub struct EngineView {
    pub tracks: Seq<TrackInfo>,
    /// The first video track and the timescale of its samples.
    pub video_track: Option<(u32, u32)>,
    /// The first audio track and the timescale of its samples.
    pub audio_track: Option<(u32, u32)>,
    pub video_record: Option<RecordView>,
    /// Coded audio, waiting to be decoded.
    pub audio_es: Seq<u8>,
    pub pcm: Seq<u8>,
    pub sample_rate: u32,
    pub channels: u16,
    pub audio_decoded: bool,
    pub video_units: Seq<UnitView>,
    pub clock: AudioClock,
    pub queue: VideoFrameQueue,
    pub first_audio_pts: Option<u64>,
}

/// Whether an engine is new: nothing collected, the clock at zero, and an
/// empty queue for 32 frames.
pub open spec fn new_engine(engine: EngineView) -> bool {
    &&& engine.tracks.len() == 0
    &&& engine.video_track is None
    &&& engine.audio_track is None
    &&& engine.video_record is None
    &&& engine.audio_es.len() == 0
    &&& engine.pcm.len() == 0
    &&& engine.sample_rate == 0
    &&& engine.channels == 0
    &&& !engine.audio_decoded
    &&& engine.video_units.len() == 0
    &&& engine.first_audio_pts is None
    &&& engine.clock == played_clock(0, 48_000, 0)
    &&& engine.queue.wf()
    &&& engine.queue.frames().len() == 0
    &&& engine.queue.capacity == 32
    &&& engine.queue.tol_us == 20_000
    &&& engine.queue.drop_late_us == 100_000
}

/// The information on a track.
pub open spec fn info_of(track: TrackView) -> TrackInfo {
    TrackInfo {
        track_id: track.track_id,
        pid: meta_of(track).pid,
        kind: meta_of(track).kind,
        language: meta_of(track).language,
    }
}

/// The first entry, from `from` on, for a track.
pub open spec fn entry_of(tracks: Seq<TrackInfo>, track_id: u32, from: int) -> Option<int>
    decreases tracks.len() - from,
{
    if from < 0 || from >= tracks.len() {
        None
    } else if tracks[from].track_id == track_id {
        Some(from)
    } else {
        entry_of(tracks, track_id, from + 1)
    }
}

/// Whether `selected` is the track with this number.
pub open spec fn is_track(selected: Option<(u32, u32)>, track_id: u32) -> bool {
    match selected {
        Some((id, _)) => id == track_id,
        None => false,
    }
}

/// The engine after a track was announced: the first video and the first audio
/// track are the ones that it plays.
pub open spec fn with_added(engine: EngineView, track: TrackView) -> EngineView {
    let kind = meta_of(track).kind;
    let takes_video = kind is Video && engine.video_track is None;
    EngineView {
        tracks: engine.tracks.push(info_of(track)),
        video_track: if takes_video {
            Some((track.track_id, track.timescale))
        } else {
            engine.video_track
        },
        video_record: if takes_video {
            track.avc_record
        } else {
            engine.video_record
        },
        audio_track: if kind is Audio && engine.audio_track is None {
            Some((track.track_id, track.timescale))
        } else {
            engine.audio_track
        },
        ..engine
    }
}

/// A played track whose metadata may have changed.
pub open spec fn refreshed(selected: Option<(u32, u32)>, track: TrackView) -> Option<(u32, u32)> {
    if is_track(selected, track.track_id) {
        Some((track.track_id, track.timescale))
    } else {
        selected
    }
}

/// The engine after the metadata of a track changed.
pub open spec fn with_updated(engine: EngineView, track: TrackView) -> EngineView {
    EngineView {
        tracks: match entry_of(engine.tracks, track.track_id, 0) {
            Some(i) => engine.tracks.update(i, info_of(track)),
            None => engine.tracks,
        },
        video_track: refreshed(engine.video_track, track),
        audio_track: refreshed(engine.audio_track, track),
        video_record: if is_track(engine.video_track, track.track_id) {
            track.avc_record
        } else {
            engine.video_record
        },
        ..engine
    }
}

/// The video unit of a sample of a track with this timescale.
pub open spec fn unit_of(sample: SampleView, timescale: u32) -> UnitView {
    UnitView {
        pts: match ticks_90k(sample.pts, timescale) {
            Some(pts) => pts,
            None => 0,
        },
        timed: ticks_90k(sample.pts, timescale) is Some,
        is_sync: sample.is_sync,
        data: sample.data,
    }
}

/// The engine after a sample: those of the video track are collected as units,
/// the bytes of those of the audio track are kept for decoding.
pub open spec fn with_sample(engine: EngineView, track_id: u32, sample: SampleView) -> EngineView {
    if is_track(engine.video_track, track_id) {
        EngineView {
            video_units: engine.video_units.push(unit_of(sample, (engine.video_track->0).1)),
            ..engine
        }
    } else if is_track(engine.audio_track, track_id) {
        EngineView {
            audio_es: engine.audio_es + sample.data,
            first_audio_pts: if engine.first_audio_pts is None {
                ticks_90k(sample.pts, (engine.audio_track->0).1)
            } else {
                engine.first_audio_pts
            },
            ..engine
        }
    } else {
        engine
    }
}

/// The engine after an event.
pub open spec fn engine_step(engine: EngineView, event: EventView) -> EngineView {
    match event {
        EventView::TrackAdded(track) => with_added(engine, track),
        EventView::TrackUpdated(track) => with_updated(engine, track),
        EventView::Sample { track_id, sample } => with_sample(engine, track_id, sample),
        _ => engine,
    }
}

/// The engine after several events, in order.
pub open spec fn engine_run(engine: EngineView, events: Seq<EventView>) -> EngineView
    decreases events.len(),
{
    if events.len() == 0 {
        engine
    } else {
        engine_run(engine_step(engine, events[0]), events.drop_first())
    }
}

/// A clock anchored at `pts` that has played `frames` PCM frames.
pub open spec fn played_clock(pts: u64, rate: u32, frames: u64) -> AudioClock {
    AudioClock {
        anchor_pts_raw: pts,
        sample_rate: rate,
        samples_played: frames,
        offset_us: 0,
        discontinuity_threshold: DEFAULT_DISCONTINUITY_THRESHOLD,
        last_pts_raw: pts,
        underrun: false,
    }
}

/// The audio that a fresh decoder makes of coded bytes, if any.
pub open spec fn decoded_audio(es: Seq<u8>) -> Option<AudioView> {
    match decode_outcome(es, Seq::empty()) {
        AuOutcome::Done(collected, _) => audio_of(collected),
        AuOutcome::Failed(..) => None,
    }
}

/// The engine after the collected audio was decoded.
///
/// Decoding happens once. Audio without a rate or without channels is not
/// taken. Where the first audio PTS is known, the clock is anchored there and
/// advanced by what was decoded.
pub open spec fn with_decoded_audio(engine: EngineView) -> EngineView {
    if engine.audio_decoded || engine.audio_es.len() == 0 {
        engine
    } else {
        match decoded_audio(engine.audio_es) {
            None => EngineView { audio_decoded: true, ..engine },
            Some(audio) => if audio.sample_rate == 0 || audio.channels == 0 {
                engine
            } else {
                EngineView {
                    sample_rate: audio.sample_rate,
                    channels: audio.channels,
                    pcm: audio.pcm_s16le,
                    clock: match engine.first_audio_pts {
                        Some(pts) => played_clock(
                            pts,
                            audio.sample_rate,
                            (audio.pcm_s16le.len() as int / (audio.channels as int * 2)) as u64,
                        ),
                        None => engine.clock,
                    },
                    audio_decoded: true,
                    ..engine
                }
            },
        }
    }
}

// ---------------------------------------------------------------------------
// The engine
// ---------------------------------------------------------------------------

/// Top-level engine: consumes raw transport stream bytes, produces decoded
/// audio PCM, H.264 video access units with PTS, and a `WebCodecs` video
/// configuration.
///
/// Feed bytes, then call [`finish`](Self::finish) and
/// [`finalize`](Self::finalize).
pub struct Engine {
    demux: TsDemux,
    tracks: Vec<TrackInfo>,
    video_track: Option<(u32, u32)>,
    audio_track: Option<(u32, u32)>,
    video_record: Option<AVCDecoderConfigurationRecord>,
    audio_es_buf: Vec<u8>,
    pcm_output: Vec<u8>,
    audio_sample_rate: u32,
    audio_channels: u16,
    audio_decoded: bool,
    video_units: Vec<VideoUnit>,
    clock: AudioClock,
    queue: VideoFrameQueue,
    first_audio_pts: Option<u64>,
}

/// Video units as mathematical values.
pub open spec fn unit_views(units: Seq<VideoUnit>) -> Seq<UnitView> {
    units.map_values(|u: VideoUnit| u.view())
}

impl Engine {
    pub closed spec fn view(&self) -> EngineView {
        EngineView {
            tracks: self.tracks@,
            video_track: self.video_track,
            audio_track: self.audio_track,
            video_record: match self.video_record {
                Some(record) => Some(record.view()),
                None => None,
            },
            audio_es: self.audio_es_buf@,
            pcm: self.pcm_output@,
            sample_rate: self.audio_sample_rate,
            channels: self.audio_channels,
            audio_decoded: self.audio_decoded,
            video_units: unit_views(self.video_units@),
            clock: self.clock,
            queue: self.queue,
            first_audio_pts: self.first_audio_pts,
        }
    }

    /// What the engine's demuxer has been given so far.
    pub closed spec fn input(&self) -> Seq<Option<Seq<u8>>> {
        self.demux.input()
    }

    /// Events that the demuxer still holds. None are left between calls.
    pub closed spec fn pending(&self) -> Seq<EventView> {
        self.demux.pending()
    }

    /// Create a new engine.
    #[must_use]
    pub fn new() -> (engine: Self)
        ensures
            engine.input() == Seq::<Option<Seq<u8>>>::empty(),
            engine.pending() == Seq::<EventView>::empty(),
            new_engine(engine.view()),
    {
        Engine {
            demux: TsDemux::new(),
            tracks: Vec::new(),
            video_track: None,
            audio_track: None,
            video_record: None,
            audio_es_buf: Vec::new(),
            pcm_output: Vec::new(),
            audio_sample_rate: 0,
            audio_channels: 0,
            audio_decoded: false,
            video_units: Vec::new(),
            clock: AudioClock::default(),
            queue: VideoFrameQueue::new(32, 20_000, 100_000),
            first_audio_pts: None,
        }
    }

    /// Feed raw transport stream bytes into the engine.
    ///
    /// Audio bytes are accumulated, video access units are collected.
    pub fn feed(&mut self, data: &[u8])
        ensures
            final(self).view() == engine_run(
                old(self).view(),
                old(self).pending() + events_on_feed(old(self).input(), data@),
            ),
            final(self).input() == old(self).input().push(Some(data@)),
            final(self).pending() == Seq::<EventView>::empty(),
    {
        self.demux.feed(data);
        self.drain_events();
    }

    /// Flush any trailing partial access units still in the demuxer.
    ///
    /// Call once at end of input, then [`finalize`](Self::finalize).
    pub fn finish(&mut self)
        ensures
            final(self).view() == engine_run(
                old(self).view(),
                old(self).pending() + events_on_finish(old(self).input()),
            ),
            final(self).input() == old(self).input().push(None),
            final(self).pending() == Seq::<EventView>::empty(),
    {
        self.demux.finish();
        self.drain_events();
    }

    /// Decode the accumulated audio to PCM and set the clock.
    pub fn finalize(&mut self)
        ensures
            final(self).view() == with_decoded_audio(old(self).view()),
            final(self).input() == old(self).input(),
            final(self).pending() == old(self).pending(),
    {
        self.decode_audio();
    }

    /// Decoded audio PCM (interleaved S16LE bytes); empty if no audio was
    /// decoded.
    #[must_use]
    pub fn audio_pcm(&self) -> (pcm: &[u8])
        ensures
            pcm@ == self.view().pcm,
    {
        self.pcm_output.as_slice()
    }

    /// Audio sample rate in Hz (e.g. `48_000`), or 0 if no audio decoded yet.
    #[must_use]
    pub fn audio_sample_rate(&self) -> (rate: u32)
        ensures
            rate == self.view().sample_rate,
    {
        self.audio_sample_rate
    }

    /// Number of audio channels, or 0 if no audio decoded yet.
    #[must_use]
    pub fn audio_channels(&self) -> (channels: u16)
        ensures
            channels == self.view().channels,
    {
        self.audio_channels
    }

    /// Collected H.264 video access units with PTS.
    #[must_use]
    pub fn video_units(&self) -> (units: &[VideoUnit])
        ensures
            unit_views(units@) == self.view().video_units,
    {
        self.video_units.as_slice()
    }

    /// Build the `WebCodecs` `VideoDecoder` configuration (codec string and
    /// avcC) of the video track. `None` without an H.264 video track, and where
    /// its record has no wire form.
    #[must_use]
    pub fn video_config(&self) -> (config: Option<VideoConfig>)
        ensures
            match config {
                Some(c) => self.view().video_record matches Some(record) && has_wire_form(record)
                    && c.codec@ == avc1_string(
                    record.profile_indication,
                    record.profile_compatibility,
                    record.level_indication,
                ) && c.description@ == avcc_bytes(record),
                None => self.view().video_record matches Some(record) ==> !has_wire_form(record),
            },
    {
        match &self.video_record {
            Some(record) => {
                let codec: String = rfc6381_avc1(
                    record.profile_indication,
                    record.profile_compatibility,
                    record.level_indication,
                );
                match serialize_record(record) {
                    Some(description) => Some(VideoConfig { codec, description }),
                    None => None,
                }
            },
            None => None,
        }
    }

    /// The announced tracks.
    #[must_use]
    pub fn tracks(&self) -> (tracks: &[TrackInfo])
        ensures
            tracks@ == self.view().tracks,
    {
        self.tracks.as_slice()
    }

    /// The audio-master media clock.
    #[must_use]
    pub fn clock(&self) -> (clock: &AudioClock)
        ensures
            *clock == self.view().clock,
    {
        &self.clock
    }

    /// Mutable reference to the audio-master media clock.
    #[must_use]
    pub fn clock_mut(&mut self) -> (clock: &mut AudioClock)
        ensures
            *clock == old(self).view().clock,
            final(self).view() == (EngineView { clock: *final(clock), ..old(self).view() }),
            final(self).input() == old(self).input(),
            final(self).pending() == old(self).pending(),
    {
        &mut self.clock
    }

    /// The PTS-ordered video-frame present queue.
    #[must_use]
    pub fn queue(&self) -> (queue: &VideoFrameQueue)
        ensures
            *queue == self.view().queue,
    {
        &self.queue
    }

    /// Mutable reference to the video present queue.
    #[must_use]
    pub fn queue_mut(&mut self) -> (queue: &mut VideoFrameQueue)
        ensures
            *queue == old(self).view().queue,
            final(self).view() == (EngineView { queue: *final(queue), ..old(self).view() }),
            final(self).input() == old(self).input(),
            final(self).pending() == old(self).pending(),
    {
        &mut self.queue
    }

    /// Whether the engine has produced audio PCM.
    #[must_use]
    pub fn has_audio(&self) -> (has: bool)
        ensures
            has == (self.view().pcm.len() > 0),
    {
        self.pcm_output.len() > 0
    }

    /// Whether the engine has collected video access units.
    #[must_use]
    pub fn has_video(&self) -> (has: bool)
        ensures
            has == (self.view().video_units.len() > 0),
    {
        self.video_units.len() > 0
    }

    fn on_added(&mut self, track: StreamTrack)
        ensures
            final(self).view() == with_added(old(self).view(), track.view()),
            final(self).demux == old(self).demux,
    {
        let meta: TrackMeta = track_meta(&track);
        self.tracks.push(
            TrackInfo {
                track_id: track.track_id,
                pid: meta.pid,
                kind: meta.kind,
                language: meta.language,
            },
        );
        match meta.kind {
            TrackKind::Video(_) => {
                if self.video_track.is_none() {
                    self.video_track = Some((track.track_id, track.timescale));
                    self.video_record = track.avc_record;
                }
            },
            TrackKind::Audio(_) => {
                if self.audio_track.is_none() {
                    self.audio_track = Some((track.track_id, track.timescale));
                }
            },
            _ => {},
        }
    }

    fn on_updated(&mut self, track: StreamTrack)
        ensures
            final(self).view() == with_updated(old(self).view(), track.view()),
            final(self).demux == old(self).demux,
    {
        let meta: TrackMeta = track_meta(&track);
        let mut i: usize = 0;
        while i < self.tracks.len() && self.tracks[i].track_id != track.track_id
            invariant
                i <= self.tracks@.len(),
                entry_of(self.tracks@, track.track_id, 0) == entry_of(
                    self.tracks@,
                    track.track_id,
                    i as int,
                ),
                *self == *old(self),
            decreases self.tracks@.len() - i,
        {
            i = i + 1;
        }
        if i < self.tracks.len() {
            self.tracks.set(
                i,
                TrackInfo {
                    track_id: track.track_id,
                    pid: meta.pid,
                    kind: meta.kind,
                    language: meta.language,
                },
            );
        }
        if let Some((audio, _)) = self.audio_track {
            if audio == track.track_id {
                self.audio_track = Some((audio, track.timescale));
            }
        }
        if let Some((video, _)) = self.video_track {
            if video == track.track_id {
                self.video_track = Some((video, track.timescale));
                self.video_record = track.avc_record;
            }
        }
    }

    fn on_sample(&mut self, track_id: u32, sample: MediaSample)
        ensures
            final(self).view() == with_sample(old(self).view(), track_id, sample.view()),
            final(self).demux == old(self).demux,
    {
        let mut sample: MediaSample = sample;
        if let Some((video, timescale)) = self.video_track {
            if video == track_id {
                let pts: Option<u64> = checked_ticks_90k(sample.pts, timescale);
                let unit = VideoUnit {
                    pts: match pts {
                        Some(pts) => pts,
                        None => 0,
                    },
                    timed: pts.is_some(),
                    is_sync: sample.is_sync,
                    data: sample.data,
                };
                self.video_units.push(unit);
                assert(unit_views(self.video_units@) =~= unit_views(old(self).video_units@).push(
                    unit.view(),
                ));
                return;
            }
        }
        if let Some((audio, timescale)) = self.audio_track {
            if audio == track_id {
                if self.first_audio_pts.is_none() {
                    self.first_audio_pts = checked_ticks_90k(sample.pts, timescale);
                }
                self.audio_es_buf.append(&mut sample.data);
            }
        }
    }

    /// Take one event of the stream, as [`feed`](Self::feed) does with each
    /// event that the bytes raise.
    pub fn on_event(&mut self, event: DemuxEvent)
        ensures
            final(self).view() == engine_step(old(self).view(), event.view()),
            final(self).input() == old(self).input(),
            final(self).pending() == old(self).pending(),
    {
        match event {
            DemuxEvent::TrackAdded(track) => {
                self.on_added(track);
            },
            DemuxEvent::TrackUpdated(track) => {
                self.on_updated(track);
            },
            DemuxEvent::Sample { track_id, sample } => {
                self.on_sample(track_id, sample);
            },
            _ => {},
        }
    }

    fn drain_events(&mut self)
        ensures
            final(self).view() == engine_run(old(self).view(), old(self).pending()),
            final(self).pending() == Seq::<EventView>::empty(),
            final(self).input() == old(self).input(),
    {
        let ghost end = engine_run(self.view(), self.pending());
        loop
            invariant_except_break
                engine_run(self.view(), self.pending()) == end,
            invariant
                self.input() == old(self).input(),
                end == engine_run(old(self).view(), old(self).pending()),
            ensures
                self.view() == end,
                self.pending() == Seq::<EventView>::empty(),
            decreases self.pending().len(),
        {
            let ghost before = self.view();
            let polled: Option<DemuxEvent> = self.demux.poll_event();
            assert(self.view() == before);
            match polled {
                Some(event) => {
                    self.on_event(event);
                },
                None => {
                    assert(self.pending() =~= Seq::empty());
                    break ;
                },
            }
        }
    }

    fn decode_audio(&mut self)
        ensures
            final(self).view() == with_decoded_audio(old(self).view()),
            final(self).demux == old(self).demux,
    {
        if self.audio_decoded || self.audio_es_buf.len() == 0 {
            return;
        }
        let mut dec: IncrementalDecoder = match IncrementalDecoder::new() {
            Ok(dec) => dec,
            Err(_) => {
                return;
            },
        };
        if let Ok(Some(decoded)) = dec.decode_au(self.audio_es_buf.as_slice()) {
            let decoded: DecodedAudio = decoded;
            if decoded.sample_rate == 0 || decoded.channels == 0 {
                return;
            }
            self.audio_sample_rate = decoded.sample_rate;
            self.audio_channels = decoded.channels;
            self.pcm_output = decoded.pcm_s16le;
            if let Some(pts) = self.first_audio_pts {
                self.clock = AudioClock::new(pts, decoded.sample_rate);
                let frame_bytes: usize = decoded.channels as usize * 2;
                let sample_frames: usize = self.pcm_output.len() / frame_bytes;
                let _ = self.clock.advance(sample_frames as u64);
            }
        }
        self.audio_decoded = true;
    }
}

impl Default for Engine {
    fn default() -> (engine: Self)
        ensures
            engine.input() == Seq::<Option<Seq<u8>>>::empty(),
            engine.pending() == Seq::<EventView>::empty(),
            new_engine(engine.view()),
    {
        Engine::new()
    }
}

// ---------------------------------------------------------------------------
// Laws
// ---------------------------------------------------------------------------

/// Running a list of events is running its first part and then the rest.
pub proof fn events_run_in_turn(engine: EngineView, first: Seq<EventView>, rest: Seq<EventView>)
    ensures
        engine_run(engine, first + rest) == engine_run(engine_run(engine, first), rest),
    decreases first.len(),
{
    if first.len() == 0 {
        assert(first + rest =~= rest);
    } else {
        assert((first + rest).drop_first() =~= first.drop_first() + rest);
        events_run_in_turn(engine_step(engine, first[0]), first.drop_first(), rest);
    }
}

/// Events only ever add: what was collected stays, in order, and the track
/// that is played first stays the one that is played. Neither the clock, nor
/// the present queue, nor decoded PCM is touched.
pub proof fn events_only_add(engine: EngineView, events: Seq<EventView>)
    ensures
        ({
            let after = engine_run(engine, events);
            &&& engine.video_units.is_prefix_of(after.video_units)
            &&& engine.audio_es.is_prefix_of(after.audio_es)
            &&& engine.tracks.len() <= after.tracks.len()
            &&& engine.video_track matches Some((id, _)) ==> is_track(after.video_track, id)
            &&& engine.audio_track matches Some((id, _)) ==> is_track(after.audio_track, id)
            &&& engine.first_audio_pts is Some ==> after.first_audio_pts == engine.first_audio_pts
            &&& after.clock == engine.clock
            &&& after.queue == engine.queue
            &&& after.pcm == engine.pcm
            &&& after.sample_rate == engine.sample_rate
            &&& after.channels == engine.channels
            &&& after.audio_decoded == engine.audio_decoded
        }),
    decreases events.len(),
{
    if events.len() > 0 {
        let next = engine_step(engine, events[0]);
        let after = engine_run(next, events.drop_first());
        events_only_add(next, events.drop_first());
        if let EventView::TrackUpdated(track) = events[0] {
            lemma_entry_of(engine.tracks, track.track_id, 0);
        }
        lemma_prefix_step(engine.video_units, next.video_units, after.video_units);
        lemma_prefix_step(engine.audio_es, next.audio_es, after.audio_es);
    } else {
        assert(engine.video_units =~= engine.video_units.subrange(
            0,
            engine.video_units.len() as int,
        ));
        assert(engine.audio_es =~= engine.audio_es.subrange(0, engine.audio_es.len() as int));
    }
}

proof fn lemma_entry_of(tracks: Seq<TrackInfo>, track_id: u32, from: int)
    ensures
        entry_of(tracks, track_id, from) matches Some(i) ==> 0 <= i < tracks.len(),
    decreases tracks.len() - from,
{
    if 0 <= from < tracks.len() {
        lemma_entry_of(tracks, track_id, from + 1);
    }
}

proof fn lemma_prefix_step<T>(a: Seq<T>, b: Seq<T>, c: Seq<T>)
    requires
        a.len() <= b.len(),
        forall|i: int| 0 <= i < a.len() ==> a[i] == #[trigger] b[i],
        b.is_prefix_of(c),
    ensures
        a.is_prefix_of(c),
{
    assert forall|i: int| 0 <= i < a.len() implies a[i] == #[trigger] c.subrange(
        0,
        a.len() as int,
    )[i] by {
        assert(b[i] == c.subrange(0, b.len() as int)[i]);
    }
    assert(a =~= c.subrange(0, a.len() as int));
}

/// Finalizing twice is finalizing once.
pub proof fn finalizing_is_idempotent(engine: EngineView)
    ensures
        with_decoded_audio(with_decoded_audio(engine)) == with_decoded_audio(engine),
{
}

/// Where PCM was decoded, the clock stands at the end of it: at the first
/// audio PTS plus the duration of the whole frames in the PCM.
pub proof fn finalized_clock_covers_the_pcm(engine: EngineView, pts: u64)
    requires
        !engine.audio_decoded,
        engine.first_audio_pts == Some(pts),
        engine.audio_es.len() > 0,
        decoded_audio(engine.audio_es) matches Some(audio) && audio.sample_rate > 0
            && audio.channels > 0,
    ensures
        ({
            let after = with_decoded_audio(engine);
            &&& after.sample_rate > 0
            &&& after.channels > 0
            &&& after.clock == played_clock(
                pts,
                after.sample_rate,
                (after.pcm.len() as int / (after.channels as int * 2)) as u64,
            )
        }),
{
}

} // verus!
