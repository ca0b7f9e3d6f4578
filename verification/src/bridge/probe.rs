//! The batch engine as a browser sees it.

use vstd::prelude::*;
use crate::engine::{
    engine_run, engine_step, entry_of, info_of, new_engine, with_decoded_audio, Engine, EngineView,
    TrackInfo, unit_views, VideoConfig, VideoUnit,
};
use crate::ts::avc::{avc1_string, description_of, has_wire_form};
use crate::ts::codec::{
    audio_codec_name, audio_codec_str, video_codec_name, video_codec_str, TrackKind,
};
use crate::ts::demux::{events_on_feed, events_on_finish, EventView};

verus! {

/// Result of probing a transport stream for its channel map.
pub struct ProbeResult {
    /// PID of the video elementary stream.
    pub video_pid: u16,
    /// Video codec identifier: `"H264"` or `"H265"`.
    pub video_codec: String,
    /// PIDs of audio elementary streams.
    pub audio_pids: Vec<u16>,
    /// Audio codec identifiers, parallel to `audio_pids`: `"AC3"`, `"EAC3"`,
    /// or `"MP2"`.
    pub audio_codecs: Vec<String>,
}

/// [`ProbeResult`] as a mathematical value.
pub struct ProbeView {
    pub video_pid: u16,
    pub video_codec: Seq<char>,
    pub audio_pids: Seq<u16>,
    pub audio_codecs: Seq<Seq<char>>,
}

/// Texts as mathematical values.
pub open spec fn texts(strings: Seq<String>) -> Seq<Seq<char>> {
    strings.map_values(|s: String| s@)
}

impl ProbeResult {
    pub open spec fn view(&self) -> ProbeView {
        ProbeView {
            video_pid: self.video_pid,
            video_codec: self.video_codec@,
            audio_pids: self.audio_pids@,
            audio_codecs: texts(self.audio_codecs@),
        }
    }

    /// PIDs of audio elementary streams.
    pub fn audio_pids(&self) -> (pids: Vec<u16>)
        ensures
            pids@ == self.audio_pids@,
    {
        vstd::slice::slice_to_vec(self.audio_pids.as_slice())
    }

    /// Audio codec strings, parallel to `audio_pids`.
    pub fn audio_codecs(&self) -> (codecs: Vec<String>)
        ensures
            texts(codecs@) == texts(self.audio_codecs@),
    {
        let mut codecs: Vec<String> = Vec::new();
        let mut i: usize = 0;
        while i < self.audio_codecs.len()
            invariant
                i <= self.audio_codecs@.len(),
                texts(codecs@) =~= texts(self.audio_codecs@).take(i as int),
            decreases self.audio_codecs@.len() - i,
        {
            let ghost before = texts(codecs@);
            let codec: String = self.audio_codecs[i].clone();
            codecs.push(codec);
            assert(texts(codecs@) =~= before.push(self.audio_codecs@[i as int]@));
            i = i + 1;
        }
        codecs
    }
}

// ---------------------------------------------------------------------------
// Probing
// ---------------------------------------------------------------------------

/// The PID by which a track is reported.
pub open spec fn reported_pid(track: TrackInfo) -> u16 {
    match track.pid {
        Some(pid) => pid,
        None => 0,
    }
}

/// The first video track from `from` on.
pub open spec fn first_video(tracks: Seq<TrackInfo>, from: int) -> Option<TrackInfo>
    decreases tracks.len() - from,
{
    if from < 0 || from >= tracks.len() {
        None
    } else if tracks[from].kind is Video {
        Some(tracks[from])
    } else {
        first_video(tracks, from + 1)
    }
}

/// The PIDs of the audio tracks.
pub open spec fn audio_pids_of(tracks: Seq<TrackInfo>) -> Seq<u16>
    decreases tracks.len(),
{
    if tracks.len() == 0 {
        Seq::empty()
    } else if tracks.last().kind is Audio {
        audio_pids_of(tracks.drop_last()).push(reported_pid(tracks.last()))
    } else {
        audio_pids_of(tracks.drop_last())
    }
}

/// The codecs of the audio tracks.
pub open spec fn audio_codecs_of(tracks: Seq<TrackInfo>) -> Seq<Seq<char>>
    decreases tracks.len(),
{
    if tracks.len() == 0 {
        Seq::empty()
    } else {
        match tracks.last().kind {
            TrackKind::Audio(codec) => audio_codecs_of(tracks.drop_last()).push(
                audio_codec_name(codec),
            ),
            _ => audio_codecs_of(tracks.drop_last()),
        }
    }
}

/// The channel map of a list of tracks: there is one where there is a video
/// track and an audio track.
pub open spec fn channel_map(tracks: Seq<TrackInfo>) -> Option<ProbeView> {
    match first_video(tracks, 0) {
        None => None,
        Some(video) => if audio_pids_of(tracks).len() == 0 {
            None
        } else {
            Some(
                ProbeView {
                    video_pid: reported_pid(video),
                    video_codec: match video.kind {
                        TrackKind::Video(codec) => video_codec_name(codec),
                        _ => "H264"@,
                    },
                    audio_pids: audio_pids_of(tracks),
                    audio_codecs: audio_codecs_of(tracks),
                },
            )
        },
    }
}

/// The tracks after an event.
pub open spec fn tracks_step(tracks: Seq<TrackInfo>, event: EventView) -> Seq<TrackInfo> {
    match event {
        EventView::TrackAdded(track) => tracks.push(info_of(track)),
        EventView::TrackUpdated(track) => match entry_of(tracks, track.track_id, 0) {
            Some(i) => tracks.update(i, info_of(track)),
            None => tracks,
        },
        _ => tracks,
    }
}

/// The tracks after several events, in order.
pub open spec fn tracks_run(tracks: Seq<TrackInfo>, events: Seq<EventView>) -> Seq<TrackInfo>
    decreases events.len(),
{
    if events.len() == 0 {
        tracks
    } else {
        tracks_run(tracks_step(tracks, events[0]), events.drop_first())
    }
}

proof fn lemma_engine_tracks(engine: EngineView, events: Seq<EventView>)
    ensures
        engine_run(engine, events).tracks == tracks_run(engine.tracks, events),
    decreases events.len(),
{
    if events.len() > 0 {
        lemma_engine_tracks(engine_step(engine, events[0]), events.drop_first());
    }
}

/// The tracks of a stream that is fed as one chunk.
pub open spec fn tracks_in(data: Seq<u8>) -> Seq<TrackInfo> {
    tracks_run(
        tracks_run(Seq::empty(), events_on_feed(Seq::empty(), data)),
        events_on_finish(seq![Some(data)]),
    )
}

fn info_pid(track: &TrackInfo) -> (pid: u16)
    ensures
        pid == reported_pid(*track),
{
    match track.pid {
        Some(pid) => pid,
        None => 0,
    }
}

/// The channel map of a list of tracks.
pub fn map_channels(tracks: &[TrackInfo]) -> (map: Option<ProbeResult>)
    ensures
        match map {
            Some(m) => channel_map(tracks@) == Some(m.view()),
            None => channel_map(tracks@) is None,
        },
{
    let mut v: usize = 0;
    while v < tracks.len() && !is_video(&tracks[v])
        invariant
            v <= tracks@.len(),
            first_video(tracks@, 0) == first_video(tracks@, v as int),
        decreases tracks@.len() - v,
    {
        v = v + 1;
    }
    if v >= tracks.len() {
        return None;
    }
    let video_codec: &'static str = match tracks[v].kind {
        TrackKind::Video(codec) => video_codec_str(codec),
        _ => "H264",
    };
    let mut audio_pids: Vec<u16> = Vec::new();
    let mut audio_codecs: Vec<String> = Vec::new();
    let mut i: usize = 0;
    assert(tracks@.take(0) =~= Seq::<TrackInfo>::empty());
    assert(texts(audio_codecs@) =~= Seq::empty());
    while i < tracks.len()
        invariant
            i <= tracks@.len(),
            audio_pids@ == audio_pids_of(tracks@.take(i as int)),
            texts(audio_codecs@) == audio_codecs_of(tracks@.take(i as int)),
        decreases tracks@.len() - i,
    {
        proof {
            assert(tracks@.take(i + 1).drop_last() =~= tracks@.take(i as int));
            assert(tracks@.take(i + 1).last() == tracks@[i as int]);
        }
        if let TrackKind::Audio(codec) = tracks[i].kind {
            let ghost before = texts(audio_codecs@);
            audio_pids.push(info_pid(&tracks[i]));
            audio_codecs.push(audio_codec_str(codec).to_string());
            assert(texts(audio_codecs@) =~= before.push(audio_codec_name(codec)));
        }
        i = i + 1;
    }
    assert(tracks@.take(i as int) =~= tracks@);
    if audio_pids.len() == 0 {
        return None;
    }
    Some(
        ProbeResult {
            video_pid: info_pid(&tracks[v]),
            video_codec: video_codec.to_string(),
            audio_pids,
            audio_codecs,
        },
    )
}

fn is_video(track: &TrackInfo) -> (is: bool)
    ensures
        is == track.kind is Video,
{
    match track.kind {
        TrackKind::Video(_) => true,
        _ => false,
    }
}

/// Every audio PID has its codec.
pub proof fn audio_lists_are_parallel(tracks: Seq<TrackInfo>)
    ensures
        audio_pids_of(tracks).len() == audio_codecs_of(tracks).len(),
    decreases tracks.len(),
{
    if tracks.len() > 0 {
        audio_lists_are_parallel(tracks.drop_last());
    }
}

// ---------------------------------------------------------------------------
// The engine
// ---------------------------------------------------------------------------

/// One H.264 video access unit.
pub struct WasmVideoUnit {
    /// Elementary-stream bytes (NAL unit / picture data).
    pub bytes: Vec<u8>,
    /// PTS in 90 kHz ticks, or `None` where the stream gave none.
    pub pts_ticks: Option<u64>,
}

impl WasmVideoUnit {
    /// PTS in 90 kHz ticks, if known.
    pub fn pts_ticks(&self) -> (ticks: Option<u64>)
        ensures
            ticks == self.pts_ticks,
    {
        self.pts_ticks
    }
}

/// Thin wrapper around [`Engine`]: probe, then initialize, feed, flush and
/// finalize. Before it is initialized everything it gives is empty.
pub struct WasmEngine {
    engine: Option<Engine>,
}

impl Default for WasmEngine {
    fn default() -> (engine: Self)
        ensures
            engine.view() is None,
    {
        WasmEngine { engine: None }
    }
}

impl WasmEngine {
    /// The engine inside, once it was initialized.
    pub closed spec fn inner(&self) -> Option<Engine> {
        self.engine
    }

    pub open spec fn view(&self) -> Option<EngineView> {
        match self.inner() {
            Some(engine) => Some(engine.view()),
            None => None,
        }
    }

    /// Create a new, uninitialized engine.
    #[must_use]
    pub fn new() -> (engine: Self)
        ensures
            engine.view() is None,
    {
        WasmEngine { engine: None }
    }

    /// Probe raw transport stream bytes for the channel map: the tracks that a
    /// fresh engine finds in them.
    pub fn probe(&self, data: &[u8]) -> (map: Option<ProbeResult>)
        ensures
            match map {
                Some(m) => channel_map(tracks_in(data@)) == Some(m.view()),
                None => channel_map(tracks_in(data@)) is None,
            },
    {
        let mut engine: Engine = Engine::new();
        proof {
            assert(engine.view().tracks =~= Seq::empty());
        }
        let ghost start = engine.view();
        engine.feed(data);
        proof {
            assert(Seq::<EventView>::empty() + events_on_feed(Seq::empty(), data@)
                =~= events_on_feed(Seq::empty(), data@));
            lemma_engine_tracks(start, events_on_feed(Seq::empty(), data@));
            assert(engine.input() =~= seq![Some(data@)]);
        }
        let ghost fed = engine.view();
        engine.finish();
        proof {
            let rest = events_on_finish(seq![Some(data@)]);
            assert(Seq::<EventView>::empty() + rest =~= rest);
            lemma_engine_tracks(fed, rest);
        }
        engine.finalize();
        map_channels(engine.tracks())
    }

    /// Initialize with a fresh engine. It finds the channel map in the stream
    /// by itself, so the hints are not used.
    pub fn init_with_channel(
        &mut self,
        _video_pid: u16,
        _video_codec: &str,
        _audio_pids: Vec<u16>,
        _audio_codecs: Vec<String>,
    )
        ensures
            final(self).inner() matches Some(e) && new_engine(e.view()) && e.input() == Seq::<
                Option<Seq<u8>>,
            >::empty() && e.pending() == Seq::<EventView>::empty(),
    {
        self.engine = Some(Engine::new());
    }

    /// Feed raw transport stream bytes into the engine.
    pub fn feed(&mut self, data: &[u8])
        ensures
            match (old(self).inner(), final(self).inner()) {
                (Some(before), Some(after)) => {
                    &&& after.view() == engine_run(
                        before.view(),
                        before.pending() + events_on_feed(before.input(), data@),
                    )
                    &&& after.input() == before.input().push(Some(data@))
                    &&& after.pending() == Seq::<EventView>::empty()
                },
                (None, None) => true,
                _ => false,
            },
    {
        if let Some(mut engine) = self.engine.take() {
            engine.feed(data);
            self.engine = Some(engine);
        }
    }

    /// Flush any partial packets still in the demuxer.
    pub fn flush(&mut self)
        ensures
            match (old(self).inner(), final(self).inner()) {
                (Some(before), Some(after)) => {
                    &&& after.view() == engine_run(
                        before.view(),
                        before.pending() + events_on_finish(before.input()),
                    )
                    &&& after.input() == before.input().push(None)
                    &&& after.pending() == Seq::<EventView>::empty()
                },
                (None, None) => true,
                _ => false,
            },
    {
        if let Some(mut engine) = self.engine.take() {
            engine.finish();
            self.engine = Some(engine);
        }
    }

    /// Decode the accumulated audio to PCM.
    pub fn finalize(&mut self)
        ensures
            match (old(self).inner(), final(self).inner()) {
                (Some(before), Some(after)) => {
                    &&& after.view() == with_decoded_audio(before.view())
                    &&& after.input() == before.input()
                    &&& after.pending() == before.pending()
                },
                (None, None) => true,
                _ => false,
            },
    {
        if let Some(mut engine) = self.engine.take() {
            engine.finalize();
            self.engine = Some(engine);
        }
    }

    /// Decoded audio PCM as interleaved S16LE bytes.
    pub fn audio_pcm(&self) -> (pcm: Vec<u8>)
        ensures
            pcm@ == (match self.view() {
                Some(e) => e.pcm,
                None => Seq::empty(),
            }),
    {
        match &self.engine {
            Some(engine) => vstd::slice::slice_to_vec(engine.audio_pcm()),
            None => Vec::new(),
        }
    }

    /// Audio sample rate in Hz, or 0 if no audio.
    pub fn audio_sample_rate(&self) -> (rate: u32)
        ensures
            rate == (match self.view() {
                Some(e) => e.sample_rate,
                None => 0,
            }),
    {
        match &self.engine {
            Some(engine) => engine.audio_sample_rate(),
            None => 0,
        }
    }

    /// Number of audio channels, or 0 if no audio.
    pub fn audio_channels(&self) -> (channels: u16)
        ensures
            channels == (match self.view() {
                Some(e) => e.channels,
                None => 0,
            }),
    {
        match &self.engine {
            Some(engine) => engine.audio_channels(),
            None => 0,
        }
    }

    /// Whether the engine has produced audio PCM.
    pub fn has_audio(&self) -> (has: bool)
        ensures
            has == (match self.view() {
                Some(e) => e.pcm.len() > 0,
                None => false,
            }),
    {
        match &self.engine {
            Some(engine) => engine.has_audio(),
            None => false,
        }
    }

    /// Whether the engine has collected video access units.
    pub fn has_video(&self) -> (has: bool)
        ensures
            has == (match self.view() {
                Some(e) => e.video_units.len() > 0,
                None => false,
            }),
    {
        match &self.engine {
            Some(engine) => engine.has_video(),
            None => false,
        }
    }

    /// Number of video access units collected.
    pub fn video_unit_count(&self) -> (count: usize)
        ensures
            count == (match self.view() {
                Some(e) => e.video_units.len(),
                None => 0,
            }),
    {
        match &self.engine {
            Some(engine) => {
                let units: &[VideoUnit] = engine.video_units();
                assert(unit_views(units@).len() == units@.len());
                units.len()
            },
            None => 0,
        }
    }

    /// Retrieve a single video access unit by index, or `None` if out of
    /// range.
    pub fn video_unit(&self, index: usize) -> (unit: Option<WasmVideoUnit>)
        ensures
            match unit {
                Some(u) => self.view() matches Some(e) && index < e.video_units.len() && u.bytes@
                    == e.video_units[index as int].data && u.pts_ticks == (
                if e.video_units[index as int].timed {
                    Some(e.video_units[index as int].pts)
                } else {
                    None
                }),
                None => match self.view() {
                    Some(e) => index >= e.video_units.len(),
                    None => true,
                },
            },
    {
        match &self.engine {
            Some(engine) => {
                let units: &[VideoUnit] = engine.video_units();
                proof {
                    assert(unit_views(units@).len() == units@.len());
                }
                if index >= units.len() {
                    return None;
                }
                let unit: &VideoUnit = &units[index];
                assert(unit_views(units@)[index as int] == unit.view());
                Some(
                    WasmVideoUnit {
                        bytes: vstd::slice::slice_to_vec(unit.data.as_slice()),
                        pts_ticks: if unit.timed {
                            Some(unit.pts)
                        } else {
                            None
                        },
                    },
                )
            },
            None => None,
        }
    }

    /// WebCodecs codec string (e.g. `"avc1.640028"`), or `None` if not yet
    /// available.
    pub fn video_config_codec(&self) -> (codec: Option<String>)
        ensures
            match codec {
                Some(c) => self.view() matches Some(e) && e.video_record matches Some(record)
                    && has_wire_form(record) && c@ == avc1_string(
                    record.profile_indication,
                    record.profile_compatibility,
                    record.level_indication,
                ),
                None => self.view() matches Some(e) ==> (e.video_record matches Some(record)
                    ==> !has_wire_form(record)),
            },
    {
        match &self.engine {
            Some(engine) => match engine.video_config() {
                Some(config) => Some(config.codec),
                None => None,
            },
            None => None,
        }
    }

    /// WebCodecs `avcC` description bytes, or empty if not yet available.
    pub fn video_config_description(&self) -> (bytes: Vec<u8>)
        ensures
            bytes@ == (match self.view() {
                Some(e) => match e.video_record {
                    Some(record) => description_of(record),
                    None => Seq::empty(),
                },
                None => Seq::empty(),
            }),
    {
        match &self.engine {
            Some(engine) => match engine.video_config() {
                Some(config) => {
                    let config: VideoConfig = config;
                    config.description
                },
                None => Vec::new(),
            },
            None => Vec::new(),
        }
    }
}

} // verus!
