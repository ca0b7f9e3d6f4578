//! What the bridge hands to a browser.

use vstd::prelude::*;
use crate::ts::subtitle_compositor::PictureView;

verus! {

/// Track list, available once a video track has been seen.
pub struct WasmTrackList {
    /// PID of the video elementary stream.
    pub video_pid: u16,
    /// Video codec string: `"H264"` or `"H265"`.
    pub video_codec: String,
    /// Audio tracks.
    pub audio: Vec<WasmAudioTrack>,
    /// Subtitle / teletext tracks.
    pub subtitles: Vec<WasmSubtitleTrack>,
}

/// [`WasmTrackList`] as a mathematical value.
pub struct TrackListView {
    pub video_pid: u16,
    pub video_codec: Seq<char>,
    pub audio: Seq<AudioTrackView>,
    pub subtitles: Seq<SubtitleTrackView>,
}

impl WasmTrackList {
    pub open spec fn view(&self) -> TrackListView {
        TrackListView {
            video_pid: self.video_pid,
            video_codec: self.video_codec@,
            audio: self.audio@.map_values(|t: WasmAudioTrack| t.view()),
            subtitles: self.subtitles@.map_values(|t: WasmSubtitleTrack| t.view()),
        }
    }
}

/// Optional text as a mathematical value.
pub open spec fn text_view(text: Option<String>) -> Option<Seq<char>> {
    match text {
        Some(t) => Some(t@),
        None => None,
    }
}

/// One audio elementary stream.
#[derive(Clone)]
pub struct WasmAudioTrack {
    /// PID.
    pub pid: u16,
    /// `"AC3"`, `"EAC3"`, or `"MP2"`.
    pub codec: String,
    /// ISO 639-2 language (3 chars), or `None`.
    pub language: Option<String>,
    /// Channel count, read from the first frame header seen on this PID, or
    /// `None` when no frame has been observed yet. Never a guess.
    pub channels: Option<u8>,
}

/// [`WasmAudioTrack`] as a mathematical value.
pub struct AudioTrackView {
    pub pid: u16,
    pub codec: Seq<char>,
    pub language: Option<Seq<char>>,
    pub channels: Option<u8>,
}

impl WasmAudioTrack {
    pub open spec fn view(&self) -> AudioTrackView {
        AudioTrackView {
            pid: self.pid,
            codec: self.codec@,
            language: text_view(self.language),
            channels: self.channels,
        }
    }
}

/// One subtitle / teletext elementary stream.
#[derive(Clone)]
pub struct WasmSubtitleTrack {
    /// PID.
    pub pid: u16,
    /// `"DvbSubtitles"` or `"Teletext"`.
    pub kind: String,
    /// ISO 639-2 language (3 chars), or `None`.
    pub language: Option<String>,
}

/// [`WasmSubtitleTrack`] as a mathematical value.
pub struct SubtitleTrackView {
    pub pid: u16,
    pub kind: Seq<char>,
    pub language: Option<Seq<char>>,
}

impl WasmSubtitleTrack {
    pub open spec fn view(&self) -> SubtitleTrackView {
        SubtitleTrackView {
            pid: self.pid,
            kind: self.kind@,
            language: text_view(self.language),
        }
    }
}

/// One H.264 video access unit, ready for `VideoDecoder.decode()`.
pub struct WasmVideoAu {
    /// Presentation timestamp in 90 kHz ticks, or `None`.
    pub pts_ticks: Option<u64>,
    /// Decode timestamp in 90 kHz ticks, or `None`.
    pub dts_ticks: Option<u64>,
    /// Whether decoding can start at this access unit.
    pub is_keyframe: bool,
    /// Length-prefixed elementary-stream bytes.
    pub bytes: Vec<u8>,
}

/// [`WasmVideoAu`] as a mathematical value.
pub struct AuView {
    pub pts_ticks: Option<u64>,
    pub dts_ticks: Option<u64>,
    pub is_keyframe: bool,
    pub bytes: Seq<u8>,
}

impl WasmVideoAu {
    pub open spec fn view(&self) -> AuView {
        AuView {
            pts_ticks: self.pts_ticks,
            dts_ticks: self.dts_ticks,
            is_keyframe: self.is_keyframe,
            bytes: self.bytes@,
        }
    }

    /// PTS in 90 kHz ticks, if known.
    pub fn pts_ticks(&self) -> (ticks: Option<u64>)
        ensures
            ticks == self.pts_ticks,
    {
        self.pts_ticks
    }

    /// DTS in 90 kHz ticks, if known.
    pub fn dts_ticks(&self) -> (ticks: Option<u64>)
        ensures
            ticks == self.dts_ticks,
    {
        self.dts_ticks
    }
}

/// One CMAF media segment (`styp` + `moof` + `mdat`) for the video track.
pub struct WasmMediaSegment {
    /// Decode time of the first sample, 90 kHz ticks.
    pub base_media_decode_time: u64,
    /// Serialized segment bytes.
    pub bytes: Vec<u8>,
    /// Number of samples in the segment.
    pub sample_count: u32,
}

/// Decoded PCM of one access unit.
pub struct WasmPcmChunk {
    /// PTS of the first sample in 90 kHz ticks, or `None`.
    pub pts_ticks: Option<u64>,
    /// Sample rate in Hz (e.g. 48_000).
    pub sample_rate: u32,
    /// Number of audio channels that the player gets.
    pub channels: u16,
    /// Number of channels in `pcm_s16le`.
    pub native_channels: u16,
    /// Interleaved 16-bit signed little-endian PCM samples, as decoded.
    pub pcm_s16le: Vec<u8>,
}

/// [`WasmPcmChunk`] as a mathematical value.
pub struct PcmView {
    pub pts_ticks: Option<u64>,
    pub sample_rate: u32,
    pub channels: u16,
    pub native_channels: u16,
    pub pcm_s16le: Seq<u8>,
}

impl WasmPcmChunk {
    pub open spec fn view(&self) -> PcmView {
        PcmView {
            pts_ticks: self.pts_ticks,
            sample_rate: self.sample_rate,
            channels: self.channels,
            native_channels: self.native_channels,
            pcm_s16le: self.pcm_s16le@,
        }
    }

    /// PTS of the first sample in 90 kHz ticks, if known.
    pub fn pts_ticks(&self) -> (ticks: Option<u64>)
        ensures
            ticks == self.pts_ticks,
    {
        self.pts_ticks
    }
}

/// One composited DVB subtitle cue: RGBA region bitmaps ready for overlay.
pub struct WasmSubtitleCue {
    /// Cue start PTS in 90 kHz ticks (from the subtitle PES header).
    pub start_pts: u64,
    /// Estimated end PTS in 90 kHz ticks.
    pub end_pts: u64,
    pub regions: Vec<WasmSubtitleRegion>,
}

/// [`WasmSubtitleCue`] as a mathematical value.
pub struct ShownCueView {
    pub start_pts: u64,
    pub end_pts: u64,
    pub regions: Seq<PictureView>,
}

/// RGBA bitmap for one subtitle region, placed on the display canvas.
#[derive(Clone)]
pub struct WasmSubtitleRegion {
    /// Horizontal position on the display canvas.
    pub x: u16,
    /// Vertical position on the display canvas.
    pub y: u16,
    /// Region width in pixels.
    pub width: u16,
    /// Region height in pixels.
    pub height: u16,
    /// RGBA pixel data, row-major, width*height*4 bytes.
    pub rgba: Vec<u8>,
}

impl WasmSubtitleRegion {
    pub open spec fn view(&self) -> PictureView {
        PictureView {
            x: self.x,
            y: self.y,
            width: self.width,
            height: self.height,
            rgba: self.rgba@,
        }
    }
}

/// Regions as mathematical values.
pub open spec fn region_views(regions: Seq<WasmSubtitleRegion>) -> Seq<PictureView> {
    regions.map_values(|r: WasmSubtitleRegion| r.view())
}

impl WasmSubtitleCue {
    pub open spec fn view(&self) -> ShownCueView {
        ShownCueView {
            start_pts: self.start_pts,
            end_pts: self.end_pts,
            regions: region_views(self.regions@),
        }
    }

    /// PTS in 90 kHz ticks.
    pub fn start_pts(&self) -> (pts: u64)
        ensures
            pts == self.start_pts,
    {
        self.start_pts
    }

    /// End PTS in 90 kHz ticks.
    pub fn end_pts(&self) -> (pts: u64)
        ensures
            pts == self.end_pts,
    {
        self.end_pts
    }

    /// Regions in this cue, each with RGBA and screen placement.
    pub fn regions(&self) -> (regions: Vec<WasmSubtitleRegion>)
        ensures
            region_views(regions@) == self.view().regions,
    {
        let mut regions: Vec<WasmSubtitleRegion> = Vec::new();
        let mut i: usize = 0;
        while i < self.regions.len()
            invariant
                i <= self.regions@.len(),
                region_views(regions@) == region_views(self.regions@).take(i as int),
            decreases self.regions@.len() - i,
        {
            let r: &WasmSubtitleRegion = &self.regions[i];
            let ghost before = regions@;
            regions.push(
                WasmSubtitleRegion {
                    x: r.x,
                    y: r.y,
                    width: r.width,
                    height: r.height,
                    rgba: vstd::slice::slice_to_vec(r.rgba.as_slice()),
                },
            );
            proof {
                assert(region_views(regions@) =~= region_views(before).push(r.view()));
                assert(region_views(self.regions@).take(i + 1) =~= region_views(self.regions@).take(
                    i as int,
                ).push(r.view()));
            }
            i = i + 1;
        }
        assert(region_views(self.regions@).take(i as int) =~= region_views(self.regions@));
        regions
    }
}

/// WebCodecs video configuration of the video track.
pub struct CachedVideoConfig {
    /// Codec string, e.g. `"avc1.640028"`.
    pub codec: String,
    /// Serialized decoder configuration record bytes.
    pub description: Vec<u8>,
}

} // verus!
