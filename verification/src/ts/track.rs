//! Tracks as the demuxer announces them, and what their descriptors say.

use dvb_si::descriptors::any::{AnyDescriptor, DescriptorLoop};
use vstd::prelude::*;
use crate::ts::avc::{AVCDecoderConfigurationRecord, RecordView};
use crate::ts::codec::{AudioCodec, SubtitleKind, TrackKind, VideoCodec};

verus! {

#[verifier::external_type_specification]
#[verifier::external_body]
pub struct ExTransmuxTrack(transmux::ir::TrackSpec);

/// The codec of a track, as far as it is told apart.
#[derive(Debug, Clone, Copy, PartialEq, Eq, Structural)]
pub enum Codec {
    Avc { width: u16, height: u16 },
    Hevc { width: u16, height: u16 },
    Ac3,
    Eac3,
    MpegAudio,
    /// An opaque stream; `sections` tells whether it carries sections, which
    /// have no timestamps, instead of PES packets.
    Data { sections: bool },
    Other,
}

/// A track of the stream.
pub struct StreamTrack {
    pub track_id: u32,
    /// Ticks per second of the timestamps of this track's samples.
    pub timescale: u32,
    /// The PID that carries the track.
    pub source_pid: Option<u16>,
    /// The descriptor loop of the elementary stream, as in the PMT.
    pub es_info_descriptors: Vec<u8>,
    pub codec: Codec,
    /// The decoder configuration of an H.264 track.
    pub avc_record: Option<AVCDecoderConfigurationRecord>,
    /// The track as the segmenters take it.
    pub source: transmux::ir::TrackSpec,
}

/// [`StreamTrack`] as a mathematical value.
pub struct TrackView {
    pub track_id: u32,
    pub timescale: u32,
    pub source_pid: Option<u16>,
    pub es_info_descriptors: Seq<u8>,
    pub codec: Codec,
    pub avc_record: Option<RecordView>,
    pub source: transmux::ir::TrackSpec,
}

impl StreamTrack {
    pub open spec fn view(&self) -> TrackView {
        TrackView {
            track_id: self.track_id,
            timescale: self.timescale,
            source_pid: self.source_pid,
            es_info_descriptors: self.es_info_descriptors@,
            codec: self.codec,
            avc_record: match self.avc_record {
                Some(record) => Some(record.view()),
                None => None,
            },
            source: self.source,
        }
    }
}

// ---------------------------------------------------------------------------
// Descriptors
// ---------------------------------------------------------------------------

/// A descriptor of an elementary stream.
#[derive(Debug, Clone, Copy, PartialEq, Eq)]
pub enum Descriptor {
    /// ISO 639 language, with the code of its first entry.
    Iso639Language(Option<[u8; 3]>),
    /// Registration, with its format identifier.
    Registration([u8; 4]),
    Ac3,
    EnhancedAc3,
    Subtitling,
    Teletext,
    /// Any other descriptor, or one that cannot be read.
    Other,
}

/// The descriptors that `dvb_si` finds in a descriptor loop.
pub uninterp spec fn descriptors_in(bytes: Seq<u8>) -> Seq<Descriptor>;

/// Walks a descriptor loop with `dvb_si::descriptors::any::DescriptorLoop`.
/// The result is what [`descriptors_in`] names; it depends on `bytes` alone.
#[verifier::external_body]
fn read_descriptors(bytes: &[u8]) -> (descriptors: Vec<Descriptor>)
    ensures
        descriptors@ == descriptors_in(bytes@),
{
    DescriptorLoop::new(bytes).iter().map(|item| match item {
        Ok(AnyDescriptor::Iso639Language(d)) => Descriptor::Iso639Language(d.entries.first().map(|e| e.language_code.0)),
        Ok(AnyDescriptor::Registration(d)) => Descriptor::Registration(d.format_identifier),
        Ok(AnyDescriptor::Ac3(_)) => Descriptor::Ac3,
        Ok(AnyDescriptor::EnhancedAc3(_)) => Descriptor::EnhancedAc3,
        Ok(AnyDescriptor::Subtitling(_)) => Descriptor::Subtitling,
        Ok(AnyDescriptor::Teletext(_)) => Descriptor::Teletext,
        _ => Descriptor::Other,
    }).collect()
}

/// The first language code among the descriptors.
pub open spec fn language_in(descriptors: Seq<Descriptor>) -> Option<[u8; 3]>
    decreases descriptors.len(),
{
    if descriptors.len() == 0 {
        None
    } else {
        match descriptors[0] {
            Descriptor::Iso639Language(Some(code)) => Some(code),
            _ => language_in(descriptors.drop_first()),
        }
    }
}

/// Whether a registration descriptor announces AC-3.
pub open spec fn is_ac3_identifier(id: Seq<u8>) -> bool {
    id == seq![0x41u8, 0x43, 0x2d, 0x33]
}

/// The audio codec that the first descriptor to announce one announces.
pub open spec fn audio_codec_in(descriptors: Seq<Descriptor>) -> Option<AudioCodec>
    decreases descriptors.len(),
{
    if descriptors.len() == 0 {
        None
    } else {
        match descriptors[0] {
            Descriptor::Registration(id) if is_ac3_identifier(id@) => Some(AudioCodec::Ac3),
            Descriptor::Ac3 => Some(AudioCodec::Ac3),
            Descriptor::EnhancedAc3 => Some(AudioCodec::EAc3),
            _ => audio_codec_in(descriptors.drop_first()),
        }
    }
}

/// The subtitle kind that the first descriptor to announce one announces.
pub open spec fn subtitle_kind_in(descriptors: Seq<Descriptor>) -> Option<SubtitleKind>
    decreases descriptors.len(),
{
    if descriptors.len() == 0 {
        None
    } else {
        match descriptors[0] {
            Descriptor::Subtitling => Some(SubtitleKind::DvbSubtitles),
            Descriptor::Teletext => Some(SubtitleKind::Teletext),
            _ => subtitle_kind_in(descriptors.drop_first()),
        }
    }
}

/// Extract the first ISO 639-2 language code from a descriptor loop.
pub fn language_from_descriptors(descriptors: &Vec<Descriptor>) -> (language: Option<[u8; 3]>)
    ensures
        language == language_in(descriptors@),
{
    let mut i: usize = 0;
    assert(descriptors@.skip(0) =~= descriptors@);
    while i < descriptors.len()
        invariant
            i <= descriptors@.len(),
            language_in(descriptors@) == language_in(descriptors@.skip(i as int)),
        decreases descriptors@.len() - i,
    {
        assert(descriptors@.skip(i as int).drop_first() =~= descriptors@.skip(i + 1));
        if let Descriptor::Iso639Language(Some(code)) = descriptors[i] {
            return Some(code);
        }
        i = i + 1;
    }
    None
}

/// Detect AC-3 / E-AC-3 audio from an ES descriptor loop: an AC-3 or
/// enhanced-AC-3 descriptor, or a registration descriptor with the format
/// identifier "AC-3".
pub fn audio_codec_from_descriptors(descriptors: &Vec<Descriptor>) -> (codec: Option<AudioCodec>)
    ensures
        codec == audio_codec_in(descriptors@),
{
    let mut i: usize = 0;
    assert(descriptors@.skip(0) =~= descriptors@);
    while i < descriptors.len()
        invariant
            i <= descriptors@.len(),
            audio_codec_in(descriptors@) == audio_codec_in(descriptors@.skip(i as int)),
        decreases descriptors@.len() - i,
    {
        assert(descriptors@.skip(i as int).drop_first() =~= descriptors@.skip(i + 1));
        match descriptors[i] {
            Descriptor::Registration(id) => {
                if id[0] == 0x41 && id[1] == 0x43 && id[2] == 0x2d && id[3] == 0x33 {
                    assert(id@ =~= seq![0x41u8, 0x43, 0x2d, 0x33]);
                    return Some(AudioCodec::Ac3);
                }
                assert(!is_ac3_identifier(id@));
            },
            Descriptor::Ac3 => {
                return Some(AudioCodec::Ac3);
            },
            Descriptor::EnhancedAc3 => {
                return Some(AudioCodec::EAc3);
            },
            _ => {},
        }
        i = i + 1;
    }
    None
}

/// Detect DVB subtitles or teletext from a descriptor loop.
pub fn subtitle_kind_from_descriptors(descriptors: &Vec<Descriptor>) -> (kind: Option<SubtitleKind>)
    ensures
        kind == subtitle_kind_in(descriptors@),
{
    let mut i: usize = 0;
    assert(descriptors@.skip(0) =~= descriptors@);
    while i < descriptors.len()
        invariant
            i <= descriptors@.len(),
            subtitle_kind_in(descriptors@) == subtitle_kind_in(descriptors@.skip(i as int)),
        decreases descriptors@.len() - i,
    {
        assert(descriptors@.skip(i as int).drop_first() =~= descriptors@.skip(i + 1));
        match descriptors[i] {
            Descriptor::Subtitling => {
                return Some(SubtitleKind::DvbSubtitles);
            },
            Descriptor::Teletext => {
                return Some(SubtitleKind::Teletext);
            },
            _ => {},
        }
        i = i + 1;
    }
    None
}

// ---------------------------------------------------------------------------
// Track metadata
// ---------------------------------------------------------------------------

/// Parsed track metadata.
#[derive(Debug, Clone, Copy, PartialEq, Eq)]
pub struct TrackMeta {
    /// Source PID, if this track came from a transport stream.
    pub pid: Option<u16>,
    /// Coarse kind (video / audio / subtitle / other).
    pub kind: TrackKind,
    /// ISO 639-2 three-byte language code, if a language descriptor is present.
    pub language: Option<[u8; 3]>,
    /// The track's own media timescale, ticks per second. For an audio track it
    /// is the sample rate; video and subtitle tracks carry 90 000.
    pub timescale: u32,
}

/// The kind of a track with this codec and these descriptors. The codec of a
/// private-data stream is announced by descriptors: audio goes before
/// subtitles.
pub open spec fn kind_of(codec: Codec, descriptors: Seq<Descriptor>) -> TrackKind {
    match codec {
        Codec::Avc { .. } => TrackKind::Video(VideoCodec::H264),
        Codec::Hevc { .. } => TrackKind::Video(VideoCodec::H265),
        Codec::Ac3 => TrackKind::Audio(AudioCodec::Ac3),
        Codec::Eac3 => TrackKind::Audio(AudioCodec::EAc3),
        Codec::MpegAudio => TrackKind::Audio(AudioCodec::Mp2),
        Codec::Data { .. } => match audio_codec_in(descriptors) {
            Some(audio) => TrackKind::Audio(audio),
            None => match subtitle_kind_in(descriptors) {
                Some(subtitle) => TrackKind::Subtitle(subtitle),
                None => TrackKind::Other,
            },
        },
        Codec::Other => TrackKind::Other,
    }
}

/// The metadata of a track with these descriptors.
pub open spec fn meta_with(track: TrackView, descriptors: Seq<Descriptor>) -> TrackMeta {
    TrackMeta {
        pid: track.source_pid,
        kind: kind_of(track.codec, descriptors),
        language: language_in(descriptors),
        timescale: track.timescale,
    }
}

/// The metadata of a track.
pub open spec fn meta_of(track: TrackView) -> TrackMeta {
    meta_with(track, descriptors_in(track.es_info_descriptors))
}

/// Build [`TrackMeta`] for a track whose descriptors are already read.
pub fn track_meta_with(spec: &StreamTrack, descriptors: &Vec<Descriptor>) -> (meta: TrackMeta)
    ensures
        meta == meta_with(spec.view(), descriptors@),
{
    let kind: TrackKind = match spec.codec {
        Codec::Avc { .. } => TrackKind::Video(VideoCodec::H264),
        Codec::Hevc { .. } => TrackKind::Video(VideoCodec::H265),
        Codec::Ac3 => TrackKind::Audio(AudioCodec::Ac3),
        Codec::Eac3 => TrackKind::Audio(AudioCodec::EAc3),
        Codec::MpegAudio => TrackKind::Audio(AudioCodec::Mp2),
        Codec::Data { .. } => match audio_codec_from_descriptors(descriptors) {
            Some(codec) => TrackKind::Audio(codec),
            None => match subtitle_kind_from_descriptors(descriptors) {
                Some(kind) => TrackKind::Subtitle(kind),
                None => TrackKind::Other,
            },
        },
        Codec::Other => TrackKind::Other,
    };
    TrackMeta {
        pid: spec.source_pid,
        kind,
        language: language_from_descriptors(descriptors),
        timescale: spec.timescale,
    }
}

/// Build [`TrackMeta`] from a track.
///
/// PID and timescale are the track's own; the kind follows from the codec, and
/// for private-data streams from the descriptors, which also give the language.
pub fn track_meta(spec: &StreamTrack) -> (meta: TrackMeta)
    ensures
        meta == meta_of(spec.view()),
{
    let descriptors: Vec<Descriptor> = read_descriptors(spec.es_info_descriptors.as_slice());
    track_meta_with(spec, &descriptors)
}

/// What the codec alone decides, no descriptor changes: only private-data
/// streams take their kind from descriptors.
pub proof fn recognised_codecs_ignore_descriptors(
    codec: Codec,
    a: Seq<Descriptor>,
    b: Seq<Descriptor>,
)
    requires
        !(codec is Data),
    ensures
        kind_of(codec, a) == kind_of(codec, b),
{
}

/// Only H.264 and H.265 tracks are video tracks.
pub proof fn video_is_avc_or_hevc(codec: Codec, descriptors: Seq<Descriptor>)
    ensures
        kind_of(codec, descriptors) is Video <==> codec is Avc || codec is Hevc,
{
}

} // verus!
