//! Codecs and track kinds.

use vstd::prelude::*;

verus! {

/// Identifies a video codec.
#[derive(Debug, Clone, Copy, PartialEq, Eq, Structural)]
pub enum VideoCodec {
    H264,
    H265,
}

/// The canonical name of a video codec.
pub open spec fn video_codec_name(codec: VideoCodec) -> Seq<char> {
    match codec {
        VideoCodec::H264 => "H264"@,
        VideoCodec::H265 => "H265"@,
    }
}

/// Canonical video-codec string for public APIs.
pub fn video_codec_str(codec: VideoCodec) -> (name: &'static str)
    ensures
        name@ == video_codec_name(codec),
{
    match codec {
        VideoCodec::H264 => "H264",
        VideoCodec::H265 => "H265",
    }
}

/// Identifies an audio codec.
#[derive(Debug, Clone, Copy, PartialEq, Eq, Structural)]
pub enum AudioCodec {
    Ac3,
    EAc3,
    /// MPEG-1/2 Layer II audio (`stream_type` 0x03/0x04, DVB-SD).
    Mp2,
}

/// The canonical name of an audio codec.
pub open spec fn audio_codec_name(codec: AudioCodec) -> Seq<char> {
    match codec {
        AudioCodec::Ac3 => "AC3"@,
        AudioCodec::EAc3 => "EAC3"@,
        AudioCodec::Mp2 => "MP2"@,
    }
}

/// Canonical audio-codec string for public APIs, in upper case.
pub fn audio_codec_str(codec: AudioCodec) -> (name: &'static str)
    ensures
        name@ == audio_codec_name(codec),
{
    match codec {
        AudioCodec::Ac3 => "AC3",
        AudioCodec::EAc3 => "EAC3",
        AudioCodec::Mp2 => "MP2",
    }
}

/// Identifies a subtitle/text stream kind.
#[derive(Debug, Clone, Copy, PartialEq, Eq, Structural)]
pub enum SubtitleKind {
    /// DVB bitmap subtitling (ETSI EN 300 468, descriptor tag 0x59).
    DvbSubtitles,
    /// EBU Teletext (ETSI EN 300 468, descriptor tag 0x56).
    Teletext,
}

/// The kind of a track.
#[derive(Debug, Clone, Copy, PartialEq, Eq, Structural)]
pub enum TrackKind {
    Video(VideoCodec),
    Audio(AudioCodec),
    Subtitle(SubtitleKind),
    /// Unknown / unrecognised (opaque data track).
    Other,
}

/// Different codecs have different names, so a name identifies its codec.
pub proof fn codec_names_are_distinct(a: AudioCodec, b: AudioCodec, v: VideoCodec, w: VideoCodec)
    ensures
        audio_codec_name(a) == audio_codec_name(b) ==> a == b,
        video_codec_name(v) == video_codec_name(w) ==> v == w,
        audio_codec_name(a) != video_codec_name(v),
{
    reveal_strlit("H264");
    reveal_strlit("H265");
    reveal_strlit("AC3");
    reveal_strlit("EAC3");
    reveal_strlit("MP2");
    assert("H264"@[3] == '4' && "H265"@[3] == '5');
    assert("AC3"@[0] == 'A' && "EAC3"@[0] == 'E' && "MP2"@[0] == 'M' && "H264"@[0] == 'H'
        && "H265"@[0] == 'H');
}

} // verus!
