//! MPEG-TS tracks, samples and DVB subtitles.

pub mod avc;
pub mod codec;
pub mod demux;
pub mod h264_config;
pub mod mp2_header;
pub mod pixel_codes;
pub mod pixel_laws;
pub mod segments;
pub mod subtitle_compositor;
pub mod subtitle_laws;
pub mod tick_budget;
pub mod ticks;
pub mod track;
pub mod track_laws;

pub use avc::{build_avcc_config, AVCDecoderConfigurationRecord};
pub use codec::{audio_codec_str, video_codec_str, AudioCodec, SubtitleKind, TrackKind, VideoCodec};
pub use demux::{DemuxEvent, TsDemux, TS_PACKET_LEN};
pub use ticks::{checked_ticks, checked_ticks_90k};
pub use track::{track_meta, TrackMeta};
