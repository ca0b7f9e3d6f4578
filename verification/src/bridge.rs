//! The streaming bridge between a transport stream and a browser.

pub mod actions;
pub mod cmaf;
pub mod dto;
pub mod helpers;
pub mod laws;
pub mod probe;
pub mod probe_laws;
pub mod stream;
pub mod stream_laws;
pub mod track_laws;
pub mod tracks;

pub use dto::{
    WasmAudioTrack, WasmMediaSegment, WasmPcmChunk, WasmSubtitleCue, WasmSubtitleRegion,
    WasmSubtitleTrack, WasmTrackList, WasmVideoAu,
};
pub use probe::{ProbeResult, WasmEngine, WasmVideoUnit};
pub use stream::SkyfireBridge;
