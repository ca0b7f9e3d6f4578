//! HLS of transport streams: feed raw bytes, poll a rolling or VOD playlist
//! plus keyframe-aligned `.ts` segments.

pub mod laws;
pub mod playlist;
pub mod segmenter;
pub mod session;
pub mod session_laws;

pub use playlist::{HlsConfig, StoredSegment};
pub use session::HlsSession;
