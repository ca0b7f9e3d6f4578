//! Audio-master A/V synchronisation.
//!
//! Audio is the master clock: media time is derived from the number of PCM
//! samples actually played, anchored to the first audio sample's PTS. Decoded
//! video frames sit in a PTS-ordered queue and are presented, dropped or held
//! against that clock.

pub mod audio_clock;
pub mod clock_laws;
pub mod frame_queue;
pub mod laws;
pub mod pts;
pub mod sync_controller;

pub use audio_clock::AudioClock;
pub use frame_queue::{decide, FrameAction, VideoFrame, VideoFrameQueue};
pub use pts::{pts_33_to_us, pts_delta_33, PTS_90KHZ, PTS_RANGE};
pub use sync_controller::{CatchUpConfig, Latency, SyncController};
