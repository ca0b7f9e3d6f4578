//! AC-3 / E-AC-3 audio: syncframes and decoding to PCM.

pub mod decoder;
pub mod downmix;
pub mod header;
pub mod laws;

pub use decoder::{decode_all_eac3, DecodedAudio, IncrementalDecoder};
pub use header::{is_ac3_syncframe, AC3_SYNCWORD};
