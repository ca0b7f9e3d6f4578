//! Skyfire: a receiver for captured and live DVB transport streams.
//!
//! The transport stream is demuxed into tracks and samples ([`ts`]), audio is
//! decoded to PCM ([`ac3`], [`mpa`]), video is scheduled against the audio
//! clock ([`sync`]), and the result is segmented as HLS ([`hls`]) and served
//! ([`server`]), collected by an engine ([`engine`]), streamed to a browser
//! ([`bridge`]) or summarised ([`inspect`]).

pub mod ac3;
pub mod bits;
pub mod bridge;
pub mod engine;
pub mod engine_laws;
pub mod hls;
pub mod inspect;
pub mod inspect_laws;
pub mod mpa;
pub mod server;
pub mod sync;
pub mod text;
pub mod ts;
