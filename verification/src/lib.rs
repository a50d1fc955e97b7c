//! Streaming audio bridge: the jitter-buffer and transition engine that
//! sits between a network packet receiver and a real-time audio render
//! callback, together with the capture-side format converter that feeds
//! the wire.
//!
//! Samples are carried in the canonical wire format: signed 16-bit PCM,
//! interleaved by channel. All buffer management, loss concealment
//! (fade-in, fade-out, cross-fade) and overrun trimming is done here on
//! integer samples; device I/O and the float render format live with
//! the embedding program.

pub mod build_opts;
pub mod config;
pub mod convert;
pub mod emitter;
pub mod jitter;
pub mod packets;
pub mod sample;
pub mod vecs;

pub use build_opts::AlxBuildFlags;
pub use build_opts::AndroidFlavor;
pub use build_opts::UWPArch;
pub use config::AudioConfig;
pub use config::PlaybackParams;
pub use config::StreamError;
pub use convert::FormatConverter;
pub use emitter::RecycleRing;
pub use jitter::JitterBuffer;
pub use packets::AudioPacket;
pub use packets::ServerHandshakePacket;
pub use packets::VideoFrameHeaderPacket;
