//! Streaming engine library: wire formats, packetization, forward error
//! correction layout, and the state machines that drive a PC-to-headset
//! video stream.

pub mod protocol;
pub mod text;
pub mod config;
pub mod transport;
pub mod pipeline;
pub mod control;
pub mod face_tracking;
pub mod metrics;
pub mod codec_benchmark;
pub mod recording;
pub mod audio;
pub mod adaptive;
pub mod scenario;
pub mod sleep_mode;
pub mod thermal;
pub mod engine;
