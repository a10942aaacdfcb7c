//! Verified core of a real-time oscillator-bank synthesizer: stream
//! configuration negotiation and the layout of mixed frames in an
//! interleaved output buffer.

pub mod config;
pub mod frames;
pub mod waveform;

pub use config::{select_config, ConfigRange, SampleFormat, Selection, StreamConfig, TARGET_SAMPLE_RATE};
pub use frames::{render, write_frame};
pub use waveform::Waveform;
