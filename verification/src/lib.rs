//! Core of a streaming audio convolution and equalization engine.
//!
//! Audio flows as chunks of interleaved PCM bytes through a capture stage,
//! a processing pipeline of mixers and per-channel filters, and a playback
//! stage. Samples are held as 64-bit fixed-point values with 32 fractional
//! bits, so that every arithmetic step has an exact, machine-checked
//! contract.

pub mod basicfilters;
pub mod biquad;
pub mod capture;
pub mod chunk;
pub mod coordinator;
pub mod filters;
pub mod firconv;
pub mod fixed;
pub mod formats;
pub mod mixer;
pub mod pcm;
pub mod playback;
pub mod processing;

pub use formats::SampleFormat;
