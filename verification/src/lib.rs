//! Core of an audio-reactive LED lighting engine: a transport codec that
//! frames RGB pixel buffers into datagrams, an integer DSP model (filterbank
//! layout, smoothing parameters), a set of stateful pixel effects, a render
//! engine that composites per-surface frames and fans them out to devices,
//! and a control plane of commands and requests that mutate engine state.
//!
//! All engine logic is verified; platform concerns (sockets, audio capture,
//! disk persistence) live outside and talk to this crate through plain values.

pub mod audio;
pub mod colors;
pub mod ddp;
pub mod dsp;
pub mod effects;
pub mod engine;
pub mod renderer;
pub mod wled;
pub mod fixp;
pub mod store;
pub mod types;
