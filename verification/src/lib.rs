//! Core of a waveform browser for large hardware-simulation traces.
//!
//! The crate turns a sparse change-event log into cycle-aligned integer
//! samples on demand, routes the signal list through a chain of filter
//! stages, exposes a dense identifier space above that chain, and serves
//! rectangular (signal x cycle) queries from a tiled least-recently-used
//! cache.

pub mod data;
pub mod error;
pub mod formatting;
pub mod load;
pub mod pipeline;
pub mod re;
pub mod simtime;
pub mod value;
pub mod wave;
