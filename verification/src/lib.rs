//! A verified additive-synthesis tone generator.
//!
//! The crate models audio synthesis entirely in fixed-point integer
//! arithmetic: an oscillator bank advances per-voice phase accumulators and
//! mixes harmonically related wave terms, a sample encoder quantizes the
//! mixed sample into one of several binary PCM or IEEE-float layouts, and a
//! stream pump plans each fill-and-commit cycle against a device buffer.
//! Device I/O itself is left to the embedding application; the library works
//! on plain values and byte buffers.

pub mod codec;
pub mod errors;
pub mod format;
pub mod pump;
pub mod tone;
pub mod wave;
