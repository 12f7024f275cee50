//! Offline sample-rate conversion of interleaved 32-bit PCM audio.
//!
//! The verified core is made of three parts:
//! - `pcm`: raw interleaved bytes to stereo integer frames and back;
//! - `converter`: the rate-conversion driver, an exact rational playback
//!   cursor that decides when an input frame is consumed and at which
//!   fractional offset each output frame is interpolated;
//! - `engine`: the choice between the interpolation backends.
pub mod converter;
pub mod engine;
pub mod pcm;
