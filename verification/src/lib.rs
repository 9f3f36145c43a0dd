//! A digital vibrato audio effect.
//!
//! The effect modulates the playback delay of a signal with a precomputed
//! low-frequency oscillator, reading the delay line at a fractional position
//! by linear interpolation. Samples are carried as fixed-point integers
//! (`fixed::SCALE` units per full-scale 1.0), so the whole signal path is
//! exact integer arithmetic.

pub mod fixed;
pub mod ring_buffer;
pub mod lfo;
pub mod vibrato;
