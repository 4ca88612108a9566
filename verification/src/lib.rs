//! Silence removal for 16-bit PCM audio.
//!
//! A sample sequence is cut into consecutive windows of a fixed size (the
//! last one may be shorter). Each window has a loudness in decibels, taken
//! from its root mean square; a window whose loudness reaches the threshold
//! is kept whole, any other is dropped whole, and the kept windows are joined
//! in the order of the input.
//!
//! Everything that can be done in integers is done here and proved: the
//! partition into windows ([`window`]), the sum of squares of a window
//! ([`loudness`]), the comparison of two levels ([`decibels`]) and the pass
//! that joins the admitted windows ([`gate`]). What these promise together is
//! stated in [`laws`].
//!
//! A level is an IEEE-754 binary64 number. This crate holds no floating-point
//! code: it carries a level as its bit pattern ([`Decibels`]), and leaves the
//! one step from a sum of squares to decibels, a square root and a
//! logarithm, to a function that the caller hands in.

pub mod decibels;
pub mod error;
pub mod gate;
pub mod laws;
pub mod loudness;
pub mod window;

pub use decibels::{Decibels, Level};
pub use error::FilterError;
pub use gate::{filter_silence, gate_windows};
pub use loudness::{energy, loudness};
pub use window::{count_windows, window_bounds, window_size_for_rate};
