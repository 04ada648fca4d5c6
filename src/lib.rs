//! Branchless lane-vector building blocks for vectorised transcendental functions.
//!
//! Lane vectors hold IEEE-754 values as their bit patterns. Everything that
//! decides (comparisons, masks, selection, sign handling, rounding, the
//! power-of-two construction, range clamping and the quadrant and special-value
//! fix-ups of each kernel) is stated against a model of those patterns in
//! [`ieee`] and proved; the floating-point polynomial arithmetic that feeds
//! these steps is left to the caller.
use vstd::prelude::*;

pub mod exp;
pub mod ieee;
pub mod integral;
pub mod lanes;
pub mod poly;
pub mod round;
pub mod trig;
pub mod util;

pub use exp::Exponent;
pub use lanes::{Lanes32, Lanes64, Mask};
pub use trig::Trigonometry;
pub use util::{FastRound, FloatBitUtils};

verus! {

} // verus!
