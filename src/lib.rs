use vstd::prelude::*;

mod chord;
mod errors;
mod interval_set;
mod iter;
mod scale;

pub mod pattern;
mod pitch;

pub use crate::chord::Chord;
pub use crate::errors::OctaveError;
pub use crate::interval_set::IntervalSet;
pub use crate::pitch::{Accidental, Pitch};
pub use crate::scale::Scale;

verus! {

/// Number of semitones in an octave: the period of every interval comparison.
pub const OCTAVE: u8 = 12;

} // verus!
