use vstd::prelude::*;

verus! {

/// Error value for an interval outside the octave range.
#[derive(Clone, Copy, Eq, Ord, PartialEq, PartialOrd, Debug, Structural)]
pub struct OctaveError {
    interval: u8,
}

impl OctaveError {
    /// The interval the error was made with.
    pub closed spec fn interval_spec(self) -> u8 {
        self.interval
    }

    /// Create a new `OctaveError` from `interval`.
    pub fn new(interval: u8) -> (r: OctaveError)
        ensures
            r.interval_spec() == interval,
    {
        OctaveError { interval }
    }

    /// Extract the overflowing interval
    pub fn interval(self) -> (r: u8)
        ensures
            r == self.interval_spec(),
    {
        self.interval
    }

    /// The message of the error.
    pub fn to_string(&self) -> (r: String)
        ensures
            r@ == "outside octave range"@,
    {
        "outside octave range".to_owned()
    }
}

} // verus!
