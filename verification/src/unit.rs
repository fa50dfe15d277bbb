//! The time unit in which a caller supplies positions and durations, and
//! its conversion to the seconds that a playback record stores.

use vstd::prelude::*;

verus! {

/// A unit of time for raw position and duration values.
#[derive(Clone, Copy, PartialEq, Eq, Structural, Debug)]
pub enum Unit {
    /// Milliseconds.
    Ms,
    /// Seconds.
    S,
}

/// What converting `n` from `u` into whole seconds yields: milliseconds are
/// divided by 1000 (fractions discarded), seconds pass through.
pub open spec fn to_s_spec(u: Unit, n: u32) -> u32 {
    match u {
        Unit::Ms => n / 1000,
        Unit::S => n,
    }
}

impl Unit {
    /// Converts a raw value in this unit to whole seconds.
    pub fn to_s(&self, n: u32) -> (r: u32)
        ensures
            r == to_s_spec(*self, n),
    {
        match self {
            Unit::Ms => n / 1000,
            Unit::S => n,
        }
    }
}

} // verus!
