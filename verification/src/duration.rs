//! Whole-millisecond durations, as the scenario language writes them.
use vstd::prelude::*;

verus! {

/// A span of time in whole milliseconds.
#[derive(Clone, Copy, PartialEq, Eq, Structural, Debug)]
pub struct Duration {
    pub ms: u128,
}

impl View for Duration {
    type V = nat;

    /// The number of milliseconds.
    open spec fn view(&self) -> nat {
        self.ms as nat
    }
}

impl Duration {
    pub fn from_millis(ms: u64) -> (d: Duration)
        ensures
            d@ == ms,
    {
        Duration { ms: ms as u128 }
    }

    pub fn from_secs(secs: u64) -> (d: Duration)
        ensures
            d@ == secs * 1000,
    {
        Duration { ms: (secs as u128) * 1000 }
    }

    pub fn as_millis(&self) -> (ms: u128)
        ensures
            ms == self@,
    {
        self.ms
    }

    pub fn is_zero(&self) -> (z: bool)
        ensures
            z == (self@ == 0),
    {
        self.ms == 0
    }
}

} // verus!
