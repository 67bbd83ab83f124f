//! Spans of time counted in nanoseconds.

use vstd::prelude::*;

verus! {

/// A span of time.
#[derive(Clone, Copy, Debug, PartialEq, Eq, Structural, PartialOrd, Ord, Hash)]
pub struct Duration {
    pub nanos: u128,
}

impl Duration {
    /// A span of whole nanoseconds.
    pub fn from_nanos(nanos: u64) -> (duration: Duration)
        ensures
            duration.nanos == nanos,
    {
        Duration { nanos: nanos as u128 }
    }
}

} // verus!
