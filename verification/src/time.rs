//! Spans of time in nanoseconds.

use vstd::prelude::*;

verus! {

/// A span of time, as a count of nanoseconds.
#[derive(Clone, Copy, Debug, PartialEq, Eq, Structural)]
pub struct Duration {
    pub nanos: u64,
}

impl Duration {
    pub fn from_nanos(nanos: u64) -> (span: Self)
        ensures
            span.nanos == nanos,
    {
        Duration { nanos }
    }

    pub fn from_millis(millis: u64) -> (span: Self)
        requires
            millis * 1_000_000 <= u64::MAX,
        ensures
            span.nanos == millis * 1_000_000,
    {
        Duration { nanos: millis * 1_000_000 }
    }

    pub fn from_secs(secs: u64) -> (span: Self)
        requires
            secs * 1_000_000_000 <= u64::MAX,
        ensures
            span.nanos == secs * 1_000_000_000,
    {
        Duration { nanos: secs * 1_000_000_000 }
    }

    pub fn as_nanos(&self) -> (nanos: u64)
        ensures
            nanos == self.nanos,
    {
        self.nanos
    }

    pub fn is_zero(&self) -> (zero: bool)
        ensures
            zero == (self.nanos == 0),
    {
        self.nanos == 0
    }
}

} // verus!
