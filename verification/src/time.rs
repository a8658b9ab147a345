//! Spans of time as plain numbers.
use vstd::prelude::*;

verus! {

/// A span of time: whole seconds and the nanoseconds of the last, unfinished
/// second.
#[derive(Clone, Copy, Debug, PartialEq, Eq, Structural)]
pub struct TimeSpan {
    secs: u64,
    subsec_nanos: u32,
}

impl TimeSpan {
    /// Whether the fraction is less than a second.
    pub closed spec fn wf(self) -> bool {
        self.subsec_nanos < 1_000_000_000
    }

    /// The span in nanoseconds.
    pub closed spec fn nanos(self) -> nat {
        (self.secs * 1_000_000_000 + self.subsec_nanos) as nat
    }

    /// A span of whole seconds and nanoseconds.
    pub fn new(secs: u64, subsec_nanos: u32) -> (t: Self)
        requires
            subsec_nanos < 1_000_000_000,
        ensures
            t.wf(),
            t.nanos() == secs * 1_000_000_000 + subsec_nanos,
    {
        TimeSpan { secs, subsec_nanos }
    }

    /// A span of milliseconds.
    pub fn from_millis(ms: u64) -> (t: Self)
        ensures
            t.wf(),
            t.nanos() == ms * 1_000_000,
    {
        TimeSpan { secs: ms / 1000, subsec_nanos: ((ms % 1000) as u32) * 1_000_000 }
    }

    /// Whole seconds.
    pub fn as_secs(self) -> (s: u64)
        requires
            self.wf(),
        ensures
            s == self.nanos() / 1_000_000_000,
    {
        self.secs
    }

    /// Nanoseconds of the last, unfinished second.
    pub fn subsec_nanos(self) -> (n: u32)
        requires
            self.wf(),
        ensures
            n == self.nanos() % 1_000_000_000,
    {
        self.subsec_nanos
    }

    /// Microseconds of the last, unfinished second.
    pub fn subsec_micros(self) -> (n: u32)
        requires
            self.wf(),
        ensures
            n == self.nanos() % 1_000_000_000 / 1000,
    {
        self.subsec_nanos / 1000
    }
}

} // verus!
