//! Durations used for timeouts during request parsing and request handling.
use vstd::prelude::*;

verus! {

/// A span of time, with millisecond resolution.
#[derive(Debug, Clone, Copy, PartialEq, Eq, PartialOrd, Ord, Structural)]
pub struct Duration {
    milliseconds: u64,
}

impl Duration {
    /// The number of milliseconds of this duration.
    pub closed spec fn millis(&self) -> nat {
        self.milliseconds as nat
    }

    /// Convert the `Duration` to seconds, rounding down.
    pub fn as_secs(&self) -> (r: u64)
        ensures
            r == self.millis() / 1000,
    {
        self.milliseconds / 1000
    }

    /// Convert the `Duration` to milliseconds, rounding down.
    pub fn as_millis(&self) -> (r: u64)
        ensures
            r == self.millis(),
    {
        self.milliseconds
    }

    /// Creates a duration from the specified number of seconds.
    pub fn from_secs(seconds: u64) -> (r: Self)
        requires
            seconds * 1000 <= u64::MAX,
        ensures
            r.millis() == seconds * 1000,
    {
        Self::from_millis(1000 * seconds)
    }

    /// Creates a duration from the specified number of milliseconds.
    pub fn from_millis(milliseconds: u64) -> (r: Self)
        ensures
            r.millis() == milliseconds,
    {
        Duration { milliseconds }
    }
}

/// Durations of the same number of milliseconds are the same duration, however they were
/// made: `Duration::from_secs(s)` is `Duration::from_millis(1000 * s)`.
pub proof fn lemma_equal_millis_are_equal(a: Duration, b: Duration)
    requires
        a.millis() == b.millis(),
    ensures
        a == b,
{
}

impl Default for Duration {
    fn default() -> (r: Self)
        ensures
            r.millis() == 0,
    {
        Duration { milliseconds: 0 }
    }
}

/// A future did not resolve within its time limit.
#[derive(Debug, Clone, Copy, PartialEq, Eq, Structural)]
pub struct TimeoutError;

/// The timer of the `tokio` runtime.
#[derive(Debug, Clone, Copy, PartialEq, Eq, Structural)]
pub struct TokioTimer;

/// The timer of the `embassy` runtime.
#[derive(Debug, Clone, Copy, PartialEq, Eq, Structural)]
pub struct EmbassyTimer;

} // verus!
