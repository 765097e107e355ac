//! Points in time with nanosecond resolution.

use vstd::prelude::*;

verus! {

/// Nanoseconds in one millisecond.
pub const NANOS_PER_MILLI: u32 = 1_000_000;

/// A point in time: whole seconds since the Unix epoch and the nanoseconds
/// elapsed within that second.
///
/// Timestamps are ordered by `seconds` first and by `subsec_nanos` second.
#[derive(Clone, Copy, Debug, PartialEq, Eq, Structural)]
pub struct Timestamp {
    pub seconds: i64,
    pub subsec_nanos: u32,
}

impl Timestamp {
    /// Milliseconds elapsed within the current second.
    pub open spec fn subsec_millis(self) -> u32 {
        (self.subsec_nanos / NANOS_PER_MILLI) as u32
    }

    /// `self` lies strictly after `other`.
    pub open spec fn after(self, other: Timestamp) -> bool {
        self.seconds > other.seconds || (self.seconds == other.seconds && self.subsec_nanos
            > other.subsec_nanos)
    }

    /// `self`, moved `secs` seconds into the future, lies strictly after `other`.
    pub open spec fn plus_seconds_after(self, secs: int, other: Timestamp) -> bool {
        self.seconds + secs > other.seconds || (self.seconds + secs == other.seconds
            && self.subsec_nanos > other.subsec_nanos)
    }

    /// The point in time `subsec_nanos` nanoseconds after the second `seconds`.
    pub fn new(seconds: i64, subsec_nanos: u32) -> (r: Timestamp)
        ensures
            r.seconds == seconds,
            r.subsec_nanos == subsec_nanos,
    {
        Timestamp { seconds, subsec_nanos }
    }

    /// Whole seconds since the epoch.
    pub fn timestamp(&self) -> (r: i64)
        ensures
            r == self.seconds,
    {
        self.seconds
    }

    /// Milliseconds elapsed within the current second.
    pub fn timestamp_subsec_millis(&self) -> (r: u32)
        ensures
            r == self.subsec_millis(),
    {
        self.subsec_nanos / NANOS_PER_MILLI
    }

    /// Decides `self.after(*other)`.
    pub fn is_after(&self, other: &Timestamp) -> (r: bool)
        ensures
            r == self.after(*other),
    {
        self.seconds > other.seconds || (self.seconds == other.seconds && self.subsec_nanos
            > other.subsec_nanos)
    }

    /// Decides whether `self + secs` lies strictly after `other`, for any
    /// offset, without overflow.
    pub fn is_after_when_advanced(&self, secs: u32, other: &Timestamp) -> (r: bool)
        ensures
            r == self.plus_seconds_after(secs as int, *other),
    {
        let shifted: i128 = self.seconds as i128 + secs as i128;
        let target: i128 = other.seconds as i128;
        shifted > target || (shifted == target && self.subsec_nanos > other.subsec_nanos)
    }
}

} // verus!
