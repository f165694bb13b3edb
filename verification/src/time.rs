//! Points in time, and the clock.

use chrono::DateTime;
use chrono::Utc;
use vstd::prelude::*;

verus! {

/// The first second that the calendar covers, counted from the Unix epoch.
pub const MIN_SECS: i64 = -8_334_601_228_800;

/// The last second that the calendar covers, counted from the Unix epoch.
pub const MAX_SECS: i64 = 8_210_266_876_799;

/// The number of nanoseconds in a second.
pub const NANOS_PER_SEC: u32 = 1_000_000_000;

/// A point in time: whole seconds since the Unix epoch, and the nanoseconds after them.
#[derive(Clone, Copy, Debug, PartialEq, Eq, Hash, Structural)]
pub struct Timestamp {
    /// Whole seconds since the Unix epoch.
    pub secs: i64,
    /// Nanoseconds after the last whole second.
    pub nanos: u32,
}

impl Timestamp {
    /// The point lies within the calendar and not inside a leap second.
    pub open spec fn valid(self) -> bool {
        &&& MIN_SECS <= self.secs <= MAX_SECS
        &&& self.nanos < NANOS_PER_SEC
    }

    /// Nanoseconds since the Unix epoch.
    pub open spec fn total_nanos(self) -> int {
        self.secs * 1_000_000_000 + self.nanos
    }

    /// `self` is no later than `other`.
    pub open spec fn no_later_than(self, other: Timestamp) -> bool {
        self.secs < other.secs || (self.secs == other.secs && self.nanos <= other.nanos)
    }

    /// Tells whether `self` is no later than `other`.
    pub fn is_no_later_than(self, other: Timestamp) -> (r: bool)
        ensures
            r == self.no_later_than(other),
    {
        self.secs < other.secs || (self.secs == other.secs && self.nanos <= other.nanos)
    }
}

/// The whole seconds in the time from `since` to `now`, with the fraction cut off. Negative
/// where `now` lies before `since`.
pub open spec fn whole_seconds(now: Timestamp, since: Timestamp) -> int {
    let nanos = now.total_nanos() - since.total_nanos();
    if nanos >= 0 {
        nanos / 1_000_000_000
    } else {
        -((-nanos) / 1_000_000_000)
    }
}

/// Reads the clock with `chrono::Utc::now`.
///
/// Trusted: what the clock shows is open, but it is a point that the calendar covers, not before
/// the Unix epoch and not inside a leap second. `Utc::now` panics where the system clock is set
/// to before 1970.
#[verifier::external_body]
pub(crate) fn utc_now() -> (now: Timestamp)
    ensures
        now.valid(),
        now.secs >= 0,
{
    let now = Utc::now();
    Timestamp { secs: now.timestamp(), nanos: now.timestamp_subsec_nanos() }
}

/// Subtracts two points in time as `chrono::DateTime<Utc>` and takes `TimeDelta::num_seconds` of
/// the difference.
///
/// Trusted: for points that the calendar covers, outside leap seconds, the difference exists and
/// `num_seconds` gives the whole seconds in it, with the fraction cut off towards zero.
#[verifier::external_body]
pub(crate) fn seconds_between(now: Timestamp, since: Timestamp) -> (r: i64)
    requires
        now.valid(),
        since.valid(),
    ensures
        r == whole_seconds(now, since),
{
    let now = DateTime::<Utc>::from_timestamp(now.secs, now.nanos).unwrap();
    let since = DateTime::<Utc>::from_timestamp(since.secs, since.nanos).unwrap();
    (now - since).num_seconds()
}

} // verus!
