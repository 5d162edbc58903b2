//! Identifiers and clock readings, taken from the uuid and chrono crates.
use vstd::prelude::*;

verus! {

/// A point in time, as seconds and nanoseconds since 1970-01-01T00:00:00 UTC.
/// The nanosecond part goes past one second only during a leap second.
#[derive(Clone, Copy, Debug, PartialEq, Eq)]
pub struct Timestamp {
    pub secs: i64,
    pub nanos: u32,
}

impl Timestamp {
    /// `self` is at or before `other`.
    pub open spec fn le(self, other: Timestamp) -> bool {
        self.secs < other.secs || (self.secs == other.secs && self.nanos <= other.nanos)
    }

    /// The later of two timestamps.
    pub open spec fn later(self, other: Timestamp) -> Timestamp {
        if self.le(other) {
            other
        } else {
            self
        }
    }

    /// The later of two timestamps.
    pub fn later_of(self, other: Timestamp) -> (r: Timestamp)
        ensures
            r == self.later(other),
            self.le(r),
            other.le(r),
    {
        if self.at_or_before(other) {
            other
        } else {
            self
        }
    }

    /// Whether `self` is at or before `other`.
    pub fn at_or_before(self, other: Timestamp) -> (r: bool)
        ensures
            r == self.le(other),
    {
        self.secs < other.secs || (self.secs == other.secs && self.nanos <= other.nanos)
    }
}

/// Relies on uuid::Uuid::new_v4 and Uuid::as_u128: a random version-4 UUID,
/// read as a big-endian integer, with the version nibble set to 4 and the
/// variant bits set to 0b10.
#[verifier::external_body]
pub(crate) fn fresh_id() -> (r: u128)
    ensures
        (r >> 76u128) & 0xfu128 == 4,
        (r >> 62u128) & 0x3u128 == 2,
{
    uuid::Uuid::new_v4().as_u128()
}

/// Relies on chrono::Utc::now, then DateTime::timestamp and
/// DateTime::timestamp_subsec_nanos: the current UTC time, whose sub-second
/// part stays under two seconds' worth of nanoseconds (a leap second at most).
#[verifier::external_body]
pub(crate) fn now_utc() -> (r: Timestamp)
    ensures
        r.nanos < 2_000_000_000,
{
    let t = chrono::Utc::now();
    Timestamp { secs: t.timestamp(), nanos: t.timestamp_subsec_nanos() }
}

} // verus!
