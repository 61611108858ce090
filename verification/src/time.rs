//! Lengths of time and points in time.

use std::cmp::Ordering;
use vstd::prelude::*;
use vstd::std_specs::cmp::PartialOrdSpecImpl;
use vstd::std_specs::ops::{AddSpecImpl, SubSpecImpl};

verus! {

/// Nanoseconds in a second.
pub const NANOS_PER_SEC: u128 = 1_000_000_000;

/// Nanoseconds in a millisecond.
pub const NANOS_PER_MILLI: u128 = 1_000_000;

/// The longest length of time: `u64::MAX` seconds and 999 999 999 nanoseconds.
pub const MAX_NANOS: u128 = 18_446_744_073_709_551_615_999_999_999;

/// A length of time, or a time since the Unix epoch, to the nanosecond. Its
/// view is the number of nanoseconds.
#[derive(Clone, Copy, PartialEq, Eq, Structural, Debug)]
pub struct JsonDuration {
    nanos: u128,
}

impl View for JsonDuration {
    type V = int;

    closed spec fn view(&self) -> int {
        self.nanos as int
    }
}

/// Two lengths of time with the same number of nanoseconds are the same.
pub proof fn same_nanos_same_duration(a: JsonDuration, b: JsonDuration)
    requires
        a@ == b@,
    ensures
        a == b,
{
}

/// The nanoseconds of a length of time are a machine number.
pub broadcast proof fn nanos_in_range(a: JsonDuration)
    ensures
        0 <= #[trigger] a@ <= u128::MAX,
{
}

/// `JsonDuration::of` gives the length of time that was asked for.
pub broadcast proof fn of_has_nanos(nanos: int)
    requires
        0 <= nanos <= u128::MAX,
    ensures
        (#[trigger] JsonDuration::of(nanos))@ == nanos,
{
}

/// What is known of every length of time.
pub broadcast group group_durations {
    nanos_in_range,
    of_has_nanos,
}

impl JsonDuration {
    #[verifier::type_invariant]
    spec fn in_range(self) -> bool {
        self.nanos <= MAX_NANOS
    }

    /// The length of time of `nanos` nanoseconds.
    pub closed spec fn of(nanos: int) -> JsonDuration {
        JsonDuration { nanos: nanos as u128 }
    }

    /// `nanos` nanoseconds.
    pub fn new(nanos: u128) -> (r: JsonDuration)
        requires
            nanos <= MAX_NANOS,
        ensures
            r@ == nanos,
    {
        JsonDuration { nanos }
    }

    /// `secs` seconds.
    pub fn from_secs(secs: u64) -> (r: JsonDuration)
        ensures
            r@ == secs * NANOS_PER_SEC,
    {
        JsonDuration { nanos: secs as u128 * NANOS_PER_SEC }
    }

    /// `millis` milliseconds.
    pub fn from_millis(millis: u64) -> (r: JsonDuration)
        ensures
            r@ == millis * NANOS_PER_MILLI,
    {
        JsonDuration { nanos: millis as u128 * NANOS_PER_MILLI }
    }

    /// `nanos` nanoseconds, as a media clock counts them.
    pub fn from_nanos(nanos: u64) -> (r: JsonDuration)
        ensures
            r@ == nanos,
    {
        JsonDuration { nanos: nanos as u128 }
    }

    /// The number of nanoseconds.
    pub fn as_nanos(&self) -> (r: u128)
        ensures
            r == self@,
            r <= MAX_NANOS,
    {
        proof {
            use_type_invariant(self);
        }
        self.nanos
    }

    /// The number of whole milliseconds.
    pub fn as_millis(&self) -> (r: u128)
        ensures
            r == self@ / (NANOS_PER_MILLI as int),
    {
        self.nanos / NANOS_PER_MILLI
    }
}

impl Default for JsonDuration {
    /// No time at all.
    fn default() -> (r: JsonDuration)
        ensures
            r@ == 0,
    {
        JsonDuration { nanos: 0 }
    }
}

impl PartialOrd for JsonDuration {
    fn partial_cmp(&self, other: &Self) -> (r: Option<Ordering>) {
        if self.nanos < other.nanos {
            Some(Ordering::Less)
        } else if self.nanos > other.nanos {
            Some(Ordering::Greater)
        } else {
            Some(Ordering::Equal)
        }
    }
}

impl PartialOrdSpecImpl for JsonDuration {
    open spec fn obeys_partial_cmp_spec() -> bool {
        true
    }

    open spec fn partial_cmp_spec(&self, other: &Self) -> Option<Ordering> {
        if self@ < other@ {
            Some(Ordering::Less)
        } else if self@ > other@ {
            Some(Ordering::Greater)
        } else {
            Some(Ordering::Equal)
        }
    }
}

impl std::ops::Sub for JsonDuration {
    type Output = JsonDuration;

    fn sub(self, rhs: JsonDuration) -> (r: JsonDuration) {
        proof {
            use_type_invariant(&self);
        }
        JsonDuration { nanos: self.nanos - rhs.nanos }
    }
}

impl SubSpecImpl for JsonDuration {
    open spec fn obeys_sub_spec() -> bool {
        true
    }

    open spec fn sub_req(self, rhs: JsonDuration) -> bool {
        rhs@ <= self@
    }

    open spec fn sub_spec(self, rhs: JsonDuration) -> JsonDuration {
        JsonDuration::of(self@ - rhs@)
    }
}

impl std::ops::Add for JsonDuration {
    type Output = JsonDuration;

    fn add(self, rhs: JsonDuration) -> (r: JsonDuration) {
        proof {
            use_type_invariant(&self);
            use_type_invariant(&rhs);
        }
        JsonDuration { nanos: self.nanos + rhs.nanos }
    }
}

impl AddSpecImpl for JsonDuration {
    open spec fn obeys_add_spec() -> bool {
        true
    }

    open spec fn add_req(self, rhs: JsonDuration) -> bool {
        self@ + rhs@ <= MAX_NANOS
    }

    open spec fn add_spec(self, rhs: JsonDuration) -> JsonDuration {
        JsonDuration::of(self@ + rhs@)
    }
}

/// The unit of the numbers that stand for times in stored and sent documents.
#[derive(Clone, Copy, PartialEq, Eq, Structural, Debug)]
pub struct MS {}

impl MS {
    /// The time that the whole number `n` of milliseconds stands for.
    pub fn from_number(n: u64) -> (r: JsonDuration)
        ensures
            r@ == n * NANOS_PER_MILLI,
    {
        JsonDuration::from_millis(n)
    }
}

/// The last second of the calendar, 31 December of the year 262142, as seconds
/// since the Unix epoch.
pub const LATEST_SECS: i64 = 8_210_266_876_799;

/// A point in time: seconds since the Unix epoch, and nanoseconds within the
/// second.
#[derive(Clone, Copy, PartialEq, Eq, Structural, Debug)]
pub struct Timestamp {
    pub secs: i64,
    pub nanos: u32,
}

impl Timestamp {
    /// Whether this point in time comes after `other`.
    pub open spec fn is_after(self, other: Timestamp) -> bool {
        self.secs > other.secs || (self.secs == other.secs && self.nanos > other.nanos)
    }

    /// The point in time `secs` seconds later.
    pub open spec fn later_by(self, secs: int) -> Timestamp {
        Timestamp { secs: (self.secs + secs) as i64, nanos: self.nanos }
    }

    /// Whether this point in time comes after `other`.
    pub fn after(&self, other: &Timestamp) -> (r: bool)
        ensures
            r == self.is_after(*other),
    {
        self.secs > other.secs || (self.secs == other.secs && self.nanos > other.nanos)
    }

    /// The point in time `secs` seconds later.
    pub fn plus_secs(&self, secs: i64) -> (r: Timestamp)
        requires
            0 <= secs,
            self.secs + secs <= LATEST_SECS,
        ensures
            r == self.later_by(secs as int),
            r.secs == self.secs + secs,
    {
        Timestamp { secs: self.secs + secs, nanos: self.nanos }
    }
}

/// Points in time are compared by seconds, and by nanoseconds within the same second:
/// one comes after another exactly when more nanoseconds went by until it.
pub proof fn later_has_more_nanos(a: Timestamp, b: Timestamp)
    requires
        a.nanos < 1_000_000_000,
        b.nanos < 1_000_000_000,
    ensures
        a.is_after(b) <==> a.secs * 1_000_000_000 + a.nanos > b.secs * 1_000_000_000 + b.nanos,
        !(a.is_after(b) && b.is_after(a)),
        a.is_after(b) || b.is_after(a) || a == b,
{
}

/// A point in time that is so many seconds later is that many seconds away.
pub proof fn later_by_is_so_far_away(a: Timestamp, secs: int)
    requires
        i64::MIN <= a.secs + secs <= i64::MAX,
    ensures
        a.later_by(secs).secs - a.secs == secs,
        a.later_by(secs).nanos == a.nanos,
{
}

} // verus!
