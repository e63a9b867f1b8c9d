//! Framework time: a signed count of nanoseconds on a monotonic clock.
use std::ops::Add;
use std::sync::atomic::Ordering;

use vstd::prelude::*;
use vstd::std_specs::convert::FromSpecImpl;
use vstd::std_specs::ops::AddSpecImpl;

use crate::text::push_signed_decimal;

verus! {

/// A span of time, in nanoseconds.
#[derive(Clone, Copy, PartialEq, Eq, Structural, Debug, PartialOrd, Ord)]
pub struct Duration {
    pub nanoseconds: u128,
}

impl Duration {
    /// The span of no time at all.
    pub fn zero() -> (r: Duration)
        ensures
            r.nanoseconds == 0,
    {
        Duration { nanoseconds: 0 }
    }

    pub fn from_nanos(nanoseconds: u64) -> (r: Duration)
        ensures
            r.nanoseconds == nanoseconds,
    {
        Duration { nanoseconds: nanoseconds as u128 }
    }

    pub fn from_millis(milliseconds: u64) -> (r: Duration)
        ensures
            r.nanoseconds == milliseconds * 1_000_000,
    {
        Duration { nanoseconds: milliseconds as u128 * 1_000_000 }
    }

    pub fn as_nanos(&self) -> (r: u128)
        ensures
            r == self.nanoseconds,
    {
        self.nanoseconds
    }
}

/// Monotonic clock reading with a fixed size.
#[derive(Clone, Copy, PartialEq, Eq, Structural, Debug, PartialOrd, Ord)]
pub struct FrameworkTime {
    pub nanoseconds: i64,
}

/// Where `time` plus `rhs` lands, before any check of the clock's range.
/// A span longer than the clock's greatest reading always lands there.
pub open spec fn time_after(time: FrameworkTime, rhs: Duration) -> int {
    if rhs.nanoseconds > i64::MAX {
        i64::MAX as int
    } else {
        time.nanoseconds + rhs.nanoseconds
    }
}

/// `time_after`, held down to the clock's greatest reading.
pub open spec fn saturated_time_after(time: FrameworkTime, rhs: Duration) -> FrameworkTime {
    if time_after(time, rhs) > i64::MAX {
        FrameworkTime { nanoseconds: i64::MAX }
    } else {
        FrameworkTime { nanoseconds: time_after(time, rhs) as i64 }
    }
}

impl FrameworkTime {
    /// The greatest reading of the clock.
    pub fn max_value() -> (r: FrameworkTime)
        ensures
            r.nanoseconds == i64::MAX,
    {
        FrameworkTime { nanoseconds: i64::MAX }
    }

    /// The reading that stands for "no time".
    pub fn invalid() -> (r: FrameworkTime)
        ensures
            r.nanoseconds == i64::MIN,
    {
        FrameworkTime { nanoseconds: i64::MIN }
    }

    /// Convert nanoseconds to a reading.
    pub fn from_nanoseconds(nanoseconds: i64) -> (r: FrameworkTime)
        ensures
            r.nanoseconds == nanoseconds,
    {
        FrameworkTime { nanoseconds }
    }

    /// The reading that a system clock call stands for: `status` is zero when
    /// the call succeeded, and `seconds` and `subsecond_nanos` are what it
    /// filled in. A failed call gives the invalid time.
    pub fn from_clock_reading(status: i32, seconds: i64, subsecond_nanos: i64) -> (r: FrameworkTime)
        requires
            status == 0 ==> i64::MIN <= seconds * 1_000_000_000 <= i64::MAX,
            status == 0 ==> i64::MIN <= subsecond_nanos + seconds * 1_000_000_000 <= i64::MAX,
        ensures
            status == 0 ==> r.nanoseconds == subsecond_nanos + seconds * 1_000_000_000,
            status != 0 ==> r.nanoseconds == i64::MIN,
    {
        if status == 0 {
            let nanoseconds: i64 = subsecond_nanos + (seconds * 1_000_000_000);
            FrameworkTime::from_nanoseconds(nanoseconds)
        } else {
            FrameworkTime::invalid()
        }
    }

    pub fn to_nanoseconds(self) -> (r: i64)
        ensures
            r == self.nanoseconds,
    {
        self.nanoseconds
    }

    /// The span from `earlier` to this reading, unless `earlier` is later.
    pub fn checked_duration_since(&self, earlier: FrameworkTime) -> (r: Option<Duration>)
        requires
            i64::MIN <= self.nanoseconds - earlier.nanoseconds <= i64::MAX,
        ensures
            r is Some <==> earlier.nanoseconds <= self.nanoseconds,
            r matches Some(d) ==> d.nanoseconds == self.nanoseconds - earlier.nanoseconds,
    {
        let difference_ns: i64 = self.to_nanoseconds() - earlier.to_nanoseconds();
        if difference_ns >= 0 {
            Some(Duration::from_nanos(difference_ns as u64))
        } else {
            None
        }
    }

    /// The reading `rhs` later, held down to the clock's greatest reading.
    pub fn saturating_add(self, rhs: Duration) -> (r: FrameworkTime)
        ensures
            r == saturated_time_after(self, rhs),
    {
        if rhs.nanoseconds > i64::MAX as u128 {
            return FrameworkTime::max_value();
        }
        match self.nanoseconds.checked_add(rhs.nanoseconds as i64) {
            Some(nanoseconds) => FrameworkTime { nanoseconds },
            None => FrameworkTime::max_value(),
        }
    }

    /// The reading as text: the number of nanoseconds, then the unit.
    pub fn to_string(&self) -> (r: String)
        ensures
            r@ == crate::text::signed_decimal(self.nanoseconds as int) + "ns"@,
    {
        let mut text = String::new();
        push_signed_decimal(&mut text, self.nanoseconds);
        text.append("ns");
        assert(text@ =~= crate::text::signed_decimal(self.nanoseconds as int) + "ns"@);
        text
    }
}

impl AddSpecImpl<Duration> for FrameworkTime {
    open spec fn obeys_add_spec() -> bool {
        true
    }

    open spec fn add_req(self, rhs: Duration) -> bool {
        time_after(self, rhs) <= i64::MAX
    }

    open spec fn add_spec(self, rhs: Duration) -> FrameworkTime {
        FrameworkTime { nanoseconds: time_after(self, rhs) as i64 }
    }
}

impl Add<Duration> for FrameworkTime {
    type Output = FrameworkTime;

    fn add(self, rhs: Duration) -> (r: FrameworkTime) {
        let rhs_nanos: u128 = rhs.as_nanos();
        if rhs_nanos > i64::MAX as u128 {
            return FrameworkTime::max_value();
        }
        let sum_nanos: i64 = self.to_nanoseconds() + rhs_nanos as i64;
        FrameworkTime::from_nanoseconds(sum_nanos)
    }
}

impl FrameworkTime {
    /// Moves this reading `rhs` later.
    pub fn advance(&mut self, rhs: Duration)
        requires
            time_after(*old(self), rhs) <= i64::MAX,
        ensures
            final(self).nanoseconds == time_after(*old(self), rhs),
    {
        self.nanoseconds = self.add(rhs).nanoseconds;
    }
}

/// A time cell with the operations of an atomic: every operation hands the
/// value over whole.
///
/// Convention: the invalid time is the "no time" sentinel.
#[derive(Debug)]
pub struct AtomicFrameworkTime {
    pub time: FrameworkTime,
}

impl AtomicFrameworkTime {
    pub fn new(time: FrameworkTime) -> (r: Self)
        ensures
            r.time == time,
    {
        AtomicFrameworkTime { time }
    }

    pub fn from_nanoseconds(nanoseconds: i64) -> (r: Self)
        ensures
            r.time.nanoseconds == nanoseconds,
    {
        AtomicFrameworkTime { time: FrameworkTime::from_nanoseconds(nanoseconds) }
    }

    pub fn load(&self, ordering: Ordering) -> (r: FrameworkTime)
        ensures
            r == self.time,
    {
        self.time
    }

    pub fn store(&mut self, time: FrameworkTime, ordering: Ordering)
        ensures
            final(self).time == time,
    {
        self.time = time;
    }

    /// Stores `time` and hands back what was there.
    pub fn swap(&mut self, time: FrameworkTime, ordering: Ordering) -> (r: FrameworkTime)
        ensures
            r == old(self).time,
            final(self).time == time,
    {
        let previous = self.time;
        self.time = time;
        previous
    }
}

impl Default for AtomicFrameworkTime {
    fn default() -> (r: Self)
        ensures
            r.time.nanoseconds == 0,
    {
        AtomicFrameworkTime::from_nanoseconds(0)
    }
}

impl FromSpecImpl<FrameworkTime> for AtomicFrameworkTime {
    open spec fn obeys_from_spec() -> bool {
        true
    }

    open spec fn from_spec(time: FrameworkTime) -> AtomicFrameworkTime {
        AtomicFrameworkTime { time }
    }
}

impl From<FrameworkTime> for AtomicFrameworkTime {
    fn from(time: FrameworkTime) -> (r: Self) {
        AtomicFrameworkTime::new(time)
    }
}

/// Adding a span and then asking for the span since gives the span back.
pub proof fn law_duration_since_undoes_add(time: FrameworkTime, rhs: Duration)
    requires
        rhs.nanoseconds <= i64::MAX,
    ensures
        time_after(time, rhs) - time.nanoseconds == rhs.nanoseconds,
{
}

/// Adding a span never moves a reading back.
pub proof fn law_add_is_monotone(time: FrameworkTime, rhs: Duration)
    ensures
        saturated_time_after(time, rhs).nanoseconds >= time.nanoseconds,
{
}

} // verus!
