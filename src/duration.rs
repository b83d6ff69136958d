//! Signed spans of time counted in seconds, with no calendar meaning: a day
//! is always 86400 seconds here.

use core::cmp::Ordering;
use vstd::prelude::*;

verus! {

/// A signed number of seconds.
#[derive(Debug, Clone, Copy, PartialEq, Eq, Structural)]
pub struct Duration {
    pub seconds: i64,
}

impl Duration {
    pub fn from_seconds(seconds: i64) -> (r: Duration)
        ensures
            r.seconds == seconds,
    {
        Duration { seconds }
    }

    pub fn from_minutes(minutes: i64) -> (r: Duration)
        requires
            i64::MIN <= minutes * 60 <= i64::MAX,
        ensures
            r.seconds == minutes * 60,
    {
        Duration { seconds: minutes * 60 }
    }

    pub fn from_hours(hours: i64) -> (r: Duration)
        requires
            i64::MIN <= hours * 3600 <= i64::MAX,
        ensures
            r.seconds == hours * 3600,
    {
        Duration { seconds: hours * 3600 }
    }

    pub fn from_days(days: i64) -> (r: Duration)
        requires
            i64::MIN <= days * 86400 <= i64::MAX,
        ensures
            r.seconds == days * 86400,
    {
        Duration { seconds: days * 86400 }
    }

    pub fn to_seconds(&self) -> (r: i64)
        ensures
            r == self.seconds,
    {
        self.seconds
    }

    /// The sum of two spans, or `None` where it leaves the `i64` range.
    pub fn checked_add(self, other: Duration) -> (r: Option<Duration>)
        ensures
            r is Some <==> i64::MIN <= self.seconds + other.seconds <= i64::MAX,
            r matches Some(d) ==> d.seconds == self.seconds + other.seconds,
    {
        match self.seconds.checked_add(other.seconds) {
            Some(s) => Some(Duration { seconds: s }),
            None => None,
        }
    }

    /// The difference of two spans, or `None` where it leaves the `i64` range.
    pub fn checked_sub(self, other: Duration) -> (r: Option<Duration>)
        ensures
            r is Some <==> i64::MIN <= self.seconds - other.seconds <= i64::MAX,
            r matches Some(d) ==> d.seconds == self.seconds - other.seconds,
    {
        match self.seconds.checked_sub(other.seconds) {
            Some(s) => Some(Duration { seconds: s }),
            None => None,
        }
    }
}

impl PartialOrd for Duration {
    fn partial_cmp(&self, other: &Duration) -> (r: Option<Ordering>) {
        if self.seconds < other.seconds {
            Some(Ordering::Less)
        } else if self.seconds == other.seconds {
            Some(Ordering::Equal)
        } else {
            Some(Ordering::Greater)
        }
    }
}

impl vstd::std_specs::cmp::PartialOrdSpecImpl for Duration {
    open spec fn obeys_partial_cmp_spec() -> bool {
        true
    }

    open spec fn partial_cmp_spec(&self, other: &Duration) -> Option<Ordering> {
        if self.seconds < other.seconds {
            Some(Ordering::Less)
        } else if self.seconds == other.seconds {
            Some(Ordering::Equal)
        } else {
            Some(Ordering::Greater)
        }
    }
}

} // verus!
