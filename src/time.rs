//! Calendar instants on a linear time axis counted in seconds from the
//! start of the epoch year, computed with plain integer arithmetic.

use core::cmp::Ordering;
use crate::duration::Duration;
use crate::text::{decimal, push_padded, zero_padded};
use vstd::string::*;
use vstd::prelude::*;

verus! {

/// First year of the linear time axis.
pub const EPOCH_YEAR: u32 = 1970;

/// Offset of the local clock from UTC: five and a half hours.
pub const UTC_OFFSET_SECONDS: u64 = 19800;

pub const SECONDS_PER_MINUTE: u64 = 60;

pub const SECONDS_PER_HOUR: u64 = 3600;

pub const SECONDS_PER_DAY: u64 = 86400;

/// Gregorian leap-year rule.
pub open spec fn is_leap(y: int) -> bool {
    (y % 4 == 0 && y % 100 != 0) || y % 400 == 0
}

pub open spec fn year_days(y: int) -> int {
    if is_leap(y) {
        366
    } else {
        365
    }
}

/// Length of month `m` (1 to 12) of year `y`.
pub open spec fn month_days(y: int, m: int) -> int {
    if m == 2 {
        if is_leap(y) {
            29
        } else {
            28
        }
    } else if m == 4 || m == 6 || m == 9 || m == 11 {
        30
    } else {
        31
    }
}

/// Days from the start of the epoch year to the start of year `y`.
pub open spec fn days_before_year(y: int) -> int
    decreases y - EPOCH_YEAR,
{
    if y <= EPOCH_YEAR {
        0
    } else {
        days_before_year(y - 1) + year_days(y - 1)
    }
}

/// Days from the start of year `y` to the start of its month `m`.
pub open spec fn days_before_month(y: int, m: int) -> int
    decreases m,
{
    if m <= 1 {
        0
    } else {
        days_before_month(y, m - 1) + month_days(y, m - 1)
    }
}

/// Largest second count that an instant with a `u32` year can reach.
pub open spec fn max_linear() -> int {
    days_before_year(u32::MAX as int + 1) * SECONDS_PER_DAY - 1
}

/// Every instant's second count fits in a `u64`.
pub proof fn lemma_max_linear_fits()
    ensures
        0 < max_linear() < u64::MAX,
{
    lemma_days_before_year_bounds(u32::MAX as int + 1);
}

/// Each year past the epoch adds 365 or 366 days.
pub proof fn lemma_days_before_year_bounds(y: int)
    requires
        y >= EPOCH_YEAR,
    ensures
        365 * (y - EPOCH_YEAR) <= days_before_year(y) <= 366 * (y - EPOCH_YEAR),
    decreases y - EPOCH_YEAR,
{
    if y > EPOCH_YEAR {
        lemma_days_before_year_bounds(y - 1);
    }
}

/// Later years start later.
pub proof fn lemma_days_before_year_monotonic(a: int, b: int)
    requires
        EPOCH_YEAR <= a <= b,
    ensures
        days_before_year(a) + (b - a) * 365 <= days_before_year(b),
    decreases b - a,
{
    if a < b {
        lemma_days_before_year_monotonic(a, b - 1);
    }
}

/// The twelve months fill the year exactly.
pub proof fn lemma_months_fill_year(y: int)
    ensures
        days_before_month(y, 13) == year_days(y),
        days_before_month(y, 1) == 0,
{
    reveal_with_fuel(days_before_month, 13);
}

/// Later months of one year start later.
pub proof fn lemma_days_before_month_monotonic(y: int, a: int, b: int)
    requires
        1 <= a <= b,
    ensures
        days_before_month(y, a) + (b - a) * 28 <= days_before_month(y, b),
    decreases b - a,
{
    if a < b {
        lemma_days_before_month_monotonic(y, a, b - 1);
    }
}

/// Whether the six fields name an existing second of the calendar.
pub open spec fn valid_fields(year: int, month: int, day: int, hour: int, minute: int, second: int) -> bool {
    &&& year >= EPOCH_YEAR
    &&& 1 <= month <= 12
    &&& 1 <= day <= month_days(year, month)
    &&& 0 <= hour <= 23
    &&& 0 <= minute <= 59
    &&& 0 <= second <= 59
}

/// Lexicographic order on (year, month, day, hour, minute, second).
pub open spec fn fields_before(a: Time, b: Time) -> bool {
    if a.year != b.year {
        a.year < b.year
    } else if a.month != b.month {
        a.month < b.month
    } else if a.day != b.day {
        a.day < b.day
    } else if a.hour != b.hour {
        a.hour < b.hour
    } else if a.minute != b.minute {
        a.minute < b.minute
    } else {
        a.second < b.second
    }
}

/// The valid instant that lies `n` seconds after the start of the epoch year.
pub open spec fn from_linear(n: int) -> Time {
    choose|t: Time| t.wf() && t.linear() == n
}

/// A valid instant lies inside its month and its year on the linear axis.
proof fn lemma_linear_within_month(t: Time)
    requires
        t.wf(),
    ensures
        (days_before_year(t.year as int) + days_before_month(t.year as int, t.month as int))
            * SECONDS_PER_DAY <= t.linear(),
        t.linear() < (days_before_year(t.year as int) + days_before_month(
            t.year as int,
            t.month as int + 1,
        )) * SECONDS_PER_DAY,
        t.linear() < days_before_year(t.year as int + 1) * SECONDS_PER_DAY,
        0 <= t.linear() <= max_linear(),
{
    let y = t.year as int;
    lemma_months_fill_year(y);
    lemma_days_before_month_monotonic(y, t.month as int + 1, 13);
    lemma_days_before_month_monotonic(y, 1, t.month as int);
    lemma_days_before_year_bounds(y);
    lemma_days_before_year_monotonic(y + 1, u32::MAX as int + 1);
}

proof fn lemma_before_implies_less(a: Time, b: Time)
    requires
        a.wf(),
        b.wf(),
        fields_before(a, b),
    ensures
        a.linear() < b.linear(),
{
    lemma_linear_within_month(a);
    lemma_linear_within_month(b);
    if a.year < b.year {
        lemma_days_before_year_monotonic(a.year as int + 1, b.year as int);
        lemma_days_before_month_monotonic(b.year as int, 1, b.month as int);
        lemma_months_fill_year(b.year as int);
    } else if a.year == b.year && a.month < b.month {
        lemma_days_before_month_monotonic(a.year as int, a.month as int + 1, b.month as int);
    }
}

/// Field order and linear order agree on valid instants, and so do equality
/// of fields and equality of second counts.
pub proof fn lemma_order_agrees(a: Time, b: Time)
    requires
        a.wf(),
        b.wf(),
    ensures
        fields_before(a, b) <==> a.linear() < b.linear(),
        a == b <==> a.linear() == b.linear(),
{
    if fields_before(a, b) {
        lemma_before_implies_less(a, b);
    } else if fields_before(b, a) {
        lemma_before_implies_less(b, a);
    }
}

/// Converting a valid instant to seconds and back gives the same instant.
pub proof fn lemma_round_trip(t: Time)
    requires
        t.wf(),
    ensures
        from_linear(t.linear()) == t,
        0 <= t.linear() <= max_linear(),
{
    lemma_linear_within_month(t);
    let u = from_linear(t.linear());
    lemma_order_agrees(t, u);
}

/// Short English name of month `m`.
pub open spec fn month_name(m: int) -> Seq<char> {
    if m == 1 {
        "Jan"@
    } else if m == 2 {
        "Feb"@
    } else if m == 3 {
        "Mar"@
    } else if m == 4 {
        "Apr"@
    } else if m == 5 {
        "May"@
    } else if m == 6 {
        "Jun"@
    } else if m == 7 {
        "Jul"@
    } else if m == 8 {
        "Aug"@
    } else if m == 9 {
        "Sept"@
    } else if m == 10 {
        "Oct"@
    } else if m == 11 {
        "Nov"@
    } else {
        "Dec"@
    }
}

/// `YYYY-Mon-DD hh:mm:ss`, numbers padded with zeros.
pub open spec fn display_of(t: Time) -> Seq<char> {
    zero_padded(decimal(t.year as nat), 4) + "-"@ + month_name(t.month as int) + "-"@
        + zero_padded(decimal(t.day as nat), 2) + " "@ + zero_padded(decimal(t.hour as nat), 2)
        + ":"@ + zero_padded(decimal(t.minute as nat), 2) + ":"@ + zero_padded(
        decimal(t.second as nat),
        2,
    )
}

/// Relies on std::time::SystemTime::elapsed, measured from UNIX_EPOCH, for the
/// whole seconds since 1970-01-01 00:00 UTC; `None` when the clock reads earlier.
#[verifier::external_body]
fn unix_clock_seconds() -> (r: Option<u64>) {
    std::time::UNIX_EPOCH.elapsed().ok().map(|d| d.as_secs())
}

/// Why a calendar value was refused.
#[derive(Debug, Clone, Copy, PartialEq, Eq, Structural)]
pub enum CalendarError {
    InvalidYear,
    InvalidMonth,
    InvalidDay,
    InvalidHour,
    InvalidMinute,
    InvalidSecond,
}

/// A calendar instant, to the second. Every instant that `new` and the
/// conversions give satisfies `wf`.
#[derive(Debug, Clone, Copy, PartialEq, Eq, Structural)]
pub struct Time {
    pub year: u32,
    pub month: u8,
    pub day: u8,
    pub hour: u8,
    pub minute: u8,
    pub second: u8,
}

impl Time {
    /// The fields name an existing second, in or after the epoch year.
    pub open spec fn wf(self) -> bool {
        valid_fields(
            self.year as int,
            self.month as int,
            self.day as int,
            self.hour as int,
            self.minute as int,
            self.second as int,
        )
    }

    /// Seconds from the start of the epoch year to this instant.
    pub open spec fn linear(self) -> int {
        (days_before_year(self.year as int) + days_before_month(self.year as int, self.month as int)
            + self.day - 1) * SECONDS_PER_DAY + self.hour * SECONDS_PER_HOUR + self.minute
            * SECONDS_PER_MINUTE + self.second
    }

    pub fn is_leap_year(year: u32) -> (r: bool)
        ensures
            r == is_leap(year as int),
    {
        (year % 4 == 0 && year % 100 != 0) || year % 400 == 0
    }

    /// Number of days in `month` of `year`.
    pub fn days_in_month(year: u32, month: u8) -> (r: u8)
        requires
            1 <= month <= 12,
        ensures
            r as int == month_days(year as int, month as int),
    {
        if month == 2 {
            if Time::is_leap_year(year) {
                29
            } else {
                28
            }
        } else if month == 4 || month == 6 || month == 9 || month == 11 {
            30
        } else {
            31
        }
    }

    /// Seconds in the whole of `year`.
    fn year_seconds(year: u32) -> (r: u64)
        ensures
            r == year_days(year as int) * SECONDS_PER_DAY,
    {
        if Time::is_leap_year(year) {
            366 * SECONDS_PER_DAY
        } else {
            365 * SECONDS_PER_DAY
        }
    }

    /// Seconds from the start of the epoch year to this instant.
    pub fn to_iso(&self) -> (r: u64)
        requires
            self.wf(),
        ensures
            r == self.linear(),
    {
        let mut days: u64 = 0;
        let mut y: u32 = EPOCH_YEAR;
        while y < self.year
            invariant
                EPOCH_YEAR <= y <= self.year,
                days == days_before_year(y as int),
            decreases self.year - y,
        {
            proof {
                lemma_days_before_year_bounds(y + 1);
            }
            days = days + if Time::is_leap_year(y) {
                366
            } else {
                365
            };
            y = y + 1;
        }
        proof {
            lemma_days_before_year_bounds(self.year as int);
        }
        let mut m: u8 = 1;
        while m < self.month
            invariant
                self.wf(),
                1 <= m <= self.month,
                days == days_before_year(self.year as int) + days_before_month(
                    self.year as int,
                    m as int,
                ),
                days_before_year(self.year as int) <= 366 * (self.year - EPOCH_YEAR),
            decreases self.month - m,
        {
            proof {
                lemma_months_fill_year(self.year as int);
                lemma_days_before_month_monotonic(self.year as int, m as int + 1, 13);
            }
            days = days + Time::days_in_month(self.year, m) as u64;
            m = m + 1;
        }
        proof {
            lemma_months_fill_year(self.year as int);
            lemma_days_before_month_monotonic(self.year as int, self.month as int + 1, 13);
        }
        days = days + self.day as u64 - 1;
        days * SECONDS_PER_DAY + self.hour as u64 * SECONDS_PER_HOUR + self.minute as u64
            * SECONDS_PER_MINUTE + self.second as u64
    }

    /// The instant `n` seconds after the start of the epoch year, or `None`
    /// where its year would not fit in a `u32`.
    pub fn checked_from_iso(n: u64) -> (r: Option<Time>)
        ensures
            r is Some <==> n <= max_linear(),
            r matches Some(t) ==> t.wf() && t.linear() == n,
    {
        let mut rem: u64 = n;
        let mut year: u32 = EPOCH_YEAR;
        while year < u32::MAX && rem >= Time::year_seconds(year)
            invariant
                EPOCH_YEAR <= year,
                rem + days_before_year(year as int) * SECONDS_PER_DAY == n,
            decreases rem,
        {
            rem = rem - Time::year_seconds(year);
            year = year + 1;
        }
        if rem >= Time::year_seconds(year) {
            return None;
        }
        proof {
            lemma_days_before_year_monotonic(year as int + 1, u32::MAX as int + 1);
        }
        let ghost rem_year = rem;
        let mut month: u8 = 1;
        proof {
            lemma_months_fill_year(year as int);
        }
        while rem >= Time::days_in_month(year, month) as u64 * SECONDS_PER_DAY
            invariant
                1 <= month <= 12,
                rem_year < year_days(year as int) * SECONDS_PER_DAY,
                rem + days_before_month(year as int, month as int) * SECONDS_PER_DAY == rem_year,
                days_before_month(year as int, 13) == year_days(year as int),
            decreases rem,
        {
            rem = rem - Time::days_in_month(year, month) as u64 * SECONDS_PER_DAY;
            month = month + 1;
        }
        let day = rem / SECONDS_PER_DAY;
        let secs = rem % SECONDS_PER_DAY;
        let hour = secs / SECONDS_PER_HOUR;
        let minute = secs % SECONDS_PER_HOUR / SECONDS_PER_MINUTE;
        let second = secs % SECONDS_PER_MINUTE;
        Some(
            Time {
                year,
                month,
                day: (day + 1) as u8,
                hour: hour as u8,
                minute: minute as u8,
                second: second as u8,
            },
        )
    }

    /// The instant `n` seconds after the start of the epoch year.
    pub fn from_iso(n: u64) -> (r: Time)
        requires
            n <= max_linear(),
        ensures
            r.wf(),
            r.linear() == n,
            r == from_linear(n as int),
    {
        let r = Time::checked_from_iso(n).unwrap();
        proof {
            let u = from_linear(n as int);
            lemma_order_agrees(r, u);
        }
        r
    }

    /// The last instant that a `u32` year can hold.
    pub fn latest() -> (r: Time)
        ensures
            r.wf(),
            r.linear() == max_linear(),
    {
        proof {
            lemma_months_fill_year(u32::MAX as int);
        }
        Time { year: u32::MAX, month: 12, day: 31, hour: 23, minute: 59, second: 59 }
    }

    /// The local instant for a reading of the system clock in whole seconds
    /// since 1970-01-01 00:00 UTC, shifted by the local offset; readings past
    /// the last representable instant stay at that instant.
    pub fn from_unix_seconds(secs: u64) -> (r: Time)
        ensures
            r.wf(),
            secs + UTC_OFFSET_SECONDS <= max_linear() ==> r == from_linear(
                secs + UTC_OFFSET_SECONDS,
            ),
            secs + UTC_OFFSET_SECONDS > max_linear() ==> r == from_linear(max_linear()),
    {
        let t = match secs.checked_add(UTC_OFFSET_SECONDS) {
            Some(n) => match Time::checked_from_iso(n) {
                Some(t) => t,
                None => Time::latest(),
            },
            None => Time::latest(),
        };
        proof {
            lemma_max_linear_fits();
            lemma_round_trip(t);
        }
        t
    }

    /// The current local instant. A clock that reads before 1970 is taken as
    /// reading 1970-01-01 00:00 UTC.
    pub fn now() -> (r: Time)
        ensures
            r.wf(),
    {
        match unix_clock_seconds() {
            Some(secs) => Time::from_unix_seconds(secs),
            None => Time::from_unix_seconds(0),
        }
    }

    /// This instant moved by `d`, or `None` where the result would fall
    /// before the epoch or after the last representable instant.
    pub fn checked_add(&self, d: Duration) -> (r: Option<Time>)
        requires
            self.wf(),
        ensures
            r is Some <==> 0 <= self.linear() + d.seconds <= max_linear(),
            r matches Some(t) ==> t == from_linear(self.linear() + d.seconds),
    {
        let n = self.to_iso() as i128 + d.to_seconds() as i128;
        if n < 0 || n > u64::MAX as i128 {
            proof {
                lemma_max_linear_fits();
            }
            return None;
        }
        match Time::checked_from_iso(n as u64) {
            Some(t) => {
                proof {
                    lemma_round_trip(t);
                }
                Some(t)
            },
            None => None,
        }
    }

    /// This instant moved back by `d`, or `None` where the result would fall
    /// before the epoch or after the last representable instant.
    pub fn checked_sub(&self, d: Duration) -> (r: Option<Time>)
        requires
            self.wf(),
        ensures
            r is Some <==> 0 <= self.linear() - d.seconds <= max_linear(),
            r matches Some(t) ==> t == from_linear(self.linear() - d.seconds),
    {
        let n = self.to_iso() as i128 - d.to_seconds() as i128;
        if n < 0 || n > u64::MAX as i128 {
            proof {
                lemma_max_linear_fits();
            }
            return None;
        }
        match Time::checked_from_iso(n as u64) {
            Some(t) => {
                proof {
                    lemma_round_trip(t);
                }
                Some(t)
            },
            None => None,
        }
    }

    fn month_name(month: u8) -> (r: &'static str)
        ensures
            r@ == month_name(month as int),
    {
        if month == 1 {
            "Jan"
        } else if month == 2 {
            "Feb"
        } else if month == 3 {
            "Mar"
        } else if month == 4 {
            "Apr"
        } else if month == 5 {
            "May"
        } else if month == 6 {
            "Jun"
        } else if month == 7 {
            "Jul"
        } else if month == 8 {
            "Aug"
        } else if month == 9 {
            "Sept"
        } else if month == 10 {
            "Oct"
        } else if month == 11 {
            "Nov"
        } else {
            "Dec"
        }
    }

    /// The instant as `YYYY-Mon-DD hh:mm:ss`.
    pub fn display(&self) -> (r: String)
        ensures
            r@ == display_of(*self),
    {
        let mut r = String::new();
        push_padded(&mut r, self.year as u64, 4);
        r.append("-");
        r.append(Time::month_name(self.month));
        r.append("-");
        push_padded(&mut r, self.day as u64, 2);
        r.append(" ");
        push_padded(&mut r, self.hour as u64, 2);
        r.append(":");
        push_padded(&mut r, self.minute as u64, 2);
        r.append(":");
        push_padded(&mut r, self.second as u64, 2);
        assert(r@ =~= display_of(*self));
        r
    }

    /// Builds an instant, refusing any field outside the calendar.
    pub fn new(year: u32, month: u8, day: u8, hour: u8, minute: u8, second: u8) -> (r: Result<
        Time,
        CalendarError,
    >)
        ensures
            r is Ok <==> valid_fields(
                year as int,
                month as int,
                day as int,
                hour as int,
                minute as int,
                second as int,
            ),
            r matches Ok(t) ==> t.wf() && t == (Time { year, month, day, hour, minute, second }),
            year < EPOCH_YEAR ==> r == Err::<Time, CalendarError>(CalendarError::InvalidYear),
            year >= EPOCH_YEAR && !(1 <= month <= 12) ==> r == Err::<Time, CalendarError>(
                CalendarError::InvalidMonth,
            ),
            year >= EPOCH_YEAR && 1 <= month <= 12 && !(1 <= day <= month_days(
                year as int,
                month as int,
            )) ==> r == Err::<Time, CalendarError>(CalendarError::InvalidDay),
            r == Err::<Time, CalendarError>(CalendarError::InvalidHour) <==> (year >= EPOCH_YEAR
                && 1 <= month <= 12 && 1 <= day <= month_days(year as int, month as int) && hour
                > 23),
            r == Err::<Time, CalendarError>(CalendarError::InvalidMinute) <==> (year >= EPOCH_YEAR
                && 1 <= month <= 12 && 1 <= day <= month_days(year as int, month as int) && hour
                <= 23 && minute > 59),
            r == Err::<Time, CalendarError>(CalendarError::InvalidSecond) <==> (year >= EPOCH_YEAR
                && 1 <= month <= 12 && 1 <= day <= month_days(year as int, month as int) && hour
                <= 23 && minute <= 59 && second > 59),
    {
        if year < EPOCH_YEAR {
            return Err(CalendarError::InvalidYear);
        }
        if month < 1 || month > 12 {
            return Err(CalendarError::InvalidMonth);
        }
        if day < 1 || day > Time::days_in_month(year, month) {
            return Err(CalendarError::InvalidDay);
        }
        if hour > 23 {
            return Err(CalendarError::InvalidHour);
        }
        if minute > 59 {
            return Err(CalendarError::InvalidMinute);
        }
        if second > 59 {
            return Err(CalendarError::InvalidSecond);
        }
        Ok(Time { year, month, day, hour, minute, second })
    }
}

impl PartialOrd for Time {
    fn partial_cmp(&self, other: &Time) -> (r: Option<Ordering>) {
        let a = (self.year, self.month, self.day, self.hour, self.minute, self.second);
        let b = (other.year, other.month, other.day, other.hour, other.minute, other.second);
        if a.0 != b.0 {
            if a.0 < b.0 {
                Some(Ordering::Less)
            } else {
                Some(Ordering::Greater)
            }
        } else if a.1 != b.1 {
            if a.1 < b.1 {
                Some(Ordering::Less)
            } else {
                Some(Ordering::Greater)
            }
        } else if a.2 != b.2 {
            if a.2 < b.2 {
                Some(Ordering::Less)
            } else {
                Some(Ordering::Greater)
            }
        } else if a.3 != b.3 {
            if a.3 < b.3 {
                Some(Ordering::Less)
            } else {
                Some(Ordering::Greater)
            }
        } else if a.4 != b.4 {
            if a.4 < b.4 {
                Some(Ordering::Less)
            } else {
                Some(Ordering::Greater)
            }
        } else if a.5 != b.5 {
            if a.5 < b.5 {
                Some(Ordering::Less)
            } else {
                Some(Ordering::Greater)
            }
        } else {
            Some(Ordering::Equal)
        }
    }
}

impl vstd::std_specs::cmp::PartialOrdSpecImpl for Time {
    open spec fn obeys_partial_cmp_spec() -> bool {
        true
    }

    open spec fn partial_cmp_spec(&self, other: &Time) -> Option<Ordering> {
        if fields_before(*self, *other) {
            Some(Ordering::Less)
        } else if *self == *other {
            Some(Ordering::Equal)
        } else {
            Some(Ordering::Greater)
        }
    }
}

} // verus!
