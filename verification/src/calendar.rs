//! The proleptic Gregorian calendar over years 0 to 9999, and the
//! `Timestamp` type both timestamp codec directions work on.  `day_number`
//! counts days from 0000-01-01 and is the mathematical model against which
//! day stepping is proved.

use vstd::prelude::*;

verus! {

/// A point in time with nanosecond resolution, held as a civil date and
/// clock time in UTC.
#[derive(Debug, Clone, Copy, PartialEq, Eq, Structural, Hash)]
pub struct Timestamp {
    pub year: u16,
    pub month: u8,
    pub day: u8,
    pub hour: u8,
    pub minute: u8,
    pub second: u8,
    pub nanos: u32,
}

/// Gregorian leap-year rule.
pub open spec fn is_leap_year(y: int) -> bool {
    (y % 4 == 0 && y % 100 != 0) || y % 400 == 0
}

/// Days in month `m` of year `y`, for `1 <= m <= 12`.
pub open spec fn days_in_month(y: int, m: int) -> int {
    if m == 2 {
        if is_leap_year(y) {
            29
        } else {
            28
        }
    } else if m == 4 || m == 6 || m == 9 || m == 11 {
        30
    } else {
        31
    }
}

/// Days in year `y`.
pub open spec fn days_in_year(y: int) -> int {
    if is_leap_year(y) {
        366
    } else {
        365
    }
}

/// Days of year `y` that precede month `m`.
pub open spec fn days_before_month(y: int, m: int) -> int
    decreases m,
{
    if m <= 1 {
        0
    } else {
        days_before_month(y, m - 1) + days_in_month(y, m - 1)
    }
}

/// Days that precede year `y`, counted from year 0.
pub open spec fn days_before_year(y: int) -> int
    decreases y,
{
    if y <= 0 {
        0
    } else {
        days_before_year(y - 1) + days_in_year(y - 1)
    }
}

/// Days since 0000-01-01 of the civil date `y`-`m`-`d`.
pub open spec fn day_number(y: int, m: int, d: int) -> int {
    days_before_year(y) + days_before_month(y, m) + (d - 1)
}

/// `y`-`m`-`d` is a civil date with a four-digit year.
pub open spec fn valid_date(y: int, m: int, d: int) -> bool {
    0 <= y <= 9999 && 1 <= m <= 12 && 1 <= d <= days_in_month(y, m)
}

/// The civil date one day before `y`-`m`-`d`.
pub open spec fn prev_date(y: int, m: int, d: int) -> (int, int, int) {
    if d > 1 {
        (y, m, d - 1)
    } else if m > 1 {
        (y, m - 1, days_in_month(y, m - 1))
    } else {
        (y - 1, 12, 31)
    }
}

/// The civil date one day after `y`-`m`-`d`.
pub open spec fn next_date(y: int, m: int, d: int) -> (int, int, int) {
    if d < days_in_month(y, m) {
        (y, m, d + 1)
    } else if m < 12 {
        (y, m + 1, 1)
    } else {
        (y + 1, 1, 1)
    }
}

impl Timestamp {
    /// The fields form a civil date in years 0 to 9999 with a clock time and
    /// a sub-second part below one second.
    pub open spec fn valid(self) -> bool {
        &&& valid_date(self.year as int, self.month as int, self.day as int)
        &&& self.hour <= 23
        &&& self.minute <= 59
        &&& self.second <= 59
        &&& self.nanos <= 999_999_999
    }

    /// Seconds since 0000-01-01T00:00:00, ignoring the sub-second part: the
    /// instant this timestamp denotes.
    pub open spec fn civil_secs(self) -> int {
        day_number(self.year as int, self.month as int, self.day as int) * 86400
            + self.hour as int * 3600 + self.minute as int * 60 + self.second as int
    }
}

/// The whole year is the sum of its months.
pub proof fn lemma_months_fill_year(y: int)
    ensures
        days_before_month(y, 13) == days_in_year(y),
{
    reveal_with_fuel(days_before_month, 14);
}

/// Stepping a valid date forward moves `day_number` up by one, and lands on
/// a valid date when the year stays in range.
pub proof fn lemma_next_date_day_number(y: int, m: int, d: int)
    requires
        valid_date(y, m, d),
    ensures
        ({
            let (ny, nm, nd) = next_date(y, m, d);
            &&& day_number(ny, nm, nd) == day_number(y, m, d) + 1
            &&& ny <= 10000
            &&& ny <= 9999 ==> valid_date(ny, nm, nd)
        }),
{
    if d < days_in_month(y, m) {
    } else if m < 12 {
        assert(days_before_month(y, m + 1) == days_before_month(y, m) + days_in_month(y, m));
    } else {
        lemma_months_fill_year(y);
        assert(days_before_month(y, 13) == days_before_month(y, 12) + days_in_month(y, 12));
        assert(days_before_year(y + 1) == days_before_year(y) + days_in_year(y));
    }
}

/// Stepping a valid date backward moves `day_number` down by one, and lands
/// on a valid date when the year stays in range.
pub proof fn lemma_prev_date_day_number(y: int, m: int, d: int)
    requires
        valid_date(y, m, d),
    ensures
        ({
            let (py, pm, pd) = prev_date(y, m, d);
            &&& py >= -1
            &&& py >= 0 ==> day_number(py, pm, pd) == day_number(y, m, d) - 1
            &&& py >= 0 ==> valid_date(py, pm, pd)
        }),
{
    if d > 1 {
    } else if m > 1 {
        assert(days_before_month(y, m) == days_before_month(y, m - 1) + days_in_month(y, m - 1));
    } else {
        lemma_months_fill_year(y - 1);
        assert(days_before_month(y - 1, 13) == days_before_month(y - 1, 12) + days_in_month(
            y - 1,
            12,
        ));
        if y >= 1 {
            assert(days_before_year(y) == days_before_year(y - 1) + days_in_year(y - 1));
        }
    }
}

/// The number of days in the given month, executable form.
pub fn month_length(year: u16, month: u8) -> (d: u8)
    requires
        1 <= month <= 12,
    ensures
        d as int == days_in_month(year as int, month as int),
        28 <= d <= 31,
{
    if month == 2 {
        if (year % 4 == 0 && year % 100 != 0) || year % 400 == 0 {
            29
        } else {
            28
        }
    } else if month == 4 || month == 6 || month == 9 || month == 11 {
        30
    } else {
        31
    }
}

/// The civil date one day before, executable form.  The day before
/// 0000-01-01 has no four-digit year, so that date is excluded.
pub fn step_back(year: u16, month: u8, day: u8) -> (r: (u16, u8, u8))
    requires
        valid_date(year as int, month as int, day as int),
        !(year == 0 && month == 1 && day == 1),
    ensures
        (r.0 as int, r.1 as int, r.2 as int) == prev_date(year as int, month as int, day as int),
        valid_date(r.0 as int, r.1 as int, r.2 as int),
{
    proof {
        lemma_prev_date_day_number(year as int, month as int, day as int);
    }
    if day > 1 {
        (year, month, day - 1)
    } else if month > 1 {
        (year, month - 1, month_length(year, month - 1))
    } else {
        (year - 1, 12, 31)
    }
}

/// The civil date one day after, executable form.  The day after
/// 9999-12-31 has no four-digit year, so that date is excluded.
pub fn step_forward(year: u16, month: u8, day: u8) -> (r: (u16, u8, u8))
    requires
        valid_date(year as int, month as int, day as int),
        !(year == 9999 && month == 12 && day == 31),
    ensures
        (r.0 as int, r.1 as int, r.2 as int) == next_date(year as int, month as int, day as int),
        valid_date(r.0 as int, r.1 as int, r.2 as int),
{
    proof {
        lemma_next_date_day_number(year as int, month as int, day as int);
    }
    let ml = month_length(year, month);
    if day < ml {
        (year, month, day + 1)
    } else if month < 12 {
        (year, month + 1, 1)
    } else {
        (year + 1, 1, 1)
    }
}

} // verus!
