//! Civil UTC instants on the proleptic Gregorian calendar.
//!
//! Time slots of the token allocation schedule are wall-clock instants. The
//! model here is a plain record of calendar fields together with spec-level
//! calendar arithmetic: day-of-year, epoch day numbers and Unix timestamps.

use vstd::prelude::*;

verus! {

/// Days from 0001-01-01 to 1970-01-01 in the proleptic Gregorian calendar.
pub const EPOCH_DAYS: i64 = 719162;

/// A UTC instant broken into calendar fields.
///
/// Ordering of instants is by `(timestamp, nanosecond)`; see [`DateTimeUtc::spec_le`].
#[derive(Clone, Copy, Debug, PartialEq, Eq, Structural)]
pub struct DateTimeUtc {
    pub year: i64,
    pub month: u32,
    pub day: u32,
    pub hour: u32,
    pub minute: u32,
    pub second: u32,
    pub nanosecond: u32,
}

/// Whether `y` is a leap year in the proleptic Gregorian calendar.
pub open spec fn spec_is_leap_year(y: int) -> bool {
    (y % 4 == 0 && y % 100 != 0) || y % 400 == 0
}

/// Number of days in month `m` of year `y`.
pub open spec fn spec_days_in_month(y: int, m: int) -> int {
    if m == 2 {
        if spec_is_leap_year(y) {
            29
        } else {
            28
        }
    } else if m == 4 || m == 6 || m == 9 || m == 11 {
        30
    } else {
        31
    }
}

/// Days of year `y` that precede the first day of month `m`.
pub open spec fn spec_days_before_month(y: int, m: int) -> int {
    (if m > 1 { 31int } else { 0int }) + (if m > 2 { spec_days_in_month(y, 2) } else { 0 })
        + (if m > 3 { 31int } else { 0int }) + (if m > 4 { 30int } else { 0int })
        + (if m > 5 { 31int } else { 0int }) + (if m > 6 { 30int } else { 0int })
        + (if m > 7 { 31int } else { 0int }) + (if m > 8 { 31int } else { 0int })
        + (if m > 9 { 30int } else { 0int }) + (if m > 10 { 31int } else { 0int })
        + (if m > 11 { 30int } else { 0int })
}

/// One-based ordinal of the calendar date `(y, m, d)` within year `y`.
pub open spec fn spec_day_of_year(y: int, m: int, d: int) -> int {
    spec_days_before_month(y, m) + d
}

/// Number of days in year `y`.
pub open spec fn spec_year_len(y: int) -> int {
    if spec_is_leap_year(y) {
        366
    } else {
        365
    }
}

/// Days that precede January 1 of year `y`, counted from 0001-01-01 (day 0).
pub open spec fn spec_days_before_year(y: int) -> int {
    365 * (y - 1) + (y - 1) / 4 - (y - 1) / 100 + (y - 1) / 400
}

impl DateTimeUtc {
    /// The calendar fields denote an actual instant: a real Gregorian date
    /// within the supported year range and in-range time-of-day fields.
    pub open spec fn well_formed(self) -> bool {
        &&& 1 <= self.year <= 9999
        &&& 1 <= self.month <= 12
        &&& 1 <= self.day <= spec_days_in_month(self.year as int, self.month as int)
        &&& self.hour <= 23
        &&& self.minute <= 59
        &&& self.second <= 59
        &&& self.nanosecond <= 999_999_999
    }

    /// One-based ordinal of this instant's date within its year.
    pub open spec fn spec_day_of_year(self) -> int {
        spec_day_of_year(self.year as int, self.month as int, self.day as int)
    }

    /// Days since 1970-01-01 of this instant's date (negative before the epoch).
    pub open spec fn spec_day_number(self) -> int {
        spec_days_before_year(self.year as int) + self.spec_day_of_year() - 1 - EPOCH_DAYS
    }

    /// Whole seconds since the Unix epoch, ignoring the nanosecond field.
    pub open spec fn spec_timestamp(self) -> int {
        self.spec_day_number() * 86400 + self.hour * 3600 + self.minute * 60 + self.second
    }

    /// Instant order: by timestamp, then by nanosecond.
    pub open spec fn spec_le(self, other: Self) -> bool {
        self.spec_timestamp() < other.spec_timestamp() || (self.spec_timestamp()
            == other.spec_timestamp() && self.nanosecond <= other.nanosecond)
    }

    /// Strict instant order.
    pub open spec fn spec_lt(self, other: Self) -> bool {
        self.spec_le(other) && self != other
    }

    /// Strict order of the underlying instants: earlier timestamp, or equal
    /// timestamp and smaller nanosecond.
    pub open spec fn spec_instant_lt(self, other: Self) -> bool {
        self.spec_timestamp() < other.spec_timestamp() || (self.spec_timestamp()
            == other.spec_timestamp() && self.nanosecond < other.nanosecond)
    }

    /// The two values denote the same instant: equal timestamp and
    /// nanosecond.
    pub open spec fn spec_same_instant(self, other: Self) -> bool {
        self.spec_timestamp() == other.spec_timestamp() && self.nanosecond == other.nanosecond
    }

    /// Strict order of the underlying instants.
    pub fn instant_lt(&self, other: &DateTimeUtc) -> (r: bool)
        requires
            self.well_formed(),
            other.well_formed(),
        ensures
            r == self.spec_instant_lt(*other),
    {
        let a = self.timestamp();
        let b = other.timestamp();
        a < b || (a == b && self.nanosecond < other.nanosecond)
    }

    /// Validating constructor: `Some` exactly when the fields denote an
    /// actual instant, which is then carried unchanged.
    pub fn new(year: i64, month: u32, day: u32, hour: u32, minute: u32, second: u32, nanosecond: u32) -> (r: Option<
        DateTimeUtc,
    >)
        ensures
            ({
                let dt = DateTimeUtc { year, month, day, hour, minute, second, nanosecond };
                &&& r is Some <==> dt.well_formed()
                &&& r is Some ==> r == Some(dt)
            }),
    {
        let dt = DateTimeUtc { year, month, day, hour, minute, second, nanosecond };
        let ok = 1 <= year && year <= 9999 && 1 <= month && month <= 12 && 1 <= day && day
            <= days_in_month(year, month) && hour <= 23 && minute <= 59 && second <= 59
            && nanosecond <= 999_999_999;
        if ok {
            Some(dt)
        } else {
            None
        }
    }

    /// Midnight constructor for a plain calendar date.
    pub fn from_ymd(year: i64, month: u32, day: u32) -> (r: Option<DateTimeUtc>)
        ensures
            ({
                let dt = DateTimeUtc { year, month, day, hour: 0, minute: 0, second: 0, nanosecond: 0 };
                &&& r is Some <==> dt.well_formed()
                &&& r is Some ==> r == Some(dt)
            }),
    {
        DateTimeUtc::new(year, month, day, 0, 0, 0, 0)
    }

    /// One-based ordinal of this instant's date within its year.
    pub fn day_of_year(&self) -> (r: i64)
        requires
            self.well_formed(),
        ensures
            r == self.spec_day_of_year(),
    {
        days_before_month(self.year, self.month) + self.day as i64
    }

    /// Whole seconds since the Unix epoch, ignoring the nanosecond field.
    pub fn timestamp(&self) -> (r: i64)
        requires
            self.well_formed(),
        ensures
            r == self.spec_timestamp(),
    {
        let dn = days_before_year(self.year) + self.day_of_year() - 1 - EPOCH_DAYS;
        dn * 86400 + (self.hour as i64) * 3600 + (self.minute as i64) * 60 + self.second as i64
    }

    /// Instant order: by timestamp, then by nanosecond.
    pub fn le(&self, other: &DateTimeUtc) -> (r: bool)
        requires
            self.well_formed(),
            other.well_formed(),
        ensures
            r == self.spec_le(*other),
    {
        let a = self.timestamp();
        let b = other.timestamp();
        a < b || (a == b && self.nanosecond <= other.nanosecond)
    }
}

impl DateTimeUtc {
    /// Midnight of the day after this instant's date.
    pub fn next_day_midnight(&self) -> (r: DateTimeUtc)
        requires
            self.well_formed(),
            self.year < 9999 || !(self.month == 12 && self.day == 31),
        ensures
            r.well_formed(),
            r.spec_day_number() == self.spec_day_number() + 1,
            r.hour == 0 && r.minute == 0 && r.second == 0 && r.nanosecond == 0,
    {
        proof {
            lemma_days_before_year_succ(self.year as int);
        }
        if self.day < days_in_month(self.year, self.month) {
            DateTimeUtc {
                year: self.year,
                month: self.month,
                day: self.day + 1,
                hour: 0,
                minute: 0,
                second: 0,
                nanosecond: 0,
            }
        } else if self.month < 12 {
            DateTimeUtc {
                year: self.year,
                month: self.month + 1,
                day: 1,
                hour: 0,
                minute: 0,
                second: 0,
                nanosecond: 0,
            }
        } else {
            DateTimeUtc {
                year: self.year + 1,
                month: 1,
                day: 1,
                hour: 0,
                minute: 0,
                second: 0,
                nanosecond: 0,
            }
        }
    }

    /// Midnight of the date of year `y` with the given one-based ordinal.
    pub fn from_yearday(y: i64, doy: i64) -> (r: DateTimeUtc)
        requires
            1 <= y <= 9999,
            1 <= doy <= spec_year_len(y as int),
        ensures
            r.well_formed(),
            r.year == y,
            r.spec_day_of_year() == doy,
            r.hour == 0 && r.minute == 0 && r.second == 0 && r.nanosecond == 0,
    {
        let mut m: u32 = 1;
        let mut rest: i64 = doy;
        while m < 12 && rest > days_in_month(y, m) as i64
            invariant
                1 <= y <= 9999,
                1 <= m <= 12,
                rest == doy - spec_days_before_month(y as int, m as int),
                1 <= rest,
                doy <= spec_year_len(y as int),
            decreases 12 - m,
        {
            rest = rest - days_in_month(y, m) as i64;
            m = m + 1;
        }
        proof {
            if m == 12 {
                assert(spec_days_before_month(y as int, 12) == spec_year_len(y as int) - 31);
            }
        }
        DateTimeUtc {
            year: y,
            month: m,
            day: rest as u32,
            hour: 0,
            minute: 0,
            second: 0,
            nanosecond: 0,
        }
    }
}

impl DateTimeUtc {
    /// The same instant moved forward a whole number of days, keeping the
    /// time of day.
    pub fn plus_days(&self, n: u32) -> (r: DateTimeUtc)
        requires
            self.well_formed(),
            self.year < 9999,
            n <= 365,
        ensures
            r.well_formed(),
            r.spec_day_number() == self.spec_day_number() + n,
            r.hour == self.hour && r.minute == self.minute && r.second == self.second
                && r.nanosecond == self.nanosecond,
    {
        proof {
            lemma_doy_bounds(*self);
            lemma_days_before_year_succ(self.year as int);
        }
        let doy2 = self.day_of_year() + n as i64;
        let yl = year_len(self.year);
        let date = if doy2 <= yl {
            DateTimeUtc::from_yearday(self.year, doy2)
        } else {
            DateTimeUtc::from_yearday(self.year + 1, doy2 - yl)
        };
        DateTimeUtc {
            year: date.year,
            month: date.month,
            day: date.day,
            hour: self.hour,
            minute: self.minute,
            second: self.second,
            nanosecond: self.nanosecond,
        }
    }

    /// The same instant moved backward a whole number of days, keeping the
    /// time of day.
    pub fn minus_days(&self, n: u32) -> (r: DateTimeUtc)
        requires
            self.well_formed(),
            self.year > 1,
            n <= 365,
        ensures
            r.well_formed(),
            r.spec_day_number() == self.spec_day_number() - n,
            r.hour == self.hour && r.minute == self.minute && r.second == self.second
                && r.nanosecond == self.nanosecond,
    {
        proof {
            lemma_doy_bounds(*self);
            lemma_days_before_year_succ(self.year as int - 1);
        }
        let doy2 = self.day_of_year() - n as i64;
        let date = if doy2 >= 1 {
            DateTimeUtc::from_yearday(self.year, doy2)
        } else {
            let yl_prev = year_len(self.year - 1);
            DateTimeUtc::from_yearday(self.year - 1, doy2 + yl_prev)
        };
        DateTimeUtc {
            year: date.year,
            month: date.month,
            day: date.day,
            hour: self.hour,
            minute: self.minute,
            second: self.second,
            nanosecond: self.nanosecond,
        }
    }

    /// The same instant moved forward `n` minutes, keeping second and
    /// nanosecond.
    pub fn plus_minutes(&self, n: u32) -> (r: DateTimeUtc)
        requires
            self.well_formed(),
            self.year < 9999,
            n <= 1440,
        ensures
            r.well_formed(),
            r.spec_timestamp() == self.spec_timestamp() + 60 * n,
            r.second == self.second && r.nanosecond == self.nanosecond,
    {
        let total = self.hour * 60 + self.minute + n;
        let (date, rest) = if total < 1440 {
            (*self, total)
        } else {
            (self.plus_days(1), total - 1440)
        };
        proof {
            vstd::arithmetic::div_mod::lemma_fundamental_div_mod(rest as int, 60);
        }
        DateTimeUtc {
            year: date.year,
            month: date.month,
            day: date.day,
            hour: rest / 60,
            minute: rest % 60,
            second: self.second,
            nanosecond: self.nanosecond,
        }
    }

    /// The same instant moved backward `n` minutes, keeping second and
    /// nanosecond.
    pub fn minus_minutes(&self, n: u32) -> (r: DateTimeUtc)
        requires
            self.well_formed(),
            self.year > 1,
            n <= 1440,
        ensures
            r.well_formed(),
            r.spec_timestamp() == self.spec_timestamp() - 60 * n,
            r.second == self.second && r.nanosecond == self.nanosecond,
    {
        let mins = self.hour * 60 + self.minute;
        let (date, rest) = if n <= mins {
            (*self, mins - n)
        } else {
            (self.minus_days(1), mins + 1440 - n)
        };
        proof {
            vstd::arithmetic::div_mod::lemma_fundamental_div_mod(rest as int, 60);
        }
        DateTimeUtc {
            year: date.year,
            month: date.month,
            day: date.day,
            hour: rest / 60,
            minute: rest % 60,
            second: self.second,
            nanosecond: self.nanosecond,
        }
    }
}

/// A well-formed date's ordinal within its year lies in `[1, year_len]`.
pub proof fn lemma_doy_bounds(dt: DateTimeUtc)
    requires
        dt.well_formed(),
    ensures
        1 <= dt.spec_day_of_year() <= spec_year_len(dt.year as int),
{
}

/// Later years begin at least 365 days per year later.
pub proof fn lemma_days_before_year_monotone(y1: int, y2: int)
    requires
        1 <= y1 <= y2,
    ensures
        spec_days_before_year(y2) >= spec_days_before_year(y1) + 365 * (y2 - y1),
    decreases y2 - y1,
{
    if y2 > y1 {
        lemma_days_before_year_monotone(y1, y2 - 1);
        lemma_days_before_year_succ(y2 - 1);
    }
}

/// Consecutive years differ in their day count by exactly the year's length.
pub proof fn lemma_days_before_year_succ(y: int)
    requires
        1 <= y,
    ensures
        spec_days_before_year(y + 1) == spec_days_before_year(y) + spec_year_len(y),
{
    lemma_div_succ(y, 4);
    lemma_div_succ(y, 100);
    lemma_div_succ(y, 400);
}

/// `n / d` steps up by one exactly at multiples of `d`.
proof fn lemma_div_succ(n: int, d: int)
    requires
        0 <= n,
        1 <= d,
    ensures
        n % d == 0 ==> n / d == (n - 1) / d + 1,
        n % d != 0 ==> n / d == (n - 1) / d,
{
    vstd::arithmetic::div_mod::lemma_fundamental_div_mod(n, d);
    let q = n / d;
    let r = n % d;
    if r == 0 {
        assert(n - 1 == (q - 1) * d + (d - 1)) by (nonlinear_arith)
            requires
                n == d * q + r,
                r == 0,
        ;
        vstd::arithmetic::div_mod::lemma_fundamental_div_mod_converse_div(n - 1, d, q - 1, d - 1);
    } else {
        assert(n - 1 == q * d + (r - 1)) by (nonlinear_arith)
            requires
                n == d * q + r,
        ;
        vstd::arithmetic::div_mod::lemma_fundamental_div_mod_converse_div(n - 1, d, q, r - 1);
    }
}

/// Whether `y` is a leap year in the proleptic Gregorian calendar.
pub fn is_leap_year(y: i64) -> (r: bool)
    requires
        0 <= y,
    ensures
        r == spec_is_leap_year(y as int),
{
    (y % 4 == 0 && y % 100 != 0) || y % 400 == 0
}

/// Number of days in month `m` of year `y`.
pub fn days_in_month(y: i64, m: u32) -> (r: u32)
    requires
        0 <= y,
    ensures
        r == spec_days_in_month(y as int, m as int),
{
    if m == 2 {
        if is_leap_year(y) {
            29
        } else {
            28
        }
    } else if m == 4 || m == 6 || m == 9 || m == 11 {
        30
    } else {
        31
    }
}

/// Days of year `y` that precede the first day of month `m`.
pub fn days_before_month(y: i64, m: u32) -> (r: i64)
    requires
        0 <= y,
        1 <= m <= 12,
    ensures
        r == spec_days_before_month(y as int, m as int),
{
    let feb: i64 = if is_leap_year(y) {
        29
    } else {
        28
    };
    let mut total: i64 = 0;
    if m > 1 {
        total = total + 31;
    }
    if m > 2 {
        total = total + feb;
    }
    if m > 3 {
        total = total + 31;
    }
    if m > 4 {
        total = total + 30;
    }
    if m > 5 {
        total = total + 31;
    }
    if m > 6 {
        total = total + 30;
    }
    if m > 7 {
        total = total + 31;
    }
    if m > 8 {
        total = total + 31;
    }
    if m > 9 {
        total = total + 30;
    }
    if m > 10 {
        total = total + 31;
    }
    if m > 11 {
        total = total + 30;
    }
    total
}

/// Number of days in year `y`.
pub fn year_len(y: i64) -> (r: i64)
    requires
        0 <= y,
    ensures
        r == spec_year_len(y as int),
{
    if is_leap_year(y) {
        366
    } else {
        365
    }
}

/// Days that precede January 1 of year `y`, counted from 0001-01-01 (day 0).
pub fn days_before_year(y: i64) -> (r: i64)
    requires
        1 <= y <= 9999,
    ensures
        r == spec_days_before_year(y as int),
{
    365 * (y - 1) + (y - 1) / 4 - (y - 1) / 100 + (y - 1) / 400
}

} // verus!
