//! Dates, times of day and instants on the UTC timeline.
//!
//! A date is held as its Julian day number, so that day arithmetic is plain
//! integer arithmetic. Which day number a year, month and day make is said
//! here in full; working it out, and back, is left to the `time` crate.

use vstd::prelude::*;
use crate::weekday::Weekday;

verus! {

/// Julian day number of the first day of the year -9999.
pub const MIN_JULIAN_DAY: i32 = -1_930_999;

/// Julian day number of the last day of the year 9999.
pub const MAX_JULIAN_DAY: i32 = 5_373_484;

pub const MIN_YEAR: i32 = -9999;

pub const MAX_YEAR: i32 = 9999;

pub const NANOS_PER_SECOND: u64 = 1_000_000_000;

pub const NANOS_PER_MINUTE: u64 = 60_000_000_000;

pub const NANOS_PER_HOUR: u64 = 3_600_000_000_000;

pub const NANOS_PER_DAY: u64 = 86_400_000_000_000;

pub const SECONDS_PER_DAY: i32 = 86_400;

/// Leap years of the proleptic Gregorian calendar.
pub open spec fn is_leap_year(year: int) -> bool {
    year % 4 == 0 && (year % 100 != 0 || year % 400 == 0)
}

/// Length of a month; `month` counts from 1.
pub open spec fn days_in_month(year: int, month: int) -> int {
    if month == 2 {
        if is_leap_year(year) {
            29
        } else {
            28
        }
    } else if month == 4 || month == 6 || month == 9 || month == 11 {
        30
    } else {
        31
    }
}

/// The year, month and day that name a day of the supported calendar.
pub open spec fn is_calendar_date(year: int, month: int, day: int) -> bool {
    &&& MIN_YEAR <= year <= MAX_YEAR
    &&& 1 <= month <= 12
    &&& 1 <= day <= days_in_month(year, month)
}

/// Days from the first day of the year 1 to the first day of `year`: 365 for
/// each year between, and one more for each leap year among them.
pub open spec fn days_before_year(year: int) -> int {
    let y = year - 1;
    365 * y + y / 4 - y / 100 + y / 400
}

/// Days of `year` that lie before its month `month`.
pub open spec fn days_before_month(year: int, month: int) -> int {
    let common: int = if month <= 1 {
        0
    } else if month == 2 {
        31
    } else if month == 3 {
        59
    } else if month == 4 {
        90
    } else if month == 5 {
        120
    } else if month == 6 {
        151
    } else if month == 7 {
        181
    } else if month == 8 {
        212
    } else if month == 9 {
        243
    } else if month == 10 {
        273
    } else if month == 11 {
        304
    } else {
        334
    };
    if month > 2 && is_leap_year(year) {
        common + 1
    } else {
        common
    }
}

/// The number of days in `year`.
pub open spec fn days_in_year(year: int) -> int {
    if is_leap_year(year) {
        366
    } else {
        365
    }
}

/// The Julian day number of the calendar date `year`-`month`-`day`: the
/// days that came before it, counted from day 1,721,426, the first day of
/// the year 1.
pub open spec fn calendar_julian_day(year: int, month: int, day: int) -> int {
    1_721_425 + days_before_year(year) + days_before_month(year, month) + day
}

/// The year, month and day of the day with Julian day number `julian_day`:
/// the calendar date that has this day number.
pub open spec fn julian_calendar(julian_day: int) -> (int, int, int) {
    choose|c: (int, int, int)|
        is_calendar_date(c.0, c.1, c.2) && calendar_julian_day(c.0, c.1, c.2) == julian_day
}

/// A year is as long as the days from its first day to that of the next.
pub proof fn lemma_year_length(year: int)
    ensures
        days_before_year(year + 1) == days_before_year(year) + days_in_year(year),
{
    lemma_one_more_multiple(year, 4);
    lemma_one_more_multiple(year, 100);
    lemma_one_more_multiple(year, 400);
    assert(year % 100 == 0 ==> year % 4 == 0) by {
        lemma_multiple_of_multiple(year, 4, 25);
    }
    assert(year % 400 == 0 ==> year % 100 == 0) by {
        lemma_multiple_of_multiple(year, 100, 4);
    }
}

/// Up to `n` there is one multiple of `d` more than up to `n - 1` exactly
/// where `n` is one.
proof fn lemma_one_more_multiple(n: int, d: int)
    requires
        d > 0,
    ensures
        n / d - (n - 1) / d == if n % d == 0 {
            1int
        } else {
            0int
        },
{
    vstd::arithmetic::div_mod::lemma_fundamental_div_mod(n, d);
    vstd::arithmetic::div_mod::lemma_fundamental_div_mod(n - 1, d);
    vstd::arithmetic::div_mod::lemma_mod_bound(n, d);
    vstd::arithmetic::div_mod::lemma_mod_bound(n - 1, d);
    let q = n / d;
    let p = (n - 1) / d;
    assert(d * (q - p) == d * q - d * p) by (nonlinear_arith);
    assert(d * (q - p) == 1 + (n - 1) % d - n % d);
    if q - p >= 2 {
        assert(d * (q - p) >= 2 * d) by (nonlinear_arith)
            requires
                q - p >= 2,
                d > 0,
        ;
    }
    if q - p <= -1 {
        assert(d * (q - p) <= -d) by (nonlinear_arith)
            requires
                q - p <= -1,
                d > 0,
        ;
    }
    if q - p == 1 {
        assert(d * (q - p) == d) by (nonlinear_arith)
            requires
                q - p == 1,
        ;
    } else {
        assert(d * (q - p) == 0) by (nonlinear_arith)
            requires
                q - p == 0,
        ;
    }
}

/// A multiple of `d * k` is a multiple of `d`.
proof fn lemma_multiple_of_multiple(n: int, d: int, k: int)
    requires
        d > 0,
        k > 0,
    ensures
        n % (d * k) == 0 ==> n % d == 0,
{
    assert(d * k > 0) by (nonlinear_arith)
        requires
            d > 0,
            k > 0,
    ;
    if n % (d * k) == 0 {
        vstd::arithmetic::div_mod::lemma_fundamental_div_mod(n, d * k);
        let q = n / (d * k);
        assert(n == d * (k * q)) by (nonlinear_arith)
            requires
                n == (d * k) * q,
        ;
        vstd::arithmetic::div_mod::lemma_mod_multiples_basic(k * q, d);
        assert((k * q) * d == d * (k * q)) by (nonlinear_arith);
    }
}

/// The first days of later years are later.
pub proof fn lemma_years_in_order(earlier: int, later: int)
    requires
        earlier <= later,
    ensures
        days_before_year(earlier) <= days_before_year(later),
    decreases later - earlier,
{
    if earlier < later {
        lemma_years_in_order(earlier, later - 1);
        lemma_year_length(later - 1);
    }
}

/// A month is as long as the days from its first day to that of the next,
/// and the months of a year fill it.
pub proof fn lemma_month_length(year: int, month: int)
    requires
        1 <= month <= 12,
    ensures
        days_before_month(year, month) + days_in_month(year, month) == if month == 12 {
            days_in_year(year)
        } else {
            days_before_month(year, month + 1)
        },
        0 <= days_before_month(year, month),
        days_before_month(year, month) + days_in_month(year, month) <= days_in_year(year),
{
}

/// The calendar orders its days as their day numbers do: of two dates the
/// one with the earlier year, or month in one year, or day in one month, has
/// the smaller day number.
pub proof fn lemma_calendar_order(y1: int, m1: int, d1: int, y2: int, m2: int, d2: int)
    requires
        is_calendar_date(y1, m1, d1),
        is_calendar_date(y2, m2, d2),
        y1 < y2 || (y1 == y2 && (m1 < m2 || (m1 == m2 && d1 < d2))),
    ensures
        calendar_julian_day(y1, m1, d1) < calendar_julian_day(y2, m2, d2),
{
    lemma_month_length(y1, m1);
    lemma_month_length(y2, m2);
    if y1 < y2 {
        lemma_year_length(y1);
        lemma_years_in_order(y1 + 1, y2);
    } else if m1 < m2 {
        lemma_months_in_order(y1, m1 + 1, m2);
    }
}

/// The first days of later months of a year are later.
pub proof fn lemma_months_in_order(year: int, earlier: int, later: int)
    requires
        1 <= earlier <= later <= 12,
    ensures
        days_before_month(year, earlier) <= days_before_month(year, later),
    decreases later - earlier,
{
    if earlier < later {
        lemma_months_in_order(year, earlier, later - 1);
        lemma_month_length(year, later - 1);
    }
}

/// No two calendar dates have one day number, so a date is the calendar
/// date of its day number.
pub proof fn lemma_calendar_of_day(year: int, month: int, day: int)
    requires
        is_calendar_date(year, month, day),
    ensures
        julian_calendar(calendar_julian_day(year, month, day)) == (year, month, day),
{
    let j = calendar_julian_day(year, month, day);
    let c = julian_calendar(j);
    let witness = (year, month, day);
    assert(is_calendar_date(witness.0, witness.1, witness.2) && calendar_julian_day(
        witness.0,
        witness.1,
        witness.2,
    ) == j);
    if c.0 < year || (c.0 == year && (c.1 < month || (c.1 == month && c.2 < day))) {
        lemma_calendar_order(c.0, c.1, c.2, year, month, day);
    } else if c != witness {
        lemma_calendar_order(year, month, day, c.0, c.1, c.2);
    }
}

/// The calendar date of the day after `year`-`month`-`day`.
pub open spec fn day_after(year: int, month: int, day: int) -> (int, int, int) {
    if day < days_in_month(year, month) {
        (year, month, day + 1)
    } else if month < 12 {
        (year, month + 1, 1)
    } else {
        (year + 1, 1, 1)
    }
}

/// The day after a calendar date has the next day number.
pub proof fn lemma_day_after(year: int, month: int, day: int)
    requires
        is_calendar_date(year, month, day),
    ensures
        ({
            let next = day_after(year, month, day);
            &&& calendar_julian_day(next.0, next.1, next.2) == calendar_julian_day(
                year,
                month,
                day,
            ) + 1
            &&& 1 <= next.1 <= 12
            &&& 1 <= next.2 <= days_in_month(next.0, next.1)
            &&& year <= next.0 <= year + 1
        }),
{
    lemma_month_length(year, month);
    lemma_year_length(year);
}

/// Every day number of the calendar is that of a calendar date, which is
/// then the calendar date of that day number.
pub proof fn lemma_day_has_date(julian_day: int)
    requires
        MIN_JULIAN_DAY <= julian_day <= MAX_JULIAN_DAY,
    ensures
        ({
            let c = julian_calendar(julian_day);
            is_calendar_date(c.0, c.1, c.2) && calendar_julian_day(c.0, c.1, c.2) == julian_day
        }),
    decreases julian_day - MIN_JULIAN_DAY,
{
    lemma_calendar_bounds(MIN_YEAR as int, 1, 1);
    let found: (int, int, int) = if julian_day == MIN_JULIAN_DAY {
        (MIN_YEAR as int, 1int, 1int)
    } else {
        lemma_day_has_date(julian_day - 1);
        let before = julian_calendar(julian_day - 1);
        lemma_day_after(before.0, before.1, before.2);
        // The day before is not the last of the calendar, so the day after it
        // is still within the calendar's years.
        day_after(before.0, before.1, before.2)
    };
    assert(is_calendar_date(found.0, found.1, found.2) && calendar_julian_day(
        found.0,
        found.1,
        found.2,
    ) == julian_day);
}

/// `time::Date::from_calendar_date`, with the month converted by
/// `time::Month::try_from` and the date handed back as its Julian day number
/// (`time::Date::to_julian_day`).
///
/// Trusted: for a year from -9999 to 9999 and a month from 1 to 12 the date
/// exists exactly when the day is one of that month in that year, and its
/// Julian day number is then the number of days that came before it,
/// counted from 1,721,426 for the first day of the year 1.
#[verifier::external_body]
fn time_julian_day_of(year: i32, month: u8, day: u8) -> (r: Option<i32>)
    requires
        MIN_YEAR <= year <= MAX_YEAR,
        1 <= month <= 12,
    ensures
        r is Some <==> 1 <= day <= days_in_month(year as int, month as int),
        r matches Some(j) ==> j == calendar_julian_day(year as int, month as int, day as int),
{
    let month = time::Month::try_from(month).ok()?;
    let date = time::Date::from_calendar_date(year, month, day).ok()?;
    Some(date.to_julian_day())
}

/// `time::Date::from_julian_day` followed by `time::Date::to_calendar_date`,
/// with the month handed back as its number.
///
/// Trusted: for a day number between those of -9999-01-01 and 9999-12-31 the
/// date exists, and its year, month and day name the day of the calendar
/// that has this day number.
#[verifier::external_body]
fn time_calendar_of(julian_day: i32) -> (r: Option<(i32, u8, u8)>)
    requires
        MIN_JULIAN_DAY <= julian_day <= MAX_JULIAN_DAY,
    ensures
        r is Some,
        r matches Some(c) ==> is_calendar_date(c.0 as int, c.1 as int, c.2 as int),
        r matches Some(c) ==> calendar_julian_day(c.0 as int, c.1 as int, c.2 as int)
            == julian_day,
{
    let date = time::Date::from_julian_day(julian_day).ok()?;
    let (year, month, day) = date.to_calendar_date();
    Some((year, u8::from(month), day))
}

/// The calendar runs from day `MIN_JULIAN_DAY` to day `MAX_JULIAN_DAY`.
pub proof fn lemma_calendar_bounds(year: int, month: int, day: int)
    requires
        is_calendar_date(year, month, day),
    ensures
        calendar_julian_day(MIN_YEAR as int, 1, 1) == MIN_JULIAN_DAY,
        calendar_julian_day(MAX_YEAR as int, 12, 31) == MAX_JULIAN_DAY,
        MIN_JULIAN_DAY <= calendar_julian_day(year, month, day) <= MAX_JULIAN_DAY,
{
    if (year, month, day) != (MIN_YEAR as int, 1int, 1int) {
        lemma_calendar_order(MIN_YEAR as int, 1, 1, year, month, day);
    }
    if (year, month, day) != (MAX_YEAR as int, 12int, 31int) {
        lemma_calendar_order(year, month, day, MAX_YEAR as int, 12, 31);
    }
}

/// The weekday of the day with number `day`: day 0 was a Monday.
pub open spec fn weekday_of_day(day: int) -> Weekday {
    Weekday::at(day)
}

/// A day of the proleptic Gregorian calendar, from -9999-01-01 to 9999-12-31.
#[derive(Clone, Copy, Debug, PartialEq, Eq, Structural, Hash)]
pub struct Date {
    julian_day: i32,
}

impl View for Date {
    type V = int;

    /// The Julian day number.
    closed spec fn view(&self) -> int {
        self.julian_day as int
    }
}

impl Date {
    #[verifier::type_invariant]
    closed spec fn in_range(self) -> bool {
        MIN_JULIAN_DAY <= self.julian_day <= MAX_JULIAN_DAY
    }

    /// What every `Date` that a program holds satisfies.
    pub open spec fn wf(self) -> bool {
        MIN_JULIAN_DAY <= self@ <= MAX_JULIAN_DAY
    }

    pub fn from_julian_day(julian_day: i32) -> (r: Option<Date>)
        ensures
            r is Some <==> MIN_JULIAN_DAY <= julian_day <= MAX_JULIAN_DAY,
            r matches Some(d) ==> d@ == julian_day && d.wf(),
    {
        if MIN_JULIAN_DAY <= julian_day && julian_day <= MAX_JULIAN_DAY {
            Some(Date { julian_day })
        } else {
            None
        }
    }

    pub fn to_julian_day(&self) -> (j: i32)
        ensures
            j == self@,
            self.wf(),
    {
        proof {
            use_type_invariant(self);
        }
        self.julian_day
    }

    /// The date `year`-`month`-`day`, if the calendar has it.
    pub fn from_calendar_date(year: i32, month: u8, day: u8) -> (r: Option<Date>)
        ensures
            r is Some <==> is_calendar_date(year as int, month as int, day as int),
            r matches Some(d) ==> d@ == calendar_julian_day(year as int, month as int, day as int)
                && d.wf(),
            r matches Some(d) ==> julian_calendar(d@) == (year as int, month as int, day as int),
    {
        if year < MIN_YEAR || year > MAX_YEAR || month < 1 || month > 12 {
            return None;
        }
        match time_julian_day_of(year, month, day) {
            Some(julian_day) => {
                proof {
                    lemma_calendar_bounds(year as int, month as int, day as int);
                    lemma_calendar_of_day(year as int, month as int, day as int);
                }
                Some(Date { julian_day })
            },
            None => None,
        }
    }

    /// Year, month (from 1) and day of the month.
    pub fn to_calendar_date(&self) -> (c: (i32, u8, u8))
        ensures
            (c.0 as int, c.1 as int, c.2 as int) == julian_calendar(self@),
            is_calendar_date(c.0 as int, c.1 as int, c.2 as int),
            calendar_julian_day(c.0 as int, c.1 as int, c.2 as int) == self@,
    {
        proof {
            use_type_invariant(self);
        }
        match time_calendar_of(self.julian_day) {
            Some(c) => {
                proof {
                    lemma_calendar_of_day(c.0 as int, c.1 as int, c.2 as int);
                }
                c
            },
            None => (0, 1, 1),
        }
    }

    pub fn year(&self) -> (y: i32)
        ensures
            y == julian_calendar(self@).0,
            MIN_YEAR <= y <= MAX_YEAR,
    {
        self.to_calendar_date().0
    }

    pub fn month(&self) -> (m: u8)
        ensures
            m == julian_calendar(self@).1,
            1 <= m <= 12,
    {
        self.to_calendar_date().1
    }

    pub fn day(&self) -> (d: u8)
        ensures
            d == julian_calendar(self@).2,
            1 <= d <= 31,
    {
        self.to_calendar_date().2
    }

    pub fn weekday(&self) -> (w: Weekday)
        ensures
            w == weekday_of_day(self@),
    {
        proof {
            use_type_invariant(self);
        }
        let shifted: i32 = self.julian_day - MIN_JULIAN_DAY;
        // The first day of the calendar is a Monday: a multiple of 7.
        let k: i32 = shifted % 7;
        assert(MIN_JULIAN_DAY == 7 * (-275857));
        assert(k == (self.julian_day as int) % 7);
        Weekday::from_days_from_monday(k as u8)
    }

    /// The day after, unless this is the last day of the calendar.
    pub fn next_day(&self) -> (r: Option<Date>)
        ensures
            r is Some <==> self@ < MAX_JULIAN_DAY,
            r matches Some(d) ==> d@ == self@ + 1 && d.wf(),
    {
        proof {
            use_type_invariant(self);
        }
        if self.julian_day < MAX_JULIAN_DAY {
            Some(Date { julian_day: self.julian_day + 1 })
        } else {
            None
        }
    }

    /// The day `days` days later (earlier, where `days` is negative), if the
    /// calendar reaches that far.
    pub fn checked_add_days(&self, days: i32) -> (r: Option<Date>)
        ensures
            r is Some <==> MIN_JULIAN_DAY <= self@ + days <= MAX_JULIAN_DAY,
            r matches Some(d) ==> d@ == self@ + days && d.wf(),
    {
        proof {
            use_type_invariant(self);
        }
        let target: i64 = self.julian_day as i64 + days as i64;
        if MIN_JULIAN_DAY as i64 <= target && target <= MAX_JULIAN_DAY as i64 {
            Some(Date { julian_day: target as i32 })
        } else {
            None
        }
    }

    /// The day before, unless this is the first day of the calendar.
    pub fn previous_day(&self) -> (r: Option<Date>)
        ensures
            r is Some <==> self@ > MIN_JULIAN_DAY,
            r matches Some(d) ==> d@ == self@ - 1 && d.wf(),
    {
        proof {
            use_type_invariant(self);
        }
        if self.julian_day > MIN_JULIAN_DAY {
            Some(Date { julian_day: self.julian_day - 1 })
        } else {
            None
        }
    }
}

/// A time of day, to the nanosecond.
#[derive(Clone, Copy, Debug, PartialEq, Eq, Structural, Hash)]
pub struct TimeOfDay {
    nanos: u64,
}

impl View for TimeOfDay {
    type V = int;

    /// Nanoseconds since midnight.
    closed spec fn view(&self) -> int {
        self.nanos as int
    }
}

/// Nanoseconds since midnight of the time `hour`:`minute`:`second` and
/// `nanosecond` nanoseconds.
pub open spec fn nanos_of_hms(hour: int, minute: int, second: int, nanosecond: int) -> int {
    hour * 3_600_000_000_000 + minute * 60_000_000_000 + second * 1_000_000_000 + nanosecond
}

/// The hour, minute, second and nanosecond that a clock can show.
pub open spec fn is_clock_time(hour: int, minute: int, second: int, nanosecond: int) -> bool {
    &&& 0 <= hour < 24
    &&& 0 <= minute < 60
    &&& 0 <= second < 60
    &&& 0 <= nanosecond < 1_000_000_000
}

impl TimeOfDay {
    #[verifier::type_invariant]
    closed spec fn in_range(self) -> bool {
        self.nanos < NANOS_PER_DAY
    }

    /// What every `TimeOfDay` that a program holds satisfies.
    pub open spec fn wf(self) -> bool {
        0 <= self@ < NANOS_PER_DAY
    }

    pub fn midnight() -> (t: TimeOfDay)
        ensures
            t@ == 0,
            t.wf(),
    {
        TimeOfDay { nanos: 0 }
    }

    pub fn from_hms_nano(hour: u8, minute: u8, second: u8, nanosecond: u32) -> (r: Option<
        TimeOfDay,
    >)
        ensures
            r is Some <==> is_clock_time(
                hour as int,
                minute as int,
                second as int,
                nanosecond as int,
            ),
            r matches Some(t) ==> t.wf() && t@ == nanos_of_hms(
                hour as int,
                minute as int,
                second as int,
                nanosecond as int,
            ),
    {
        if hour < 24 && minute < 60 && second < 60 && nanosecond < 1_000_000_000 {
            let nanos: u64 = (hour as u64) * NANOS_PER_HOUR + (minute as u64) * NANOS_PER_MINUTE
                + (second as u64) * NANOS_PER_SECOND + (nanosecond as u64);
            Some(TimeOfDay { nanos })
        } else {
            None
        }
    }

    pub fn from_hms(hour: u8, minute: u8, second: u8) -> (r: Option<TimeOfDay>)
        ensures
            r is Some <==> is_clock_time(hour as int, minute as int, second as int, 0),
            r matches Some(t) ==> t.wf() && t@ == nanos_of_hms(
                hour as int,
                minute as int,
                second as int,
                0,
            ),
    {
        TimeOfDay::from_hms_nano(hour, minute, second, 0)
    }

    /// The time that lies `nanos` nanoseconds after midnight.
    pub fn from_nanos(nanos: u64) -> (r: Option<TimeOfDay>)
        ensures
            r is Some <==> nanos < NANOS_PER_DAY,
            r matches Some(t) ==> t.wf() && t@ == nanos,
    {
        if nanos < NANOS_PER_DAY {
            Some(TimeOfDay { nanos })
        } else {
            None
        }
    }

    pub fn nanos_since_midnight(&self) -> (n: u64)
        ensures
            n == self@,
            self.wf(),
    {
        proof {
            use_type_invariant(self);
        }
        self.nanos
    }

    pub fn hour(&self) -> (h: u8)
        ensures
            h == self@ / 3_600_000_000_000,
            h < 24,
    {
        proof {
            use_type_invariant(self);
        }
        (self.nanos / NANOS_PER_HOUR) as u8
    }

    pub fn minute(&self) -> (m: u8)
        ensures
            m == (self@ / 60_000_000_000) % 60,
            m < 60,
    {
        proof {
            use_type_invariant(self);
        }
        ((self.nanos / NANOS_PER_MINUTE) % 60) as u8
    }

    pub fn second(&self) -> (s: u8)
        ensures
            s == (self@ / 1_000_000_000) % 60,
            s < 60,
    {
        proof {
            use_type_invariant(self);
        }
        ((self.nanos / NANOS_PER_SECOND) % 60) as u8
    }

    pub fn nanosecond(&self) -> (n: u32)
        ensures
            n == self@ % 1_000_000_000,
            n < 1_000_000_000,
    {
        proof {
            use_type_invariant(self);
        }
        (self.nanos % NANOS_PER_SECOND) as u32
    }
}

/// Reading a clock time back gives the hour, minute, second and nanosecond it
/// was made of.
pub proof fn lemma_clock_fields(hour: int, minute: int, second: int, nanosecond: int)
    requires
        is_clock_time(hour, minute, second, nanosecond),
    ensures
        0 <= nanos_of_hms(hour, minute, second, nanosecond) < NANOS_PER_DAY,
        nanos_of_hms(hour, minute, second, nanosecond) / 3_600_000_000_000 == hour,
        (nanos_of_hms(hour, minute, second, nanosecond) / 60_000_000_000) % 60 == minute,
        (nanos_of_hms(hour, minute, second, nanosecond) / 1_000_000_000) % 60 == second,
        nanos_of_hms(hour, minute, second, nanosecond) % 1_000_000_000 == nanosecond,
{
}

/// Nanoseconds from midnight of day 0 to the time `nanos` of the day `day`.
pub open spec fn instant_of(day: int, nanos: int) -> int {
    day * 86_400_000_000_000 + nanos
}

/// A date and a time of day on one clock. Read on the UTC clock it is a point
/// on the timeline, and that is how the scheduler reads it.
#[derive(Clone, Copy, Debug, PartialEq, Eq, Structural, Hash)]
pub struct DateTime {
    pub date: Date,
    pub time: TimeOfDay,
}

impl View for DateTime {
    type V = int;

    /// Nanoseconds since midnight of day 0.
    open spec fn view(&self) -> int {
        instant_of(self.date@, self.time@)
    }
}

impl DateTime {
    pub open spec fn wf(self) -> bool {
        self.date.wf() && self.time.wf()
    }

    pub fn new(date: Date, time: TimeOfDay) -> (r: DateTime)
        ensures
            r.date == date,
            r.time == time,
            r@ == instant_of(date@, time@),
            r.wf(),
    {
        let _ = date.to_julian_day();
        let _ = time.nanos_since_midnight();
        DateTime { date, time }
    }

    /// Whether `self` is strictly earlier than `other`.
    pub fn is_before(&self, other: &DateTime) -> (b: bool)
        ensures
            b == (self@ < other@),
    {
        let d1 = self.date.to_julian_day();
        let d2 = other.date.to_julian_day();
        let t1 = self.time.nanos_since_midnight();
        let t2 = other.time.nanos_since_midnight();
        d1 < d2 || (d1 == d2 && t1 < t2)
    }

    /// Whole days from `self` to `later`, rounded towards zero; negative where
    /// `later` is the earlier one.
    pub fn whole_days_until(&self, later: &DateTime) -> (n: i64)
        ensures
            n == whole_days_between(self@, later@),
    {
        let d1 = self.date.to_julian_day();
        let d2 = later.date.to_julian_day();
        let t1 = self.time.nanos_since_midnight();
        let t2 = later.time.nanos_since_midnight();
        let day: i128 = 86_400_000_000_000;
        let span: i128 = (d2 as i128 - d1 as i128) * day + (t2 as i128 - t1 as i128);
        if span >= 0 {
            (span / day) as i64
        } else {
            -(((-span) / day) as i64)
        }
    }

    /// Whether `self` is strictly later than `other`.
    pub fn is_after(&self, other: &DateTime) -> (b: bool)
        ensures
            b == (self@ > other@),
    {
        other.is_before(self)
    }
}

/// Whole days in the span from `earlier` to `later`, rounded towards zero.
pub open spec fn whole_days_between(earlier: int, later: int) -> int {
    if later >= earlier {
        (later - earlier) / 86_400_000_000_000
    } else {
        -((earlier - later) / 86_400_000_000_000)
    }
}

/// How the calendar day moved when a local time of day was put into UTC.
#[derive(Clone, Copy, Debug, PartialEq, Eq, Structural, Hash)]
pub enum DayShift {
    /// The UTC day is the day after the local one.
    Forward,
    /// The UTC day is the day before the local one.
    Backward,
    /// Both are the same day.
    Unchanged,
}

impl DayShift {
    /// The number of days to add to a local date.
    pub open spec fn days(self) -> int {
        match self {
            DayShift::Forward => 1,
            DayShift::Backward => -1,
            DayShift::Unchanged => 0,
        }
    }
}

/// The difference between local time and UTC, in whole seconds, less than a
/// day either way.
#[derive(Clone, Copy, Debug, PartialEq, Eq, Structural, Hash)]
pub struct UtcOffset {
    local_minus_utc: i32,
}

impl View for UtcOffset {
    type V = int;

    /// Seconds that local time is ahead of UTC.
    closed spec fn view(&self) -> int {
        self.local_minus_utc as int
    }
}

/// The UTC time of day, in nanoseconds since midnight, of the local time of
/// day `local` where local time is `offset` seconds ahead of UTC.
pub open spec fn utc_nanos(local: int, offset: int) -> int {
    (local - offset * 1_000_000_000) % 86_400_000_000_000
}

/// The whole days by which that conversion moved the calendar day.
pub open spec fn utc_day_shift(local: int, offset: int) -> int {
    (local - offset * 1_000_000_000) / 86_400_000_000_000
}

impl UtcOffset {
    #[verifier::type_invariant]
    closed spec fn in_range(self) -> bool {
        -SECONDS_PER_DAY < self.local_minus_utc < SECONDS_PER_DAY
    }

    /// What every `UtcOffset` that a program holds satisfies.
    pub open spec fn wf(self) -> bool {
        -SECONDS_PER_DAY < self@ < SECONDS_PER_DAY
    }

    pub fn utc() -> (o: UtcOffset)
        ensures
            o@ == 0,
            o.wf(),
    {
        UtcOffset { local_minus_utc: 0 }
    }

    /// The offset of a zone whose clocks are `seconds` ahead of UTC.
    pub fn from_whole_seconds(seconds: i32) -> (r: Option<UtcOffset>)
        ensures
            r is Some <==> -SECONDS_PER_DAY < seconds < SECONDS_PER_DAY,
            r matches Some(o) ==> o@ == seconds && o.wf(),
    {
        if -SECONDS_PER_DAY < seconds && seconds < SECONDS_PER_DAY {
            Some(UtcOffset { local_minus_utc: seconds })
        } else {
            None
        }
    }

    pub fn whole_seconds(&self) -> (s: i32)
        ensures
            s == self@,
            self.wf(),
    {
        proof {
            use_type_invariant(self);
        }
        self.local_minus_utc
    }

    /// Puts a local time of day into UTC, and says whether that moved the
    /// calendar day.
    pub fn to_utc(&self, local: TimeOfDay) -> (r: (TimeOfDay, DayShift))
        ensures
            r.0.wf(),
            r.0@ == utc_nanos(local@, self@),
            r.1.days() == utc_day_shift(local@, self@),
    {
        proof {
            use_type_invariant(self);
        }
        let day: i64 = 86_400_000_000_000;
        let shifted: i64 = local.nanos_since_midnight() as i64 - (self.local_minus_utc as i64)
            * 1_000_000_000;
        if shifted < 0 {
            let time = TimeOfDay { nanos: (shifted + day) as u64 };
            (time, DayShift::Backward)
        } else if shifted >= day {
            let time = TimeOfDay { nanos: (shifted - day) as u64 };
            (time, DayShift::Forward)
        } else {
            let time = TimeOfDay { nanos: shifted as u64 };
            (time, DayShift::Unchanged)
        }
    }

    /// What the clocks of this offset show at a UTC instant: the local date
    /// and time of day, if the local date is still in the calendar.
    pub fn to_local(&self, utc: &DateTime) -> (r: Option<DateTime>)
        ensures
            r is Some <==> MIN_JULIAN_DAY <= local_day(utc@, self@) <= MAX_JULIAN_DAY,
            r matches Some(l) ==> l.wf() && l@ == utc@ + self@ * 1_000_000_000,
    {
        proof {
            use_type_invariant(self);
        }
        let day: i64 = 86_400_000_000_000;
        let julian: i32 = utc.date.to_julian_day();
        let shifted: i64 = utc.time.nanos_since_midnight() as i64 + (self.local_minus_utc as i64)
            * 1_000_000_000;
        let (julian_local, nanos): (i32, u64) = if shifted < 0 {
            (julian - 1, (shifted + day) as u64)
        } else if shifted >= day {
            (julian + 1, (shifted - day) as u64)
        } else {
            (julian, shifted as u64)
        };
        assert(instant_of(julian_local as int, nanos as int) == utc@ + self@ * 1_000_000_000);
        assert(julian_local == local_day(utc@, self@));
        match Date::from_julian_day(julian_local) {
            Some(date) => Some(DateTime { date, time: TimeOfDay { nanos } }),
            None => None,
        }
    }
}

/// The day number of the local date at the UTC instant `utc`, where local
/// time is `offset` seconds ahead of UTC.
pub open spec fn local_day(utc: int, offset: int) -> int {
    (utc + offset * 1_000_000_000) / 86_400_000_000_000
}

} // verus!
