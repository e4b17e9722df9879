//! Reading a time specification such as `9:30am mwf rep` or `10pm 1/29`.
//!
//! A specification is a line of words. One word is the time of day, on the
//! writer's own clock; another is either a date, written month/day, or a set
//! of weekdays, one letter each; a third may ask for weekly repetition.

use vstd::prelude::*;
use vstd::string::*;
use crate::calendar::{
    Date, DayShift, TimeOfDay, DateTime, UtcOffset, calendar_julian_day, instant_of,
    lemma_calendar_bounds, lemma_calendar_of_day, lemma_calendar_order, lemma_day_has_date,
    is_calendar_date, julian_calendar, nanos_of_hms, utc_day_shift, utc_nanos, MAX_JULIAN_DAY,
    MAX_YEAR, MIN_JULIAN_DAY,
};
use crate::text::{
    chars_of, contains_word, digit_of, digit_value, digits_value, has_word, is_digit, is_letter,
    lemma_word_len_is, parse_unsigned, split_words, unsigned_decimal, word_ranges,
};
use crate::weekday::{DaySet, Weekday};

verus! {

/// Why a time specification was turned down.
#[derive(Clone, Copy, Debug, PartialEq, Eq, Structural)]
pub enum ParseError {
    /// Fewer than two words.
    Malformed,
    /// No word that could be a time of day.
    NoTime,
    /// The time word is no time of day.
    BadTime,
    /// Neither a date nor a weekday.
    NoScheduleInfo,
}

/// The weekday that a letter stands for, in either case: `U` Sunday, `M`
/// Monday, `T` Tuesday, `W` Wednesday, `R` Thursday, `F` Friday, `S` Saturday.
pub open spec fn letter_day(c: char) -> Option<Weekday> {
    if c == 'U' || c == 'u' {
        Some(Weekday::Sunday)
    } else if c == 'M' || c == 'm' {
        Some(Weekday::Monday)
    } else if c == 'T' || c == 't' {
        Some(Weekday::Tuesday)
    } else if c == 'W' || c == 'w' {
        Some(Weekday::Wednesday)
    } else if c == 'R' || c == 'r' {
        Some(Weekday::Thursday)
    } else if c == 'F' || c == 'f' {
        Some(Weekday::Friday)
    } else if c == 'S' || c == 's' {
        Some(Weekday::Saturday)
    } else {
        None
    }
}

pub fn parse_dayofweek(c: char) -> (r: Option<Weekday>)
    ensures
        r == letter_day(c),
{
    match c {
        'U' | 'u' => Some(Weekday::Sunday),
        'M' | 'm' => Some(Weekday::Monday),
        'T' | 't' => Some(Weekday::Tuesday),
        'W' | 'w' => Some(Weekday::Wednesday),
        'R' | 'r' => Some(Weekday::Thursday),
        'F' | 'f' => Some(Weekday::Friday),
        'S' | 's' => Some(Weekday::Saturday),
        _ => None,
    }
}

/// Whether the character at place `i` of `s` lists the weekday `d`: it is the
/// letter of `d`, or the letter `A`, which lists every day.
pub open spec fn lists_at(s: Seq<char>, i: int, d: Weekday) -> bool {
    is_letter(s[i], 'a', 'A') || letter_day(s[i]) == Some(d)
}

/// Whether one of the first `upto` characters of `s` lists the weekday `d`.
pub open spec fn lists_before(s: Seq<char>, d: Weekday, upto: int) -> bool {
    exists|i: int| 0 <= i < upto && #[trigger] lists_at(s, i, d)
}

/// Whether the word `s` lists the weekday `d`.
pub open spec fn token_lists(s: Seq<char>, d: Weekday) -> bool {
    lists_before(s, d, s.len() as int)
}

/// The set of the weekdays that the word `s` lists, if it lists any.
pub open spec fn token_days(s: Seq<char>) -> Option<DaySet> {
    let set = DaySet {
        monday: token_lists(s, Weekday::Monday),
        tuesday: token_lists(s, Weekday::Tuesday),
        wednesday: token_lists(s, Weekday::Wednesday),
        thursday: token_lists(s, Weekday::Thursday),
        friday: token_lists(s, Weekday::Friday),
        saturday: token_lists(s, Weekday::Saturday),
        sunday: token_lists(s, Weekday::Sunday),
    };
    if set.is_empty_set() {
        None
    } else {
        Some(set)
    }
}

/// The weekdays that the word `token` lists, if it lists any.
pub fn parse_on_days(token: &str) -> (r: Option<DaySet>)
    ensures
        r == token_days(token@),
        r matches Some(set) ==> !set.is_empty_set(),
        r is Some <==> exists|d: Weekday| token_lists(token@, d),
        r matches Some(set) ==> forall|d: Weekday|
            #![trigger set.has(d)]
            #![trigger token_lists(token@, d)]
            set.has(d) == token_lists(token@, d),
{
    let s = chars_of(token);
    let mut set = DaySet::empty();
    let mut i: usize = 0;
    while i < s.len()
        invariant
            i <= s.len(),
            s@ == token@,
            forall|d: Weekday| set.has(d) == lists_before(s@, d, i as int),
        decreases s.len() - i,
    {
        let c = s[i];
        let ghost before = set;
        if c == 'a' || c == 'A' {
            set = DaySet::all();
        } else {
            match parse_dayofweek(c) {
                Some(day) => {
                    set = set.with(day);
                },
                None => {},
            }
        }
        proof {
            assert forall|d: Weekday| set.has(d) == lists_before(s@, d, i + 1) by {
                if lists_before(s@, d, i + 1) {
                    let w = choose|w: int| 0 <= w < i + 1 && #[trigger] lists_at(s@, w, d);
                    if w < i {
                        assert(lists_before(s@, d, i as int));
                    }
                }
                if before.has(d) {
                    let w = choose|w: int| 0 <= w < i && #[trigger] lists_at(s@, w, d);
                    assert(lists_at(s@, w, d));
                }
                if lists_at(s@, i as int, d) {
                    assert(lists_before(s@, d, i + 1));
                }
            }
        }
        i += 1;
    }
    proof {
        assert forall|d: Weekday| set.has(d) == token_lists(token@, d) by {
            assert(set.has(d) == lists_before(s@, d, s@.len() as int));
        }
    }
    proof {
        assert(set.has(Weekday::Monday) == token_lists(token@, Weekday::Monday));
        assert(set.has(Weekday::Tuesday) == token_lists(token@, Weekday::Tuesday));
        assert(set.has(Weekday::Wednesday) == token_lists(token@, Weekday::Wednesday));
        assert(set.has(Weekday::Thursday) == token_lists(token@, Weekday::Thursday));
        assert(set.has(Weekday::Friday) == token_lists(token@, Weekday::Friday));
        assert(set.has(Weekday::Saturday) == token_lists(token@, Weekday::Saturday));
        assert(set.has(Weekday::Sunday) == token_lists(token@, Weekday::Sunday));
    }
    if set.is_empty() {
        proof {
            if exists|d: Weekday| token_lists(token@, d) {
                let d = choose|d: Weekday| token_lists(token@, d);
                assert(set.has(d));
            }
        }
        None
    } else {
        proof {
            let d = choose|d: Weekday| set.has(d);
            assert(token_lists(token@, d));
        }
        Some(set)
    }
}

/// Whether the word asks for weekly repetition: it holds `rep`, in small or
/// capital letters.
pub open spec fn asks_repeat(s: Seq<char>) -> bool {
    has_word(s, seq!['r', 'e', 'p'], seq!['R', 'E', 'P'])
}

pub fn parse_repeat_weekly(token: &str) -> (b: bool)
    ensures
        b == asks_repeat(token@),
{
    let s = chars_of(token);
    let lower: Vec<char> = vec!['r', 'e', 'p'];
    let upper: Vec<char> = vec!['R', 'E', 'P'];
    assert(lower@ == seq!['r', 'e', 'p']);
    assert(upper@ == seq!['R', 'E', 'P']);
    assert(s@.subrange(0, s@.len() as int) == s@);
    contains_word(&s, 0, s.len(), &lower, &upper)
}

/// Whether `s` from place `at` on is `AM` or `PM` and nothing more, in small
/// or capital letters, after at most one space: `Some(true)` for `PM`.
pub open spec fn meridiem_at(s: Seq<char>, at: int) -> Option<bool> {
    let p = if at < s.len() && s[at] == ' ' {
        at + 1
    } else {
        at
    };
    if p + 2 == s.len() && is_letter(s[p + 1], 'm', 'M') {
        if is_letter(s[p], 'a', 'A') {
            Some(false)
        } else if is_letter(s[p], 'p', 'P') {
            Some(true)
        } else {
            None
        }
    } else {
        None
    }
}

/// The hour of the day that a twelve-hour clock shows as `hour`: 12 AM is
/// midnight and 12 PM is noon.
pub open spec fn hour_of_12(hour: int, pm: bool) -> int {
    if hour == 12 {
        if pm {
            12
        } else {
            0
        }
    } else if pm {
        hour + 12
    } else {
        hour
    }
}

/// The hour and minute that a time word writes, if it is one of
/// `h:mm AM/PM`, `h AM/PM` and `h:mm`: one or two digits for the hour, two
/// for the minute; with `AM` or `PM` the hour is one of 1 to 12, without it
/// one of 0 to 23.
pub open spec fn clock_time(s: Seq<char>) -> Option<(int, int)> {
    if s.len() == 0 || !is_digit(s[0]) {
        None
    } else {
        let n: int = if s.len() >= 2 && is_digit(s[1]) {
            2
        } else {
            1
        };
        let h: int = if n == 2 {
            (digit_value(s[0]) * 10 + digit_value(s[1])) as int
        } else {
            digit_value(s[0]) as int
        };
        if s.len() >= n + 3 && s[n] == ':' && is_digit(s[n + 1]) && is_digit(s[n + 2]) {
            let m: int = (digit_value(s[n + 1]) * 10 + digit_value(s[n + 2])) as int;
            if m >= 60 {
                None
            } else if s.len() == n + 3 {
                if h < 24 {
                    Some((h, m))
                } else {
                    None
                }
            } else {
                match meridiem_at(s, n + 3) {
                    Some(pm) => if 1 <= h <= 12 {
                        Some((hour_of_12(h, pm), m))
                    } else {
                        None
                    },
                    None => None,
                }
            }
        } else {
            match meridiem_at(s, n) {
                Some(pm) => if 1 <= h <= 12 {
                    Some((hour_of_12(h, pm), 0))
                } else {
                    None
                },
                None => None,
            }
        }
    }
}

fn parse_meridiem(s: &Vec<char>, at: usize) -> (r: Option<bool>)
    requires
        at <= s.len(),
    ensures
        r == meridiem_at(s@, at as int),
{
    let p: usize = if at < s.len() && s[at] == ' ' {
        at + 1
    } else {
        at
    };
    if s.len() - p == 2 && (s[p + 1] == 'm' || s[p + 1] == 'M') {
        if s[p] == 'a' || s[p] == 'A' {
            Some(false)
        } else if s[p] == 'p' || s[p] == 'P' {
            Some(true)
        } else {
            None
        }
    } else {
        None
    }
}

fn hour_from_12(hour: u8, pm: bool) -> (r: u8)
    requires
        1 <= hour <= 12,
    ensures
        r == hour_of_12(hour as int, pm),
        r < 24,
{
    if hour == 12 {
        if pm {
            12
        } else {
            0
        }
    } else if pm {
        hour + 12
    } else {
        hour
    }
}

/// Reads a time word: hour and minute on a 24-hour clock.
pub fn parse_clock(token: &str) -> (r: Option<(u8, u8)>)
    ensures
        r is Some <==> clock_time(token@) is Some,
        r matches Some(hm) ==> clock_time(token@) == Some((hm.0 as int, hm.1 as int)) && hm.0 < 24
            && hm.1 < 60,
{
    let s = chars_of(token);
    if s.len() == 0 {
        return None;
    }
    let first = match digit_of(s[0]) {
        Some(d) => d,
        None => { return None; },
    };
    let second: Option<u8> = if s.len() >= 2 {
        digit_of(s[1])
    } else {
        None
    };
    let (n, h): (usize, u8) = match second {
        Some(d) => (2, first * 10 + d),
        None => (1, first),
    };
    let minute: Option<u8> = if s.len() >= n + 3 && s[n] == ':' {
        match (digit_of(s[n + 1]), digit_of(s[n + 2])) {
            (Some(a), Some(b)) => Some(a * 10 + b),
            _ => None,
        }
    } else {
        None
    };
    match minute {
        Some(m) => {
            if m >= 60 {
                None
            } else if s.len() == n + 3 {
                if h < 24 {
                    Some((h, m))
                } else {
                    None
                }
            } else {
                match parse_meridiem(&s, n + 3) {
                    Some(pm) => if 1 <= h && h <= 12 {
                        Some((hour_from_12(h, pm), m))
                    } else {
                        None
                    },
                    None => None,
                }
            }
        },
        None => {
            match parse_meridiem(&s, n) {
                Some(pm) => if 1 <= h && h <= 12 {
                    Some((hour_from_12(h, pm), 0))
                } else {
                    None
                },
                None => None,
            }
        },
    }
}

/// Reads a time word on the clock of `offset` and puts it into UTC: the UTC
/// time of day, and whether the UTC day is the day after, the day before or
/// the same as the local one.
pub fn parse_remind_at(token: &str, offset: &UtcOffset) -> (r: Result<
    (TimeOfDay, DayShift),
    ParseError,
>)
    ensures
        r is Err <==> clock_time(token@) is None,
        r matches Err(e) ==> e == ParseError::BadTime,
        r matches Ok(p) ==> ({
            let hm = clock_time(token@)->0;
            let local = nanos_of_hms(hm.0, hm.1, 0, 0);
            &&& p.0.wf()
            &&& p.0@ == utc_nanos(local, offset@)
            &&& p.1.days() == utc_day_shift(local, offset@)
        }),
{
    match parse_clock(token) {
        None => Err(ParseError::BadTime),
        Some((hour, minute)) => {
            match TimeOfDay::from_hms(hour, minute, 0) {
                Some(local) => Ok(offset.to_utc(local)),
                None => Err(ParseError::BadTime),
            }
        },
    }
}

/// Whether `s` has a `/` at place `p` and nowhere else.
pub open spec fn only_slash_at(s: Seq<char>, p: int) -> bool {
    &&& 0 <= p < s.len()
    &&& s[p] == '/'
    &&& forall|i: int| 0 <= i < s.len() && i != p ==> #[trigger] s[i] != '/'
}

/// The month and the day that a word of the form month`/`day writes: two
/// numbers of at most 255 with one `/` between them.
pub open spec fn month_day(s: Seq<char>) -> Option<(int, int)> {
    if exists|p: int| only_slash_at(s, p) {
        let p = choose|p: int| only_slash_at(s, p);
        match (unsigned_decimal(s.take(p), 255), unsigned_decimal(s.skip(p + 1), 255)) {
            (Some(m), Some(d)) => Some((m as int, d as int)),
            _ => None,
        }
    } else {
        None
    }
}

/// The day a reminder falls on, of the day it is written for and the same
/// day of the year after: the first if the time of day `tod` on it is ahead
/// of `now`, else the second if it is there and ahead of `now`.
pub open spec fn day_ahead(this_year: int, next_year: Option<int>, tod: int, now: int) -> Option<
    int,
> {
    if instant_of(this_year, tod) > now {
        Some(this_year)
    } else {
        match next_year {
            Some(day) => if instant_of(day, tod) > now {
                Some(day)
            } else {
                None
            },
            None => None,
        }
    }
}

/// The day on which a reminder for `month`/`day` at the UTC time of day `tod`
/// falls, seen at the instant `now` of the day `now_day`.
///
/// The date is taken in the year of `now_day` and moved by `shift` days, the
/// day that the change to UTC gained or lost. If it is then not ahead of
/// `now`, its month and day are taken in the year after that of `now_day`.
/// There is no such day where the calendar lacks one of these dates or the
/// result is still not ahead of `now`.
pub open spec fn reminder_day(
    month: int,
    day: int,
    tod: int,
    shift: int,
    now_day: int,
    now: int,
) -> Option<int> {
    let year = julian_calendar(now_day).0;
    if !is_calendar_date(year, month, day) {
        None
    } else {
        let this_year = calendar_julian_day(year, month, day) + shift;
        if !(MIN_JULIAN_DAY <= this_year <= MAX_JULIAN_DAY) {
            None
        } else {
            let moved = julian_calendar(this_year);
            let next_year = if is_calendar_date(year + 1, moved.1, moved.2) {
                Some(calendar_julian_day(year + 1, moved.1, moved.2))
            } else {
                None
            };
            day_ahead(this_year, next_year, tod, now)
        }
    }
}

/// A date that the calendar has in the year of `now` and in the year after,
/// written for a time of day that the change to UTC leaves on its day, is
/// always read, and as that month and day: of the year of `now` while the
/// reminder is then ahead of `now`, and of the year after once it is not.
/// Either way the reminder is ahead of `now`.
pub proof fn lemma_date_this_year_or_next(
    month: int,
    day: int,
    tod: int,
    now_day: int,
    now_tod: int,
) -> (r: int)
    requires
        MIN_JULIAN_DAY <= now_day <= MAX_JULIAN_DAY,
        0 <= now_tod < 86_400_000_000_000,
        0 <= tod < 86_400_000_000_000,
        is_calendar_date(julian_calendar(now_day).0, month, day),
        is_calendar_date(julian_calendar(now_day).0 + 1, month, day),
    ensures
        reminder_day(month, day, tod, 0, now_day, instant_of(now_day, now_tod)) == Some(r),
        instant_of(r, tod) > instant_of(now_day, now_tod),
        MIN_JULIAN_DAY <= r <= MAX_JULIAN_DAY,
        julian_calendar(r).1 == month,
        julian_calendar(r).2 == day,
        julian_calendar(r).0 == if instant_of(
            calendar_julian_day(julian_calendar(now_day).0, month, day),
            tod,
        ) > instant_of(now_day, now_tod) {
            julian_calendar(now_day).0
        } else {
            julian_calendar(now_day).0 + 1
        },
{
    let now = instant_of(now_day, now_tod);
    let today = julian_calendar(now_day);
    let year = today.0;
    lemma_day_has_date(now_day);
    let this_year = calendar_julian_day(year, month, day);
    let next_year = calendar_julian_day(year + 1, month, day);
    lemma_calendar_bounds(year, month, day);
    lemma_calendar_bounds(year + 1, month, day);
    lemma_calendar_of_day(year, month, day);
    lemma_calendar_of_day(year + 1, month, day);
    lemma_calendar_order(today.0, today.1, today.2, year + 1, month, day);
    if instant_of(this_year, tod) > now {
        this_year
    } else {
        next_year
    }
}

/// The day that a date word names, if it names one.
pub open spec fn token_date(s: Seq<char>, tod: int, shift: int, now_day: int, now: int) -> Option<
    int,
> {
    match month_day(s) {
        Some((month, day)) => reminder_day(month, day, tod, shift, now_day, now),
        None => None,
    }
}

/// Finds the `/` of a word that has exactly one.
fn find_only_slash(s: &Vec<char>) -> (r: Option<usize>)
    ensures
        r is Some <==> exists|p: int| only_slash_at(s@, p),
        r matches Some(p) ==> only_slash_at(s@, p as int),
{
    let mut found: Option<usize> = None;
    let mut i: usize = 0;
    while i < s.len()
        invariant
            i <= s.len(),
            found matches Some(p) ==> p < i && s@[p as int] == '/' && forall|k: int|
                0 <= k < i && k != p ==> #[trigger] s@[k] != '/',
            found is None ==> forall|k: int| 0 <= k < i ==> #[trigger] s@[k] != '/',
        decreases s.len() - i,
    {
        if s[i] == '/' {
            match found {
                Some(p) => {
                    proof {
                        assert forall|q: int| !only_slash_at(s@, q) by {
                            if only_slash_at(s@, q) {
                                if q == p as int {
                                    assert(s@[i as int] != '/');
                                } else {
                                    assert(s@[p as int] != '/');
                                }
                            }
                        }
                    }
                    return None;
                },
                None => {
                    found = Some(i);
                },
            }
        }
        i += 1;
    }
    proof {
        match found {
            Some(p) => {
                assert(only_slash_at(s@, p as int));
            },
            None => {
                assert forall|q: int| !only_slash_at(s@, q) by {
                    if only_slash_at(s@, q) {
                        assert(s@[q] != '/');
                    }
                }
            },
        }
    }
    found
}

/// Reads a word of the form month`/`day.
pub fn parse_month_day(token: &str) -> (r: Option<(u8, u8)>)
    ensures
        r is Some <==> month_day(token@) is Some,
        r matches Some(md) ==> month_day(token@) == Some((md.0 as int, md.1 as int)),
{
    let s = chars_of(token);
    match find_only_slash(&s) {
        None => None,
        Some(p) => {
            proof {
                let q = choose|q: int| only_slash_at(s@, q);
                assert(q == p) by {
                    if q != p {
                        assert(s@[p as int] != '/');
                    }
                }
                assert(s@.subrange(0, p as int) == s@.take(p as int));
                assert(s@.subrange(p + 1, s@.len() as int) == s@.skip(p + 1));
            }
            let month = parse_unsigned(&s, 0, p, 255);
            let day = parse_unsigned(&s, p + 1, s.len(), 255);
            match (month, day) {
                (Some(m), Some(d)) => Some((m as u8, d as u8)),
                _ => None,
            }
        },
    }
}

/// The date moved by the day that the change to UTC gained or lost, if the
/// calendar reaches that far.
pub fn shift_date(date: Date, day_shift: DayShift) -> (r: Option<Date>)
    ensures
        r is Some <==> MIN_JULIAN_DAY <= date@ + day_shift.days() <= MAX_JULIAN_DAY,
        r matches Some(shifted) ==> shifted@ == date@ + day_shift.days() && shifted.wf(),
{
    match day_shift {
        DayShift::Forward => date.next_day(),
        DayShift::Backward => date.previous_day(),
        DayShift::Unchanged => {
            let _ = date.to_julian_day();
            Some(date)
        },
    }
}

/// Picks the day of a reminder at the time of day `time`: `this_year` if it
/// is ahead of `now`, else `next_year` if it is there and ahead of `now`.
pub fn pick_date(this_year: Date, next_year: Option<Date>, time: &TimeOfDay, now: &DateTime) -> (r:
    Option<Date>)
    ensures
        r is Some <==> day_ahead(
            this_year@,
            match next_year {
                Some(d) => Some(d@),
                None => None,
            },
            time@,
            now@,
        ) is Some,
        r matches Some(date) ==> Some(date@) == day_ahead(
            this_year@,
            match next_year {
                Some(d) => Some(d@),
                None => None,
            },
            time@,
            now@,
        ) && date.wf() && instant_of(date@, time@) > now@ && (date == this_year || Some(date)
            == next_year),
{
    if DateTime::new(this_year, *time).is_after(now) {
        return Some(this_year);
    }
    match next_year {
        Some(date) => {
            if DateTime::new(date, *time).is_after(now) {
                Some(date)
            } else {
                None
            }
        },
        None => None,
    }
}

/// The date that the word `token` names for a reminder at the UTC time of day
/// `time`, where putting the time into UTC moved the day by `day_shift`.
/// What comes back is always ahead of `now`.
pub fn parse_date(token: &str, time: &TimeOfDay, day_shift: DayShift, now: &DateTime) -> (r:
    Option<Date>)
    ensures
        r is Some <==> token_date(token@, time@, day_shift.days(), now.date@, now@) is Some,
        r matches Some(date) ==> Some(date@) == token_date(
            token@,
            time@,
            day_shift.days(),
            now.date@,
            now@,
        ) && date.wf() && instant_of(date@, time@) > now@,
{
    let (month, day) = match parse_month_day(token) {
        Some(md) => md,
        None => { return None; },
    };
    let year = now.date.year();
    let written = match Date::from_calendar_date(year, month, day) {
        Some(date) => date,
        None => { return None; },
    };
    let this_year = match shift_date(written, day_shift) {
        Some(date) => date,
        None => { return None; },
    };
    let (_, moved_month, moved_day) = this_year.to_calendar_date();
    let next_year = if year < MAX_YEAR {
        Date::from_calendar_date(year + 1, moved_month, moved_day)
    } else {
        None
    };
    pick_date(this_year, next_year, time, now)
}

/// Whether a word may be the time of day: it has a digit and no `/`.
pub open spec fn is_time_word(s: Seq<char>) -> bool {
    &&& exists|i: int| 0 <= i < s.len() && is_digit(#[trigger] s[i])
    &&& forall|i: int| 0 <= i < s.len() ==> #[trigger] s[i] != '/'
}

/// Whether the word at place `i` is the first that may be the time of day.
pub open spec fn is_first_time_word(words: Seq<Seq<char>>, i: int) -> bool {
    &&& 0 <= i < words.len()
    &&& is_time_word(words[i])
    &&& forall|j: int| 0 <= j < i ==> !is_time_word(#[trigger] words[j])
}

/// The place of the time word among `words`, if there is one.
pub open spec fn time_word(words: Seq<Seq<char>>) -> Option<int> {
    if exists|i: int| is_first_time_word(words, i) {
        Some(choose|i: int| is_first_time_word(words, i))
    } else {
        None
    }
}

/// What a time specification says, over the timeline: the model of
/// `TaskTimeInfo`.
pub struct TimeSpec {
    /// Time of day in UTC, in nanoseconds since midnight.
    pub remind_time: int,
    pub days_of_week: Option<DaySet>,
    pub repeat_weekly: bool,
    /// Julian day number of the date.
    pub date: Option<int>,
}

/// What the line `text` says to a reader at the instant `now` of the day
/// `now_day`, whose clock is `offset` seconds ahead of UTC.
///
/// The time word is the first word with a digit and no `/`. The first of the
/// other words is read as a date, and failing that as a set of weekdays. The
/// third word of the line may ask for weekly repetition.
pub open spec fn time_spec(text: Seq<char>, now_day: int, now: int, offset: int) -> Result<
    TimeSpec,
    ParseError,
> {
    let words = split_words(text);
    if words.len() < 2 {
        Err(ParseError::Malformed)
    } else {
        match time_word(words) {
            None => Err(ParseError::NoTime),
            Some(at) => match clock_time(words[at]) {
                None => Err(ParseError::BadTime),
                Some((hour, minute)) => {
                    let local = nanos_of_hms(hour, minute, 0, 0);
                    let remind_time = utc_nanos(local, offset);
                    let shift = utc_day_shift(local, offset);
                    let word = words[if at == 0 {
                        1int
                    } else {
                        0int
                    }];
                    let date = token_date(word, remind_time, shift, now_day, now);
                    let days = token_days(word);
                    if date is None && days is None {
                        Err(ParseError::NoScheduleInfo)
                    } else {
                        Ok(
                            TimeSpec {
                                remind_time,
                                days_of_week: if date is Some {
                                    None
                                } else {
                                    days
                                },
                                repeat_weekly: words.len() >= 3 && asks_repeat(words[2]),
                                date,
                            },
                        )
                    }
                },
            },
        }
    }
}

/// Read on the UTC clock at any instant of a year before the last of the
/// calendar, `10pm 1/29` is a reminder at 22:00 with a date and no weekdays,
/// not repeated: the 29th of January, of the year of that instant while
/// 22:00 on that day is ahead, and of the year after once it is not.
pub proof fn lemma_ten_pm_on_a_date(now_day: int, now_tod: int) -> (date: int)
    requires
        MIN_JULIAN_DAY <= now_day <= MAX_JULIAN_DAY,
        0 <= now_tod < 86_400_000_000_000,
        julian_calendar(now_day).0 < MAX_YEAR,
    ensures
        time_spec("10pm 1/29"@, now_day, instant_of(now_day, now_tod), 0) == Ok::<
            TimeSpec,
            ParseError,
        >(
            TimeSpec {
                remind_time: nanos_of_hms(22, 0, 0, 0),
                days_of_week: None,
                repeat_weekly: false,
                date: Some(date),
            },
        ),
        julian_calendar(date).1 == 1,
        julian_calendar(date).2 == 29,
        julian_calendar(date).0 == julian_calendar(now_day).0 || julian_calendar(date).0
            == julian_calendar(now_day).0 + 1,
        julian_calendar(date).0 == julian_calendar(now_day).0 <==> instant_of(
            calendar_julian_day(julian_calendar(now_day).0, 1, 29),
            nanos_of_hms(22, 0, 0, 0),
        ) > instant_of(now_day, now_tod),
        instant_of(date, nanos_of_hms(22, 0, 0, 0)) > instant_of(now_day, now_tod),
{
    let text = "10pm 1/29"@;
    let time_word_text = seq!['1', '0', 'p', 'm'];
    let date_word = seq!['1', '/', '2', '9'];
    reveal_strlit("10pm 1/29");
    let words = split_words(text);
    assert(words =~= seq![time_word_text, date_word]) by {
        lemma_word_len_is(text, 4);
        let rest = text.skip(4);
        let last = rest.skip(1);
        lemma_word_len_is(last, 4);
        assert(text.take(4) =~= time_word_text);
        assert(last.take(4) =~= date_word);
        assert(last.skip(4).len() == 0);
        assert(split_words(last.skip(4)) =~= Seq::<Seq<char>>::empty());
        assert(split_words(last) =~= seq![date_word]);
        assert(split_words(rest) == split_words(last));
        assert(split_words(text) =~= seq![time_word_text] + split_words(rest));
    }
    assert(time_word(words) == Some(0int)) by {
        assert(is_digit(time_word_text[0]));
        assert(is_first_time_word(words, 0));
    }
    assert(clock_time(time_word_text) == Some((22int, 0int)));
    let tod = nanos_of_hms(22, 0, 0, 0);
    assert(utc_nanos(tod, 0) == tod && utc_day_shift(tod, 0) == 0);
    assert(month_day(date_word) == Some((1int, 29int))) by {
        assert(only_slash_at(date_word, 1));
        let p = choose|p: int| only_slash_at(date_word, p);
        assert(p == 1) by {
            if p != 1 {
                assert(date_word[1] != '/');
            }
        }
        let month = date_word.take(1);
        let day = date_word.skip(2);
        assert(month =~= seq!['1']);
        assert(day =~= seq!['2', '9']);
        assert(digits_value(month) == 1) by {
            assert(month.drop_last().len() == 0);
            reveal_with_fuel(digits_value, 2);
        }
        assert(digits_value(day) == 29) by {
            assert(day.drop_last() =~= seq!['2']);
            assert(day.drop_last().drop_last().len() == 0);
            reveal_with_fuel(digits_value, 3);
        }
    }
    lemma_day_has_date(now_day);
    lemma_date_this_year_or_next(1, 29, tod, now_day, now_tod)
}

/// A time specification, read: a time of day in UTC, and either a date or a
/// set of weekdays.
pub struct TaskTimeInfo {
    pub remind_time: TimeOfDay,
    pub days_of_week: Option<DaySet>,
    pub repeat_weekly: bool,
    pub date: Option<Date>,
}

impl View for TaskTimeInfo {
    type V = TimeSpec;

    open spec fn view(&self) -> TimeSpec {
        TimeSpec {
            remind_time: self.remind_time@,
            days_of_week: self.days_of_week,
            repeat_weekly: self.repeat_weekly,
            date: match self.date {
                Some(date) => Some(date@),
                None => None,
            },
        }
    }
}

/// Whether the part of `s` from `from` to `to` may be the time of day.
fn is_time_word_at(s: &Vec<char>, from: usize, to: usize) -> (b: bool)
    requires
        from <= to <= s.len(),
    ensures
        b == is_time_word(s@.subrange(from as int, to as int)),
{
    let ghost word = s@.subrange(from as int, to as int);
    let mut digit = false;
    let mut i: usize = from;
    while i < to
        invariant
            from <= i <= to <= s.len(),
            word == s@.subrange(from as int, to as int),
            digit == exists|k: int| 0 <= k < i - from && is_digit(#[trigger] word[k]),
            forall|k: int| 0 <= k < i - from ==> #[trigger] word[k] != '/',
        decreases to - i,
    {
        let c = s[i];
        assert(c == word[i - from]);
        if c == '/' {
            return false;
        }
        if digit_of(c).is_some() {
            digit = true;
        }
        i += 1;
    }
    digit
}

impl TaskTimeInfo {
    /// A specification that names exactly one of a date and a set of
    /// weekdays, the set not empty and the date ahead of `now`.
    pub open spec fn wf(self, now: int) -> bool {
        &&& self.remind_time.wf()
        &&& self.date is Some <==> self.days_of_week is None
        &&& self.days_of_week matches Some(days) ==> !days.is_empty_set()
        &&& self.date matches Some(date) ==> date.wf() && instant_of(date@, self.remind_time@)
            > now
    }

    /// Reads a time specification at the instant `now`, written by someone
    /// whose clock is `offset` ahead of UTC.
    pub fn parse(text: &str, now: &DateTime, offset: &UtcOffset) -> (r: Result<
        TaskTimeInfo,
        ParseError,
    >)
        ensures
            r matches Ok(info) ==> time_spec(text@, now.date@, now@, offset@) == Ok::<
                TimeSpec,
                ParseError,
            >(info@) && info.wf(now@),
            r matches Err(e) ==> time_spec(text@, now.date@, now@, offset@) == Err::<
                TimeSpec,
                ParseError,
            >(e),
    {
        let chars = chars_of(text);
        let ranges = word_ranges(&chars);
        let ghost words = split_words(text@);
        if ranges.len() < 2 {
            return Err(ParseError::Malformed);
        }
        let mut at: usize = 0;
        while at < ranges.len() && !is_time_word_at(&chars, ranges[at].0, ranges[at].1)
            invariant
                at <= ranges.len(),
                chars@ == text@,
                words == split_words(text@),
                ranges@.len() == words.len(),
                forall|k: int|
                    0 <= k < ranges@.len() ==> (#[trigger] ranges@[k]).0 < ranges@[k].1
                        <= chars@.len() && chars@.subrange(
                        ranges@[k].0 as int,
                        ranges@[k].1 as int,
                    ) == words[k],
                forall|j: int| 0 <= j < at ==> !is_time_word(#[trigger] words[j]),
            decreases ranges.len() - at,
        {
            at += 1;
        }
        if at == ranges.len() {
            proof {
                assert forall|i: int| !is_first_time_word(words, i) by {}
            }
            return Err(ParseError::NoTime);
        }
        proof {
            assert(is_first_time_word(words, at as int));
            let chosen = choose|i: int| is_first_time_word(words, i);
            assert(chosen == at) by {
                if chosen < at {
                    assert(!is_time_word(words[chosen]));
                } else if chosen > at {
                    assert(!is_time_word(words[at as int]));
                }
            }
        }
        let time_token = text.substring_char(ranges[at].0, ranges[at].1);
        let (remind_time, day_shift) = match parse_remind_at(time_token, offset) {
            Ok(pair) => pair,
            Err(e) => { return Err(e); },
        };
        let other: usize = if at == 0 {
            1
        } else {
            0
        };
        let word = text.substring_char(ranges[other].0, ranges[other].1);
        let date = parse_date(word, &remind_time, day_shift, now);
        let days = parse_on_days(word);
        let repeat_weekly = if ranges.len() >= 3 {
            parse_repeat_weekly(text.substring_char(ranges[2].0, ranges[2].1))
        } else {
            false
        };
        if date.is_none() && days.is_none() {
            return Err(ParseError::NoScheduleInfo);
        }
        let days_of_week = if date.is_some() {
            None
        } else {
            days
        };
        Ok(TaskTimeInfo { remind_time, days_of_week, repeat_weekly, date })
    }
}

} // verus!
