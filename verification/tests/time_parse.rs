use reminders::calendar::{Date, DateTime, DayShift, TimeOfDay, UtcOffset};
use reminders::time_parse::{
    parse_clock, parse_date, parse_dayofweek, parse_month_day, parse_on_days, parse_remind_at,
    parse_repeat_weekly, ParseError, TaskTimeInfo,
};
use reminders::weekday::{DaySet, Weekday};

fn date(year: i32, month: u8, day: u8) -> Date {
    Date::from_calendar_date(year, month, day).unwrap()
}

fn time(hour: u8, minute: u8) -> TimeOfDay {
    TimeOfDay::from_hms(hour, minute, 0).unwrap()
}

fn at(year: i32, month: u8, day: u8, hour: u8, minute: u8) -> DateTime {
    DateTime::new(date(year, month, day), time(hour, minute))
}

fn hours(h: i32) -> UtcOffset {
    UtcOffset::from_whole_seconds(h * 3600).unwrap()
}

fn parse(text: &str) -> Result<TaskTimeInfo, ParseError> {
    TaskTimeInfo::parse(text, &at(2024, 1, 10, 12, 0), &UtcOffset::utc())
}

fn error_of(text: &str) -> ParseError {
    match parse(text) {
        Ok(_) => panic!("{text:?} was read as a time specification"),
        Err(e) => e,
    }
}

#[test]
fn all_seven_letters_repeating() {
    let info = parse("9am UMTWRFS rep").unwrap();
    assert_eq!(info.days_of_week, Some(DaySet::all()));
    assert!(info.repeat_weekly);
    assert_eq!(info.remind_time, time(9, 0));
    assert_eq!(info.date, None);
}

#[test]
fn all_seven_letters_on_a_local_clock() {
    let info =
        TaskTimeInfo::parse("9am UMTWRFS rep", &at(2024, 1, 10, 12, 0), &hours(-5)).unwrap();
    assert_eq!(info.days_of_week, Some(DaySet::all()));
    assert!(info.repeat_weekly);
    assert_eq!(info.remind_time, time(14, 0));
}

#[test]
fn letter_a_lists_every_day() {
    for text in ["9am a rep", "9am ALL rep", "9am A", "9am xax"] {
        let info = parse(text).unwrap();
        assert_eq!(info.days_of_week, Some(DaySet::all()), "{text}");
        assert_eq!(info.date, None);
    }
    assert!(parse("9am a rep").unwrap().repeat_weekly);
    assert!(parse("9am ALL rep").unwrap().repeat_weekly);
    assert!(!parse("9am A").unwrap().repeat_weekly);
}

#[test]
fn date_word_gives_a_date_and_no_days() {
    let info = parse("10pm 1/29").unwrap();
    assert_eq!(info.date, Some(date(2024, 1, 29)));
    assert_eq!(info.days_of_week, None);
    assert_eq!(info.remind_time, time(22, 0));
    assert!(!info.repeat_weekly);
}

#[test]
fn date_that_has_passed_moves_to_next_year() {
    let now = at(2024, 2, 1, 12, 0);
    let info = TaskTimeInfo::parse("10pm 1/29", &now, &UtcOffset::utc()).unwrap();
    assert_eq!(info.date, Some(date(2025, 1, 29)));
}

#[test]
fn date_of_today_counts_only_while_the_time_is_ahead() {
    let now = at(2024, 1, 29, 22, 0);
    let info = TaskTimeInfo::parse("10pm 1/29", &now, &UtcOffset::utc()).unwrap();
    assert_eq!(info.date, Some(date(2025, 1, 29)));
    let earlier = at(2024, 1, 29, 21, 59);
    let info = TaskTimeInfo::parse("10pm 1/29", &earlier, &UtcOffset::utc()).unwrap();
    assert_eq!(info.date, Some(date(2024, 1, 29)));
}

#[test]
fn date_follows_the_day_shift() {
    let now = at(2024, 1, 10, 12, 0);
    let info = TaskTimeInfo::parse("10pm 1/29", &now, &hours(-5)).unwrap();
    assert_eq!(info.remind_time, time(3, 0));
    assert_eq!(info.date, Some(date(2024, 1, 30)));
    let info = TaskTimeInfo::parse("8am 1/29", &now, &hours(9)).unwrap();
    assert_eq!(info.remind_time, time(23, 0));
    assert_eq!(info.date, Some(date(2024, 1, 28)));
}

#[test]
fn shifted_date_crosses_the_year() {
    let now = at(2024, 6, 1, 0, 0);
    let info = TaskTimeInfo::parse("10pm 12/31", &now, &hours(-5)).unwrap();
    assert_eq!(info.date, Some(date(2025, 1, 1)));
    let info = TaskTimeInfo::parse("8am 1/1", &now, &hours(9)).unwrap();
    assert_eq!(info.date, Some(date(2025, 12, 31)));
}

#[test]
fn leap_day_that_has_passed_is_no_date() {
    let now = at(2024, 3, 1, 0, 0);
    assert_eq!(
        TaskTimeInfo::parse("9am 2/29", &now, &UtcOffset::utc()).err(),
        Some(ParseError::NoScheduleInfo)
    );
    let before = at(2024, 2, 1, 0, 0);
    let info = TaskTimeInfo::parse("9am 2/29", &before, &UtcOffset::utc()).unwrap();
    assert_eq!(info.date, Some(date(2024, 2, 29)));
    let common = at(2023, 2, 1, 0, 0);
    assert_eq!(
        TaskTimeInfo::parse("9am 2/29", &common, &UtcOffset::utc()).err(),
        Some(ParseError::NoScheduleInfo)
    );
}

#[test]
fn each_error() {
    assert_eq!(error_of(""), ParseError::Malformed);
    assert_eq!(error_of("9am"), ParseError::Malformed);
    assert_eq!(error_of("   9am   "), ParseError::Malformed);
    assert_eq!(error_of("mwf rep"), ParseError::NoTime);
    assert_eq!(error_of("1/29 2/3"), ParseError::NoTime);
    assert_eq!(error_of("25:00 mwf"), ParseError::BadTime);
    assert_eq!(error_of("9 mwf"), ParseError::BadTime);
    assert_eq!(error_of("13pm mwf"), ParseError::BadTime);
    assert_eq!(error_of("0am mwf"), ParseError::BadTime);
    assert_eq!(error_of("9:5am mwf"), ParseError::BadTime);
    assert_eq!(error_of("9:60 mwf"), ParseError::BadTime);
    assert_eq!(error_of("9am xyz"), ParseError::NoScheduleInfo);
    assert_eq!(error_of("9am 13/1"), ParseError::NoScheduleInfo);
    assert_eq!(error_of("9am 2/30"), ParseError::NoScheduleInfo);
    assert_eq!(error_of("9am 1/2/3"), ParseError::NoScheduleInfo);
    assert_eq!(error_of("9am /"), ParseError::NoScheduleInfo);
}

#[test]
fn time_word_may_stand_anywhere() {
    let info = parse("mwf 10pm rep").unwrap();
    assert_eq!(info.remind_time, time(22, 0));
    assert_eq!(
        info.days_of_week,
        Some(DaySet::empty().with(Weekday::Monday).with(Weekday::Wednesday).with(Weekday::Friday))
    );
    assert!(info.repeat_weekly);
    let info = parse("1/29 10pm").unwrap();
    assert_eq!(info.date, Some(date(2024, 1, 29)));
}

#[test]
fn words_are_parted_by_any_run_of_spaces() {
    let info = parse("  9:30am \t mwf\r\n").unwrap();
    assert_eq!(info.remind_time, time(9, 30));
    assert!(!info.repeat_weekly);
}

#[test]
fn repetition_goes_by_the_third_word() {
    assert!(parse("10pm mwf REPEAT").unwrap().repeat_weekly);
    assert!(parse("10pm mwf norepeat").unwrap().repeat_weekly);
    assert!(!parse("10pm mwf weekly").unwrap().repeat_weekly);
    assert!(!parse("10pm mwf x rep").unwrap().repeat_weekly);
    assert!(!parse("10pm mwf").unwrap().repeat_weekly);
}

#[test]
fn clock_forms() {
    assert_eq!(parse_clock("9am"), Some((9, 0)));
    assert_eq!(parse_clock("9AM"), Some((9, 0)));
    assert_eq!(parse_clock("9 am"), Some((9, 0)));
    assert_eq!(parse_clock("12am"), Some((0, 0)));
    assert_eq!(parse_clock("12pm"), Some((12, 0)));
    assert_eq!(parse_clock("1pm"), Some((13, 0)));
    assert_eq!(parse_clock("11pm"), Some((23, 0)));
    assert_eq!(parse_clock("9:30am"), Some((9, 30)));
    assert_eq!(parse_clock("9:30 PM"), Some((21, 30)));
    assert_eq!(parse_clock("09:05pM"), Some((21, 5)));
    assert_eq!(parse_clock("12:59am"), Some((0, 59)));
    assert_eq!(parse_clock("0:00"), Some((0, 0)));
    assert_eq!(parse_clock("9:30"), Some((9, 30)));
    assert_eq!(parse_clock("23:59"), Some((23, 59)));
    assert_eq!(parse_clock("13:30"), Some((13, 30)));
}

#[test]
fn words_that_are_no_clock_time() {
    for word in [
        "", "am", "9", "24:00", "9:60", "9:5", "9:005", "123am", "123:00", "13:30pm", "0:30am",
        "9am ", "9  am", "9:30  am", "9xm", "9a", "9:30a", "+9am", "9:30:00", "9.30am", "9amx",
    ] {
        assert_eq!(parse_clock(word), None, "{word:?}");
    }
}

#[test]
fn remind_at_puts_the_time_into_utc() {
    assert_eq!(parse_remind_at("10pm", &hours(-5)), Ok((time(3, 0), DayShift::Forward)));
    assert_eq!(parse_remind_at("8:15am", &hours(9)), Ok((time(23, 15), DayShift::Backward)));
    assert_eq!(parse_remind_at("8:15", &UtcOffset::utc()), Ok((time(8, 15), DayShift::Unchanged)));
    let half = UtcOffset::from_whole_seconds(5 * 3600 + 1800).unwrap();
    assert_eq!(parse_remind_at("6am", &half), Ok((time(0, 30), DayShift::Unchanged)));
    assert_eq!(parse_remind_at("soon", &UtcOffset::utc()), Err(ParseError::BadTime));
}

#[test]
fn day_letters() {
    assert_eq!(parse_dayofweek('U'), Some(Weekday::Sunday));
    assert_eq!(parse_dayofweek('M'), Some(Weekday::Monday));
    assert_eq!(parse_dayofweek('T'), Some(Weekday::Tuesday));
    assert_eq!(parse_dayofweek('W'), Some(Weekday::Wednesday));
    assert_eq!(parse_dayofweek('R'), Some(Weekday::Thursday));
    assert_eq!(parse_dayofweek('F'), Some(Weekday::Friday));
    assert_eq!(parse_dayofweek('S'), Some(Weekday::Saturday));
    assert_eq!(parse_dayofweek('r'), Some(Weekday::Thursday));
    assert_eq!(parse_dayofweek('A'), None);
    assert_eq!(parse_dayofweek('x'), None);
    assert_eq!(parse_dayofweek('1'), None);
}

#[test]
fn day_words() {
    let mwf = DaySet::empty().with(Weekday::Monday).with(Weekday::Wednesday).with(Weekday::Friday);
    assert_eq!(parse_on_days("mwf"), Some(mwf));
    assert_eq!(parse_on_days("MWF"), Some(mwf));
    assert_eq!(parse_on_days("fwmmm"), Some(mwf));
    assert_eq!(parse_on_days("x-m.w,f"), Some(mwf));
    assert_eq!(parse_on_days("rep"), Some(DaySet::empty().with(Weekday::Thursday)));
    assert_eq!(parse_on_days("umtwrfs"), Some(DaySet::all()));
    assert_eq!(parse_on_days("a"), Some(DaySet::all()));
    assert_eq!(parse_on_days(""), None);
    assert_eq!(parse_on_days("xyz"), None);
    assert_eq!(parse_on_days("1/29"), None);
}

#[test]
fn repeat_words() {
    assert!(parse_repeat_weekly("rep"));
    assert!(parse_repeat_weekly("REP"));
    assert!(parse_repeat_weekly("Repeat"));
    assert!(parse_repeat_weekly("xrEpx"));
    assert!(!parse_repeat_weekly(""));
    assert!(!parse_repeat_weekly("re"));
    assert!(!parse_repeat_weekly("r e p"));
    assert!(!parse_repeat_weekly("per"));
}

#[test]
fn month_and_day_words() {
    assert_eq!(parse_month_day("1/29"), Some((1, 29)));
    assert_eq!(parse_month_day("01/029"), Some((1, 29)));
    assert_eq!(parse_month_day("+1/+2"), Some((1, 2)));
    assert_eq!(parse_month_day("255/0"), Some((255, 0)));
    assert_eq!(parse_month_day("256/1"), None);
    assert_eq!(parse_month_day("1/"), None);
    assert_eq!(parse_month_day("/1"), None);
    assert_eq!(parse_month_day("1-29"), None);
    assert_eq!(parse_month_day("1/2/3"), None);
    assert_eq!(parse_month_day("a/1"), None);
    assert_eq!(parse_month_day("1/ 2"), None);
    assert_eq!(parse_month_day("-1/2"), None);
}

#[test]
fn date_words() {
    let now = at(2024, 1, 10, 12, 0);
    assert_eq!(parse_date("1/29", &time(22, 0), DayShift::Unchanged, &now), Some(date(2024, 1, 29)));
    assert_eq!(parse_date("1/29", &time(3, 0), DayShift::Forward, &now), Some(date(2024, 1, 30)));
    assert_eq!(parse_date("1/29", &time(23, 0), DayShift::Backward, &now), Some(date(2024, 1, 28)));
    assert_eq!(parse_date("1/9", &time(22, 0), DayShift::Unchanged, &now), Some(date(2025, 1, 9)));
    assert_eq!(parse_date("1/10", &time(12, 0), DayShift::Unchanged, &now), Some(date(2025, 1, 10)));
    assert_eq!(parse_date("1/10", &time(12, 1), DayShift::Unchanged, &now), Some(date(2024, 1, 10)));
    assert_eq!(parse_date("mwf", &time(22, 0), DayShift::Unchanged, &now), None);
    assert_eq!(parse_date("0/1", &time(22, 0), DayShift::Unchanged, &now), None);
    assert_eq!(parse_date("2/30", &time(22, 0), DayShift::Unchanged, &now), None);
}

#[test]
fn date_words_at_the_end_of_the_calendar() {
    let now = at(9999, 6, 1, 0, 0);
    assert_eq!(parse_date("12/31", &time(3, 0), DayShift::Forward, &now), None);
    assert_eq!(parse_date("1/1", &time(3, 0), DayShift::Unchanged, &now), None);
    assert_eq!(parse_date("12/31", &time(3, 0), DayShift::Unchanged, &now), Some(date(9999, 12, 31)));
}
