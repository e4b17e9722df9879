use reminders::calendar::{Date, DateTime, TimeOfDay, UtcOffset};
use reminders::model::{
    parse_recipient, RowError, StoredSchedule, Task, TaskCreateInfo, TaskRow, UserSettings,
    UserSettingsRow,
};
use reminders::weekday::{DaySet, Weekday};

fn at(year: i32, month: u8, day: u8, hour: u8, minute: u8) -> DateTime {
    DateTime::new(
        Date::from_calendar_date(year, month, day).unwrap(),
        TimeOfDay::from_hms(hour, minute, 0).unwrap(),
    )
}

fn row(user_id: &str, on_days: Option<Vec<i32>>, on_date: Option<Date>) -> TaskRow {
    TaskRow {
        id: 42,
        user_id: String::from(user_id),
        title: String::from("water the plants"),
        info: String::from("all of them"),
        remind_at: TimeOfDay::from_hms(9, 0, 0).unwrap(),
        on_days,
        repeat_weekly: true,
        time_created: at(2024, 1, 1, 10, 0),
        on_date,
    }
}

fn error_of(r: Result<Task, RowError>) -> RowError {
    match r {
        Ok(_) => panic!("the record was read as a task"),
        Err(e) => e,
    }
}

#[test]
fn settings_from_a_record() {
    let row = UserSettingsRow { user_id: String::from("7"), ack_phrase: String::from("ok ok") };
    let settings = UserSettings::from_row_struct(row).unwrap();
    assert_eq!(settings.ack_phrase, "ok ok");
}

#[test]
fn recurring_task_from_a_record() {
    let task = Task::from_row_struct(row("123456789012345678", Some(vec![2, 4, 6]), None)).unwrap();
    assert!(task.recurring());
    assert!(task.repeats_weekly());
    assert_eq!(task.id(), 42);
    assert_eq!(task.user_id(), 123_456_789_012_345_678);
    assert_eq!(task.remind_at(), TimeOfDay::from_hms(9, 0, 0).unwrap());
    assert_eq!(*task.created_at(), at(2024, 1, 1, 10, 0));
    let mwf = DaySet::empty().with(Weekday::Monday).with(Weekday::Wednesday).with(Weekday::Friday);
    assert_eq!(task.on_days(), Some(&mwf));
    assert_eq!(task.datetime_utc(), None);
    assert_eq!(task.datetime_local(&UtcOffset::utc()), None);
    assert!(task.is_wf());
    let info = task.remind_info();
    assert_eq!(info.title, "water the plants");
    assert_eq!(info.info, "all of them");
    assert_eq!(info.user_id, 123_456_789_012_345_678);
}

#[test]
fn dated_task_from_a_record() {
    let date = Date::from_calendar_date(2024, 1, 30).unwrap();
    let task = Task::from_row_struct(row("7", Some(vec![1]), Some(date))).unwrap();
    assert!(!task.recurring());
    assert!(!task.repeats_weekly());
    assert_eq!(task.on_days(), None);
    assert_eq!(task.datetime_utc(), Some(at(2024, 1, 30, 9, 0)));
    let est = UtcOffset::from_whole_seconds(-5 * 3600).unwrap();
    assert_eq!(task.datetime_local(&est), Some(at(2024, 1, 30, 4, 0)));
    let tokyo = UtcOffset::from_whole_seconds(9 * 3600).unwrap();
    assert_eq!(task.datetime_local(&tokyo), Some(at(2024, 1, 30, 18, 0)));
    assert_eq!(task.remind_info().user_id, 7);
}

#[test]
fn dated_task_needs_no_days() {
    let date = Date::from_calendar_date(2024, 1, 30).unwrap();
    assert!(Task::from_row_struct(row("7", None, Some(date))).is_ok());
}

#[test]
fn each_row_error() {
    assert_eq!(error_of(Task::from_row_struct(row("", Some(vec![2]), None))), RowError::UserId);
    assert_eq!(error_of(Task::from_row_struct(row("abc", Some(vec![2]), None))), RowError::UserId);
    assert_eq!(error_of(Task::from_row_struct(row("0", Some(vec![2]), None))), RowError::UserId);
    assert_eq!(error_of(Task::from_row_struct(row("-5", Some(vec![2]), None))), RowError::UserId);
    assert_eq!(
        error_of(Task::from_row_struct(row("18446744073709551616", Some(vec![2]), None))),
        RowError::UserId
    );
    assert_eq!(error_of(Task::from_row_struct(row("x", None, None))), RowError::UserId);
    assert_eq!(error_of(Task::from_row_struct(row("7", None, None))), RowError::NoDays);
    assert_eq!(error_of(Task::from_row_struct(row("7", Some(vec![]), None))), RowError::NoDays);
    assert_eq!(error_of(Task::from_row_struct(row("7", Some(vec![2, 8]), None))), RowError::Weekday);
    assert_eq!(error_of(Task::from_row_struct(row("7", Some(vec![0]), None))), RowError::Weekday);
    let mut late = row("7", Some(vec![2]), None);
    late.time_created = at(9999, 12, 20, 0, 0);
    assert_eq!(error_of(Task::from_row_struct(late)), RowError::CreatedAt);
    let mut in_time = row("7", Some(vec![2]), None);
    in_time.time_created = at(9999, 12, 18, 0, 0);
    assert!(Task::from_row_struct(in_time).is_ok());
}

#[test]
fn recipients() {
    assert_eq!(parse_recipient("1"), Some(1));
    assert_eq!(parse_recipient("+1"), Some(1));
    assert_eq!(parse_recipient("007"), Some(7));
    assert_eq!(parse_recipient("18446744073709551615"), Some(u64::MAX));
    assert_eq!(parse_recipient("18446744073709551616"), None);
    assert_eq!(parse_recipient("000"), None);
    assert_eq!(parse_recipient("+"), None);
    assert_eq!(parse_recipient(" 1"), None);
    assert_eq!(parse_recipient("1 "), None);
    assert_eq!(parse_recipient("1_000"), None);
}

#[test]
fn task_without_days_is_not_well_formed() {
    let task = Task::Recurring {
        id: 1,
        user_id: 7,
        title: String::new(),
        info: String::new(),
        remind_at: TimeOfDay::midnight(),
        on_days: DaySet::empty(),
        repeat_weekly: false,
        created_at: at(2024, 1, 1, 10, 0),
    };
    assert!(!task.is_wf());
}

fn create_info(date: Option<Date>, on_days: Option<DaySet>, repeat_weekly: bool) -> TaskCreateInfo {
    TaskCreateInfo {
        title: String::from("t"),
        info: String::new(),
        remind_at: TimeOfDay::from_hms(9, 0, 0).unwrap(),
        date,
        on_days,
        repeat_weekly,
    }
}

#[test]
fn new_task_is_stored_by_date_or_by_days() {
    let date = Date::from_calendar_date(2024, 1, 30).unwrap();
    let days = DaySet::empty().with(Weekday::Saturday).with(Weekday::Sunday);
    assert_eq!(
        create_info(Some(date), None, true).stored_schedule(),
        Some(StoredSchedule::OnDate { date })
    );
    assert_eq!(
        create_info(Some(date), Some(days), true).stored_schedule(),
        Some(StoredSchedule::OnDate { date })
    );
    assert_eq!(
        create_info(None, Some(days), true).stored_schedule(),
        Some(StoredSchedule::OnDays { numbers: vec![1, 7], repeat_weekly: true })
    );
    assert_eq!(
        create_info(None, Some(days), false).stored_schedule(),
        Some(StoredSchedule::OnDays { numbers: vec![1, 7], repeat_weekly: false })
    );
    assert_eq!(create_info(None, None, true).stored_schedule(), None);
}

#[test]
fn what_is_stored_reads_back_as_the_same_task() {
    let days = DaySet::empty().with(Weekday::Tuesday).with(Weekday::Thursday);
    let stored = create_info(None, Some(days), true).stored_schedule().unwrap();
    let numbers = match stored {
        StoredSchedule::OnDays { numbers, .. } => numbers,
        _ => panic!("stored by date"),
    };
    let task = Task::from_row_struct(row("7", Some(numbers), None)).unwrap();
    assert_eq!(task.on_days(), Some(&days));
}
