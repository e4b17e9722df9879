use reminders::bot::{needs_help, parse_text, DzContextInner, MessageOutcome, TextError};
use reminders::calendar::{Date, DateTime, TimeOfDay, UtcOffset};
use reminders::jobs::{
    JobCommand, JobEvent, JobPhase, PingCommand, PingEvent, PingPhase, SpamPingSignal,
    SpamPingStatus,
};
use reminders::model::Task;
use reminders::time_parse::ParseError;
use reminders::weekday::{DaySet, Weekday};

fn at(year: i32, month: u8, day: u8, hour: u8, minute: u8) -> DateTime {
    DateTime::new(
        Date::from_calendar_date(year, month, day).unwrap(),
        TimeOfDay::from_hms(hour, minute, 0).unwrap(),
    )
}

fn now() -> DateTime {
    at(2024, 1, 10, 12, 0)
}

fn weekly(id: i64, user_id: u64) -> Task {
    Task::Recurring {
        id,
        user_id,
        title: String::from("t"),
        info: String::new(),
        remind_at: TimeOfDay::from_hms(9, 0, 0).unwrap(),
        on_days: DaySet::empty().with(Weekday::Friday),
        repeat_weekly: true,
        created_at: now(),
    }
}

fn text_error(content: &str) -> TextError {
    match parse_text(content, &now(), &UtcOffset::utc()) {
        Ok(_) => panic!("{content:?} was read as a task"),
        Err(e) => e,
    }
}

#[test]
fn message_of_three_parts() {
    let task = parse_text("Plants\nwater them\nall of them\n9am mwf rep", &now(), &UtcOffset::utc())
        .ok()
        .unwrap();
    assert_eq!(task.title, "Plants");
    assert_eq!(task.info, "water them\nall of them");
    assert_eq!(task.remind_at, TimeOfDay::from_hms(9, 0, 0).unwrap());
    assert!(task.repeat_weekly);
    assert_eq!(task.date, None);
    assert_eq!(
        task.on_days,
        Some(DaySet::empty().with(Weekday::Monday).with(Weekday::Wednesday).with(Weekday::Friday))
    );
}

#[test]
fn message_without_a_body() {
    let task = parse_text("Dentist\n10pm 1/29", &now(), &UtcOffset::utc()).ok().unwrap();
    assert_eq!(task.title, "Dentist");
    assert_eq!(task.info, "");
    assert_eq!(task.date, Date::from_calendar_date(2024, 1, 29));
    assert_eq!(task.on_days, None);
}

#[test]
fn message_line_ends() {
    let task =
        parse_text("Dentist\r\none\r\n\r\ntwo\r\n10pm 1/29\n", &now(), &UtcOffset::utc()).ok().unwrap();
    assert_eq!(task.title, "Dentist");
    assert_eq!(task.info, "one\n\ntwo");
    let task = parse_text("\n\n9am a", &now(), &UtcOffset::utc()).ok().unwrap();
    assert_eq!(task.title, "");
    assert_eq!(task.info, "");
}

#[test]
fn each_text_error() {
    assert_eq!(text_error(""), TextError::NoTitle);
    assert_eq!(text_error("9am mwf"), TextError::NoTimes);
    assert_eq!(text_error("9am mwf\n"), TextError::NoTimes);
    assert_eq!(text_error("title\n9am"), TextError::Time(ParseError::Malformed));
    assert_eq!(text_error("title\nmwf rep"), TextError::Time(ParseError::NoTime));
    assert_eq!(text_error("title\n9 mwf"), TextError::Time(ParseError::BadTime));
    assert_eq!(text_error("title\n9am xyz"), TextError::Time(ParseError::NoScheduleInfo));
    assert_eq!(text_error("title\n9am mwf\n\n"), TextError::Time(ParseError::Malformed));
}

#[test]
fn help_is_asked_in_any_case() {
    assert!(needs_help("help"));
    assert!(needs_help("HELP me"));
    assert!(needs_help("please hElP"));
    assert!(!needs_help("hel p"));
    assert!(!needs_help(""));
}

#[test]
fn new_registry_is_empty() {
    let ctx = DzContextInner::new();
    assert_eq!(ctx.num_active_spams(), 0);
    assert_eq!(ctx.loop_count(), 0);
    assert_eq!(ctx.job_count(), 0);
    assert_eq!(ctx.status(7), SpamPingStatus::Stopped);
}

#[test]
fn loops_are_made_by_the_first_start_only() {
    let mut ctx = DzContextInner::new();
    assert_eq!(ctx.signal(7, SpamPingSignal::Stop), PingCommand::Idle);
    assert_eq!(ctx.signal(7, SpamPingSignal::End), PingCommand::Idle);
    assert_eq!(ctx.ping_step(7, PingEvent::PaceElapsed), PingCommand::Idle);
    assert_eq!(ctx.loop_count(), 0);
    assert_eq!(ctx.signal(7, SpamPingSignal::Start), PingCommand::Ping { pause_millis: 1500 });
    assert_eq!(ctx.loop_count(), 1);
    assert_eq!(ctx.signal(7, SpamPingSignal::Start), PingCommand::Ping { pause_millis: 1500 });
    assert_eq!(ctx.loop_count(), 1);
    assert_eq!(ctx.num_active_spams(), 1);
}

#[test]
fn pause_grows_with_the_active_loops() {
    let mut ctx = DzContextInner::new();
    for n in 1..=20u64 {
        assert_eq!(
            ctx.signal(100 + n, SpamPingSignal::Start),
            PingCommand::Ping { pause_millis: 1500 * (n as u128) }
        );
        assert_eq!(ctx.num_active_spams(), n);
    }
    for recipient in 101..=120u64 {
        assert_eq!(
            ctx.ping_step(recipient, PingEvent::PaceElapsed),
            PingCommand::Ping { pause_millis: 30_000 }
        );
    }
    assert_eq!(ctx.signal(101, SpamPingSignal::Stop), PingCommand::Idle);
    assert_eq!(ctx.signal(102, SpamPingSignal::End), PingCommand::Close);
    assert_eq!(ctx.num_active_spams(), 18);
    assert_eq!(
        ctx.ping_step(103, PingEvent::PaceElapsed),
        PingCommand::Ping { pause_millis: 27_000 }
    );
    assert_eq!(ctx.ping_step(101, PingEvent::PaceElapsed), PingCommand::Idle);
}

#[test]
fn stop_for_a_stopped_recipient_changes_nothing() {
    let mut ctx = DzContextInner::new();
    ctx.signal(7, SpamPingSignal::Start);
    ctx.signal(8, SpamPingSignal::Start);
    assert_eq!(ctx.signal(7, SpamPingSignal::Stop), PingCommand::Idle);
    assert_eq!(ctx.num_active_spams(), 1);
    assert_eq!(ctx.signal(7, SpamPingSignal::Stop), PingCommand::Idle);
    assert_eq!(ctx.num_active_spams(), 1);
    assert_eq!(ctx.status(7), SpamPingStatus::Stopped);
    assert_eq!(ctx.status(8), SpamPingStatus::Active);
}

#[test]
fn cancel_for_tells_whether_a_loop_was_active() {
    let mut ctx = DzContextInner::new();
    assert!(!ctx.cancel_for(7));
    ctx.signal(7, SpamPingSignal::Start);
    assert!(ctx.cancel_for(7));
    assert_eq!(ctx.status(7), SpamPingStatus::Stopped);
    assert_eq!(ctx.num_active_spams(), 0);
    assert!(!ctx.cancel_for(7));
    ctx.signal(7, SpamPingSignal::End);
    assert!(!ctx.cancel_for(7));
    assert_eq!(ctx.loop_phase(7), Some(PingPhase::Ended));
}

#[test]
fn jobs_are_filed_stepped_and_dropped() {
    let mut ctx = DzContextInner::new();
    ctx.add_task(weekly(1, 7));
    assert_eq!(ctx.job_count(), 1);
    assert_eq!(ctx.job_step(2, JobEvent::Wake, &now()), None);
    assert_eq!(
        ctx.job_step(1, JobEvent::Wake, &now()),
        Some(JobCommand::Sleep { seconds: 2 * 86_400 - 3 * 3600, nanoseconds: 0 })
    );
    assert_eq!(ctx.job_state(1), Some((JobPhase::Waiting, false)));
    let friday = at(2024, 1, 12, 9, 0);
    assert_eq!(ctx.job_step(1, JobEvent::TimerElapsed, &friday), Some(JobCommand::Deliver));
    assert_eq!(ctx.job_step(1, JobEvent::Delivered, &friday), Some(JobCommand::StartPing));
    assert_eq!(
        ctx.job_step(1, JobEvent::Wake, &friday),
        Some(JobCommand::Sleep { seconds: 7 * 86_400, nanoseconds: 0 })
    );
    assert!(ctx.kill_reminder_job(1));
    assert_eq!(ctx.job_state(1), Some((JobPhase::Waiting, true)));
    assert_eq!(ctx.job_step(1, JobEvent::Cancel, &friday), Some(JobCommand::Retire));
    assert_eq!(ctx.job_state(1), Some((JobPhase::Retiring, true)));
    assert!(ctx.kill_reminder_job(1));
    assert_eq!(ctx.job_step(1, JobEvent::TimerElapsed, &friday), Some(JobCommand::Nothing));
    assert_eq!(ctx.job_count(), 1);
    assert_eq!(ctx.job_step(1, JobEvent::Deleted, &friday), Some(JobCommand::Exit));
    assert_eq!(ctx.job_count(), 0);
    assert!(!ctx.kill_reminder_job(1));
    assert_eq!(ctx.job_step(1, JobEvent::TimerElapsed, &friday), None);
}

#[test]
fn a_retiring_job_stays_filed_until_its_task_is_deleted() {
    let mut ctx = DzContextInner::new();
    ctx.add_task(weekly(1, 7));
    ctx.kill_reminder_job(1);
    assert_eq!(ctx.job_step(1, JobEvent::Wake, &now()), Some(JobCommand::Retire));
    assert_eq!(ctx.job_state(1), Some((JobPhase::Retiring, true)));
    assert_eq!(ctx.job_step(1, JobEvent::Wake, &now()), Some(JobCommand::Nothing));
    assert_eq!(ctx.job_count(), 1);
    assert_eq!(ctx.job_step(1, JobEvent::Deleted, &now()), Some(JobCommand::Exit));
    assert_eq!(ctx.job_state(1), None);
}

#[test]
fn a_failing_job_is_dropped_at_once() {
    let mut ctx = DzContextInner::new();
    ctx.add_task(weekly(1, 7));
    assert_eq!(ctx.job_step(1, JobEvent::Wake, &at(2024, 3, 1, 0, 0)), Some(JobCommand::Abort));
    assert_eq!(ctx.job_count(), 0);
}

#[test]
fn killing_a_job_that_is_not_asleep_is_seen_when_it_wakes() {
    let mut ctx = DzContextInner::new();
    ctx.add_task(weekly(1, 7));
    assert!(ctx.kill_reminder_job(1));
    assert_eq!(ctx.job_count(), 1);
    assert_eq!(ctx.job_state(1), Some((JobPhase::Scheduled, true)));
    assert_eq!(ctx.job_step(1, JobEvent::Wake, &now()), Some(JobCommand::Retire));
    assert_eq!(ctx.job_count(), 1);
    assert_eq!(ctx.job_step(1, JobEvent::Deleted, &now()), Some(JobCommand::Exit));
    assert_eq!(ctx.job_count(), 0);
}

#[test]
fn the_count_goes_up_on_start_and_down_on_stop() {
    let mut ctx = DzContextInner::new();
    assert_eq!(ctx.num_active_spams(), 0);
    ctx.signal(7, SpamPingSignal::Start);
    assert_eq!(ctx.num_active_spams(), 1);
    ctx.signal(7, SpamPingSignal::Start);
    assert_eq!(ctx.num_active_spams(), 1);
    ctx.ping_step(7, PingEvent::PaceElapsed);
    assert_eq!(ctx.num_active_spams(), 1);
    ctx.signal(8, SpamPingSignal::Start);
    assert_eq!(ctx.num_active_spams(), 2);
    ctx.signal(7, SpamPingSignal::Stop);
    assert_eq!(ctx.num_active_spams(), 1);
    ctx.signal(7, SpamPingSignal::Stop);
    assert_eq!(ctx.num_active_spams(), 1);
    ctx.signal(8, SpamPingSignal::End);
    assert_eq!(ctx.num_active_spams(), 0);
    ctx.signal(8, SpamPingSignal::Start);
    assert_eq!(ctx.num_active_spams(), 0);
    ctx.signal(9, SpamPingSignal::Stop);
    assert_eq!(ctx.num_active_spams(), 0);
}

#[test]
fn replay_files_the_tasks_it_can_work_on() {
    let mut ctx = DzContextInner::new();
    let bad = Task::Recurring {
        id: 3,
        user_id: 7,
        title: String::new(),
        info: String::new(),
        remind_at: TimeOfDay::midnight(),
        on_days: DaySet::empty(),
        repeat_weekly: true,
        created_at: now(),
    };
    let filed = ctx.replay_all(vec![weekly(1, 7), bad, weekly(2, 8)]);
    assert_eq!(filed, 2);
    assert!(ctx.job_state(1).is_some());
    assert!(ctx.job_state(2).is_some());
    assert!(ctx.job_state(3).is_none());
    assert_eq!(ctx.loop_count(), 0);
    assert_eq!(ctx.job_state(2), Some((JobPhase::Scheduled, false)));
}

#[test]
fn messages_of_bots_and_public_channels_are_ignored() {
    let mut ctx = DzContextInner::new();
    ctx.signal(7, SpamPingSignal::Start);
    let text = "Plants\n9am mwf";
    assert!(matches!(
        ctx.on_message(7, true, false, text, &now(), &UtcOffset::utc()),
        MessageOutcome::Ignored
    ));
    assert!(matches!(
        ctx.on_message(7, false, true, text, &now(), &UtcOffset::utc()),
        MessageOutcome::Ignored
    ));
    assert_eq!(ctx.status(7), SpamPingStatus::Active);
}

#[test]
fn any_message_stops_an_active_loop() {
    let mut ctx = DzContextInner::new();
    ctx.signal(7, SpamPingSignal::Start);
    assert!(matches!(
        ctx.on_message(7, false, false, "Plants\n9am mwf", &now(), &UtcOffset::utc()),
        MessageOutcome::Stopped
    ));
    assert_eq!(ctx.status(7), SpamPingStatus::Stopped);
    assert_eq!(ctx.num_active_spams(), 0);
    match ctx.on_message(7, false, false, "Plants\n9am mwf", &now(), &UtcOffset::utc()) {
        MessageOutcome::Create(task) => assert_eq!(task.title, "Plants"),
        _ => panic!("the second message is a new task"),
    }
}

#[test]
fn messages_that_are_no_task() {
    let mut ctx = DzContextInner::new();
    assert!(matches!(
        ctx.on_message(7, false, false, "help", &now(), &UtcOffset::utc()),
        MessageOutcome::Help
    ));
    assert!(matches!(
        ctx.on_message(7, false, false, "Help me\nplease", &now(), &UtcOffset::utc()),
        MessageOutcome::Help
    ));
    assert!(matches!(
        ctx.on_message(7, false, false, "hello", &now(), &UtcOffset::utc()),
        MessageOutcome::Rejected(TextError::NoTimes)
    ));
    assert!(matches!(
        ctx.on_message(7, false, false, "Plants\nsoon mwf", &now(), &UtcOffset::utc()),
        MessageOutcome::Rejected(TextError::Time(ParseError::NoTime))
    ));
    assert!(matches!(
        ctx.on_message(7, false, false, "help\n9am mwf", &now(), &UtcOffset::utc()),
        MessageOutcome::Create(_)
    ));
}
