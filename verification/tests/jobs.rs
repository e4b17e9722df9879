use reminders::calendar::{Date, DateTime, TimeOfDay};
use reminders::jobs::{
    ping_pause, sleep_until_next, EmbedReminderJob, JobCommand, JobEvent, JobPhase, PingCommand,
    PingEvent, PingPhase, SpamPingJob, SpamPingSignal, SpamPingStatus, PING_BASE_MILLIS,
    RETRY_MILLIS,
};
use reminders::model::Task;
use reminders::weekday::{DaySet, Weekday};

fn at(year: i32, month: u8, day: u8, hour: u8, minute: u8) -> DateTime {
    DateTime::new(
        Date::from_calendar_date(year, month, day).unwrap(),
        TimeOfDay::from_hms(hour, minute, 0).unwrap(),
    )
}

fn once() -> Task {
    Task::Once {
        id: 1,
        user_id: 7,
        title: String::from("t"),
        info: String::new(),
        remind_at: TimeOfDay::from_hms(22, 0, 0).unwrap(),
        date: Date::from_calendar_date(2024, 1, 29).unwrap(),
        created_at: at(2024, 1, 1, 10, 0),
    }
}

fn weekly_monday() -> Task {
    Task::Recurring {
        id: 2,
        user_id: 7,
        title: String::from("t"),
        info: String::new(),
        remind_at: TimeOfDay::from_hms(9, 0, 0).unwrap(),
        on_days: DaySet::empty().with(Weekday::Monday),
        repeat_weekly: true,
        created_at: at(2024, 1, 1, 10, 0),
    }
}

#[test]
fn ping_loop_starts_stopped() {
    let job = SpamPingJob::new();
    assert_eq!(job.status(), SpamPingStatus::Stopped);
    assert_eq!(job.phase, PingPhase::Stopped);
}

#[test]
fn start_pings_and_stop_goes_quiet() {
    let mut job = SpamPingJob::new();
    assert_eq!(job.signal(SpamPingSignal::Start, 1), PingCommand::Ping { pause_millis: 1500 });
    assert_eq!(job.status(), SpamPingStatus::Active);
    assert_eq!(job.step(PingEvent::PaceElapsed, 1), PingCommand::Ping { pause_millis: 1500 });
    assert_eq!(job.signal(SpamPingSignal::Start, 1), PingCommand::Ping { pause_millis: 1500 });
    assert_eq!(job.signal(SpamPingSignal::Stop, 0), PingCommand::Idle);
    assert_eq!(job.status(), SpamPingStatus::Stopped);
    assert_eq!(job.step(PingEvent::PaceElapsed, 0), PingCommand::Idle);
    assert_eq!(job.signal(SpamPingSignal::Start, 1), PingCommand::Ping { pause_millis: 1500 });
    assert_eq!(job.status(), SpamPingStatus::Active);
}

#[test]
fn stopping_a_stopped_loop_sends_nothing() {
    let mut job = SpamPingJob::new();
    assert_eq!(job.signal(SpamPingSignal::Stop, 3), PingCommand::Idle);
    assert_eq!(job.status(), SpamPingStatus::Stopped);
    assert_eq!(job.signal(SpamPingSignal::Stop, 3), PingCommand::Idle);
    assert_eq!(job.status(), SpamPingStatus::Stopped);
    assert_eq!(job.phase, PingPhase::Stopped);
}

#[test]
fn end_closes_for_good() {
    let mut job = SpamPingJob::new();
    job.signal(SpamPingSignal::Start, 1);
    assert_eq!(job.signal(SpamPingSignal::End, 0), PingCommand::Close);
    assert_eq!(job.status(), SpamPingStatus::Stopped);
    assert_eq!(job.phase, PingPhase::Ended);
    assert_eq!(job.signal(SpamPingSignal::Start, 1), PingCommand::Idle);
    assert_eq!(job.step(PingEvent::PaceElapsed, 1), PingCommand::Idle);
    assert_eq!(job.signal(SpamPingSignal::End, 0), PingCommand::Idle);
    assert_eq!(job.phase, PingPhase::Ended);
    let mut stopped = SpamPingJob::new();
    assert_eq!(stopped.signal(SpamPingSignal::End, 0), PingCommand::Close);
}

#[test]
fn pause_is_the_base_times_the_active_loops() {
    assert_eq!(PING_BASE_MILLIS, 1500);
    assert_eq!(ping_pause(0), 0);
    assert_eq!(ping_pause(1), 1500);
    assert_eq!(ping_pause(2), 3000);
    assert_eq!(ping_pause(7), 10_500);
    assert_eq!(ping_pause(12_297_829_382_473_034), 18_446_744_073_709_551_000);
    assert_eq!(ping_pause(12_297_829_382_473_035), 18_446_744_073_709_552_500);
    assert_eq!(ping_pause(u64::MAX), 1500 * (u64::MAX as u128));
    assert_eq!(ping_pause(2 * 1_000_000), 2 * ping_pause(1_000_000));
    for n in 1..50u64 {
        let mut job = SpamPingJob::new();
        assert_eq!(
            job.signal(SpamPingSignal::Start, n),
            PingCommand::Ping { pause_millis: 1500 * (n as u128) }
        );
    }
}

#[test]
fn sleep_is_the_span_to_the_next_occurrence() {
    let now = DateTime::new(
        Date::from_calendar_date(2024, 1, 1).unwrap(),
        TimeOfDay::from_hms_nano(10, 0, 0, 250_000_000).unwrap(),
    );
    assert_eq!(sleep_until_next(&at(2024, 1, 1, 10, 1), &now), Some((59, 750_000_000)));
    assert_eq!(sleep_until_next(&at(2024, 1, 2, 10, 0), &at(2024, 1, 1, 10, 0)), Some((86_400, 0)));
    assert_eq!(sleep_until_next(&at(2024, 1, 1, 10, 0), &at(2024, 1, 1, 10, 0)), Some((0, 0)));
    assert_eq!(sleep_until_next(&at(2024, 1, 1, 10, 0), &now), None);
}

#[test]
fn job_of_a_dated_task_runs_through() {
    let mut job = EmbedReminderJob::new(once());
    assert_eq!(job.phase, JobPhase::Scheduled);
    let now = at(2024, 1, 29, 21, 0);
    assert_eq!(job.step(JobEvent::Wake, &now), JobCommand::Sleep { seconds: 3600, nanoseconds: 0 });
    assert_eq!(job.phase, JobPhase::Waiting);
    let then = at(2024, 1, 29, 22, 0);
    assert_eq!(job.step(JobEvent::TimerElapsed, &then), JobCommand::Deliver);
    assert_eq!(job.phase, JobPhase::Firing);
    assert_eq!(
        job.step(JobEvent::DeliveryFailed, &then),
        JobCommand::Retry { delay_millis: RETRY_MILLIS }
    );
    assert_eq!(job.phase, JobPhase::Firing);
    assert_eq!(job.step(JobEvent::Delivered, &then), JobCommand::StartPing);
    assert_eq!(job.phase, JobPhase::Scheduled);
    assert_eq!(job.step(JobEvent::Wake, &then), JobCommand::Retire);
    assert_eq!(job.phase, JobPhase::Retiring);
    assert!(!job.is_finished());
    assert_eq!(job.step(JobEvent::Wake, &then), JobCommand::Nothing);
    assert_eq!(job.step(JobEvent::TimerElapsed, &then), JobCommand::Nothing);
    assert_eq!(job.phase, JobPhase::Retiring);
    assert_eq!(job.step(JobEvent::Deleted, &then), JobCommand::Exit);
    assert_eq!(job.phase, JobPhase::Retired);
    assert!(job.is_finished());
    assert_eq!(job.step(JobEvent::Wake, &then), JobCommand::Nothing);
    assert_eq!(job.step(JobEvent::Deleted, &then), JobCommand::Nothing);
    assert_eq!(job.phase, JobPhase::Retired);
}

#[test]
fn deletion_is_reported_only_by_a_retiring_job() {
    let now = at(2024, 1, 29, 21, 0);
    let mut job = EmbedReminderJob::new(once());
    assert_eq!(job.step(JobEvent::Deleted, &now), JobCommand::Nothing);
    assert_eq!(job.phase, JobPhase::Scheduled);
    job.step(JobEvent::Wake, &now);
    assert_eq!(job.step(JobEvent::Deleted, &now), JobCommand::Nothing);
    assert_eq!(job.phase, JobPhase::Waiting);
}

#[test]
fn job_of_an_exhausted_task_retires_at_once() {
    let mut job = EmbedReminderJob::new(once());
    assert_eq!(job.step(JobEvent::Wake, &at(2024, 2, 1, 0, 0)), JobCommand::Retire);
    assert_eq!(job.phase, JobPhase::Retiring);
}

#[test]
fn cancelled_before_the_timer_nothing_is_delivered() {
    let now = at(2024, 1, 29, 22, 0);
    let mut job = EmbedReminderJob::new(once());
    job.step(JobEvent::Wake, &at(2024, 1, 29, 21, 0));
    job.kill();
    assert!(job.cancelled);
    assert_eq!(job.phase, JobPhase::Waiting);
    assert_eq!(job.step(JobEvent::Cancel, &now), JobCommand::Retire);
    assert_eq!(job.phase, JobPhase::Retiring);
    assert_eq!(job.step(JobEvent::TimerElapsed, &now), JobCommand::Nothing);
    assert_eq!(job.phase, JobPhase::Retiring);
    assert_eq!(job.step(JobEvent::Deleted, &now), JobCommand::Exit);
    assert_eq!(job.phase, JobPhase::Retired);
}

#[test]
fn cancelled_after_the_timer_one_delivery_then_retirement() {
    let now = at(2024, 1, 1, 11, 0);
    let mut job = EmbedReminderJob::new(weekly_monday());
    job.step(JobEvent::Wake, &at(2024, 1, 1, 10, 0));
    assert_eq!(job.phase, JobPhase::Waiting);
    assert_eq!(job.step(JobEvent::TimerElapsed, &now), JobCommand::Deliver);
    assert_eq!(job.step(JobEvent::Cancel, &now), JobCommand::Nothing);
    assert!(job.cancelled);
    assert_eq!(job.phase, JobPhase::Firing);
    assert_eq!(job.step(JobEvent::Delivered, &now), JobCommand::StartPing);
    assert_eq!(job.step(JobEvent::Wake, &now), JobCommand::Retire);
    assert_eq!(job.phase, JobPhase::Retiring);
    assert_eq!(job.step(JobEvent::Deleted, &now), JobCommand::Exit);
}

#[test]
fn cancellation_noted_in_a_sleep_still_lets_the_timer_fire_once() {
    let now = at(2024, 1, 1, 11, 0);
    let mut job = EmbedReminderJob::new(weekly_monday());
    job.step(JobEvent::Wake, &at(2024, 1, 1, 10, 0));
    job.kill();
    assert_eq!(job.phase, JobPhase::Waiting);
    assert_eq!(job.step(JobEvent::TimerElapsed, &now), JobCommand::Deliver);
    assert_eq!(job.step(JobEvent::Delivered, &now), JobCommand::StartPing);
    assert_eq!(job.step(JobEvent::Wake, &now), JobCommand::Retire);
}

#[test]
fn cancelled_before_its_first_step_a_job_retires_on_waking() {
    let now = at(2024, 1, 1, 10, 0);
    let mut job = EmbedReminderJob::new(weekly_monday());
    job.kill();
    assert_eq!(job.phase, JobPhase::Scheduled);
    assert_eq!(job.step(JobEvent::Wake, &now), JobCommand::Retire);
    assert_eq!(job.phase, JobPhase::Retiring);
}

#[test]
fn next_occurrence_in_the_past_stops_the_job() {
    let mut job = EmbedReminderJob::new(weekly_monday());
    // Seen from February, the task still names 8 January.
    assert_eq!(job.step(JobEvent::Wake, &at(2024, 2, 1, 0, 0)), JobCommand::Abort);
    assert_eq!(job.phase, JobPhase::Failed);
    assert!(job.is_finished());
    assert_eq!(job.step(JobEvent::Wake, &at(2024, 2, 1, 0, 0)), JobCommand::Nothing);
}

#[test]
fn events_out_of_turn_change_nothing() {
    let now = at(2024, 1, 1, 10, 0);
    let mut job = EmbedReminderJob::new(weekly_monday());
    assert_eq!(job.step(JobEvent::TimerElapsed, &now), JobCommand::Nothing);
    assert_eq!(job.step(JobEvent::Delivered, &now), JobCommand::Nothing);
    assert_eq!(job.step(JobEvent::DeliveryFailed, &now), JobCommand::Nothing);
    assert_eq!(job.phase, JobPhase::Scheduled);
    job.step(JobEvent::Wake, &now);
    assert_eq!(job.step(JobEvent::Wake, &now), JobCommand::Nothing);
    assert_eq!(job.step(JobEvent::Delivered, &now), JobCommand::Nothing);
    assert_eq!(job.phase, JobPhase::Waiting);
}
