//! Tasks and the records they are stored as.

use vstd::prelude::*;
use crate::calendar::{
    Date, DateTime, TimeOfDay, UtcOffset, instant_of, local_day, MAX_JULIAN_DAY, MIN_JULIAN_DAY,
};
use crate::text::{chars_of, parse_unsigned, unsigned_decimal};
use crate::weekday::{DaySet, are_weekday_numbers, days_of_numbers};

verus! {

/// A stored settings record.
pub struct UserSettingsRow {
    pub user_id: String,
    pub ack_phrase: String,
}

/// What a user has set.
#[derive(Debug)]
pub struct UserSettings {
    pub ack_phrase: String,
}

/// Why a stored record is no task.
#[derive(Clone, Copy, Debug, PartialEq, Eq, Structural)]
pub enum RowError {
    /// The recipient is not written as a positive 64-bit number.
    UserId,
    /// The record has neither a date nor a weekday.
    NoDays,
    /// The list of weekdays holds a number that is none of 1 to 7.
    Weekday,
    /// The record was created too close to the end of the calendar for two
    /// weeks of occurrences to follow.
    CreatedAt,
}

impl UserSettings {
    pub fn from_row_struct(row: UserSettingsRow) -> (r: Result<UserSettings, RowError>)
        ensures
            r matches Ok(s) && s.ack_phrase == row.ack_phrase,
    {
        Ok(UserSettings { ack_phrase: row.ack_phrase })
    }
}

/// A stored task record.
pub struct TaskRow {
    pub id: i64,
    pub user_id: String,
    pub title: String,
    pub info: String,
    pub remind_at: TimeOfDay,
    /// Weekdays by number, Sunday being 1.
    pub on_days: Option<Vec<i32>>,
    pub repeat_weekly: bool,
    pub time_created: DateTime,
    pub on_date: Option<Date>,
}

/// A reminder: what to say, to whom, and when.
#[derive(Debug, Clone)]
pub enum Task {
    /// Fires on the listed weekdays at `remind_at` (UTC): every week, or only
    /// in the week that starts on the day of creation.
    Recurring {
        id: i64,
        user_id: u64,
        title: String,
        info: String,
        remind_at: TimeOfDay,
        on_days: DaySet,
        repeat_weekly: bool,
        created_at: DateTime,
    },
    /// Fires once, on `date` at `remind_at` (UTC).
    Once {
        id: i64,
        user_id: u64,
        title: String,
        info: String,
        remind_at: TimeOfDay,
        date: Date,
        created_at: DateTime,
    },
}

/// The number of days after creation within which both passes through the
/// week of a recurring task lie.
pub const OCCURRENCE_HORIZON_DAYS: i32 = 13;

impl Task {
    /// A task that the scheduler can work on: its times are well formed, a
    /// recurring one lists a weekday, and its first two weeks lie within the
    /// calendar.
    pub open spec fn wf(self) -> bool {
        match self {
            Task::Recurring { remind_at, on_days, created_at, .. } => {
                &&& remind_at.wf()
                &&& created_at.wf()
                &&& !on_days.is_empty_set()
                &&& created_at.date@ + OCCURRENCE_HORIZON_DAYS <= MAX_JULIAN_DAY
            },
            Task::Once { remind_at, date, created_at, .. } => {
                &&& remind_at.wf()
                &&& date.wf()
                &&& created_at.wf()
            },
        }
    }

    pub open spec fn spec_id(self) -> i64 {
        match self {
            Task::Recurring { id, .. } => id,
            Task::Once { id, .. } => id,
        }
    }

    pub open spec fn spec_user_id(self) -> u64 {
        match self {
            Task::Recurring { user_id, .. } => user_id,
            Task::Once { user_id, .. } => user_id,
        }
    }

    pub open spec fn spec_remind_at(self) -> TimeOfDay {
        match self {
            Task::Recurring { remind_at, .. } => remind_at,
            Task::Once { remind_at, .. } => remind_at,
        }
    }

    pub open spec fn spec_created_at(self) -> DateTime {
        match self {
            Task::Recurring { created_at, .. } => created_at,
            Task::Once { created_at, .. } => created_at,
        }
    }

    /// Whether this value meets `wf`.
    pub fn is_wf(&self) -> (b: bool)
        ensures
            b == self.wf(),
    {
        match self {
            Task::Recurring { remind_at, on_days, created_at, .. } => {
                let _ = remind_at.nanos_since_midnight();
                let _ = created_at.time.nanos_since_midnight();
                let created_day = created_at.date.to_julian_day();
                !on_days.is_empty() && created_day <= MAX_JULIAN_DAY - OCCURRENCE_HORIZON_DAYS
            },
            Task::Once { remind_at, date, created_at, .. } => {
                let _ = remind_at.nanos_since_midnight();
                let _ = created_at.time.nanos_since_midnight();
                let _ = created_at.date.to_julian_day();
                let _ = date.to_julian_day();
                true
            },
        }
    }
}

/// What is needed to store a new task.
pub struct TaskCreateInfo {
    pub title: String,
    pub info: String,
    pub remind_at: TimeOfDay,
    pub date: Option<Date>,
    pub on_days: Option<DaySet>,
    pub repeat_weekly: bool,
}

/// How the schedule of a new task is stored.
#[derive(Debug, PartialEq, Eq)]
pub enum StoredSchedule {
    /// Under its date; such a task never repeats.
    OnDate { date: Date },
    /// Under the numbers of its weekdays, Sunday being 1, in rising order.
    OnDays { numbers: Vec<i32>, repeat_weekly: bool },
}

impl TaskCreateInfo {
    /// How to store the schedule: by the date where there is one, else by
    /// the weekdays; `None` where there is neither.
    pub fn stored_schedule(&self) -> (r: Option<StoredSchedule>)
        ensures
            (match r {
                Some(StoredSchedule::OnDate { date }) => self.date == Some(date),
                Some(StoredSchedule::OnDays { numbers, repeat_weekly }) => {
                    &&& self.date is None
                    &&& self.on_days == Some(days_of_numbers(numbers@))
                    &&& are_weekday_numbers(numbers@)
                    &&& repeat_weekly == self.repeat_weekly
                    &&& forall|i: int, j: int|
                        0 <= i < j < numbers@.len() ==> #[trigger] numbers@[i]
                            < #[trigger] numbers@[j]
                },
                None => self.date is None && self.on_days is None,
            }),
    {
        match (self.date, self.on_days) {
            (Some(date), _) => Some(StoredSchedule::OnDate { date }),
            (None, Some(days)) => Some(
                StoredSchedule::OnDays {
                    numbers: days.numbers_from_sunday(),
                    repeat_weekly: self.repeat_weekly,
                },
            ),
            (None, None) => None,
        }
    }
}

/// What is needed to send the reminder of a task.
#[derive(Clone)]
pub struct TaskRemindInfo {
    pub title: String,
    pub info: String,
    pub user_id: u64,
}

/// The recipient that a record names: a positive number of 64 bits, written
/// in decimal.
pub open spec fn row_recipient(user_id: Seq<char>) -> Option<u64> {
    match unsigned_decimal(user_id, u64::MAX as nat) {
        Some(v) => if v > 0 {
            Some(v as u64)
        } else {
            None
        },
        None => None,
    }
}

/// The task that a record holds, or why it holds none. A record with a date
/// is a task for that date; any other must list its weekdays.
pub open spec fn task_of_row(row: TaskRow) -> Result<Task, RowError> {
    match row_recipient(row.user_id@) {
        None => Err(RowError::UserId),
        Some(user_id) => match row.on_date {
            Some(date) => Ok(
                Task::Once {
                    id: row.id,
                    user_id,
                    title: row.title,
                    info: row.info,
                    remind_at: row.remind_at,
                    date,
                    created_at: row.time_created,
                },
            ),
            None => match row.on_days {
                None => Err(RowError::NoDays),
                Some(numbers) => {
                    if !are_weekday_numbers(numbers@) {
                        Err(RowError::Weekday)
                    } else if days_of_numbers(numbers@).is_empty_set() {
                        Err(RowError::NoDays)
                    } else if row.time_created.date@ + OCCURRENCE_HORIZON_DAYS > MAX_JULIAN_DAY {
                        Err(RowError::CreatedAt)
                    } else {
                        Ok(
                            Task::Recurring {
                                id: row.id,
                                user_id,
                                title: row.title,
                                info: row.info,
                                remind_at: row.remind_at,
                                on_days: days_of_numbers(numbers@),
                                repeat_weekly: row.repeat_weekly,
                                created_at: row.time_created,
                            },
                        )
                    }
                },
            },
        },
    }
}

/// Reads the recipient of a record.
pub fn parse_recipient(user_id: &str) -> (r: Option<u64>)
    ensures
        r == row_recipient(user_id@),
{
    let chars = chars_of(user_id);
    assert(chars@.subrange(0, chars@.len() as int) == chars@);
    match parse_unsigned(&chars, 0, chars.len(), u64::MAX) {
        Some(v) => if v > 0 {
            Some(v)
        } else {
            None
        },
        None => None,
    }
}

impl Task {
    pub fn from_row_struct(row: TaskRow) -> (r: Result<Task, RowError>)
        ensures
            r == task_of_row(row),
            r matches Ok(task) ==> task.wf(),
    {
        let user_id = match parse_recipient(row.user_id.as_str()) {
            Some(user_id) => user_id,
            None => { return Err(RowError::UserId); },
        };
        let _ = row.remind_at.nanos_since_midnight();
        let _ = row.time_created.time.nanos_since_midnight();
        let created_day = row.time_created.date.to_julian_day();
        if let Some(date) = row.on_date {
            let _ = date.to_julian_day();
            return Ok(
                Task::Once {
                    id: row.id,
                    user_id,
                    title: row.title,
                    info: row.info,
                    remind_at: row.remind_at,
                    date,
                    created_at: row.time_created,
                },
            );
        }
        let numbers = match row.on_days {
            Some(numbers) => numbers,
            None => { return Err(RowError::NoDays); },
        };
        let on_days = match DaySet::from_numbers_from_sunday(&numbers) {
            Some(on_days) => on_days,
            None => { return Err(RowError::Weekday); },
        };
        if on_days.is_empty() {
            return Err(RowError::NoDays);
        }
        if created_day > MAX_JULIAN_DAY - OCCURRENCE_HORIZON_DAYS {
            return Err(RowError::CreatedAt);
        }
        Ok(
            Task::Recurring {
                id: row.id,
                user_id,
                title: row.title,
                info: row.info,
                remind_at: row.remind_at,
                on_days,
                repeat_weekly: row.repeat_weekly,
                created_at: row.time_created,
            },
        )
    }

    pub fn id(&self) -> (id: i64)
        ensures
            id == self.spec_id(),
    {
        match self {
            Task::Recurring { id, .. } => *id,
            Task::Once { id, .. } => *id,
        }
    }

    pub fn user_id(&self) -> (user_id: u64)
        ensures
            user_id == self.spec_user_id(),
    {
        match self {
            Task::Recurring { user_id, .. } => *user_id,
            Task::Once { user_id, .. } => *user_id,
        }
    }

    pub fn repeats_weekly(&self) -> (b: bool)
        ensures
            b == (self matches Task::Recurring { repeat_weekly: true, .. }),
    {
        match self {
            Task::Recurring { repeat_weekly, .. } => *repeat_weekly,
            Task::Once { .. } => false,
        }
    }

    pub fn remind_at(&self) -> (t: TimeOfDay)
        ensures
            t == self.spec_remind_at(),
    {
        match self {
            Task::Recurring { remind_at, .. } => *remind_at,
            Task::Once { remind_at, .. } => *remind_at,
        }
    }

    pub fn created_at(&self) -> (t: &DateTime)
        ensures
            *t == self.spec_created_at(),
    {
        match self {
            Task::Recurring { created_at, .. } => created_at,
            Task::Once { created_at, .. } => created_at,
        }
    }

    pub fn recurring(&self) -> (b: bool)
        ensures
            b == (self is Recurring),
    {
        match self {
            Task::Recurring { .. } => true,
            Task::Once { .. } => false,
        }
    }

    pub fn remind_info(&self) -> (r: TaskRemindInfo)
        ensures
            r.user_id == self.spec_user_id(),
            (self matches Task::Recurring { title, info, .. } ==> r.title == title && r.info == info),
            (self matches Task::Once { title, info, .. } ==> r.title == title && r.info == info),
    {
        match self {
            Task::Once { user_id, title, info, .. } => TaskRemindInfo {
                title: title.clone(),
                info: info.clone(),
                user_id: *user_id,
            },
            Task::Recurring { user_id, title, info, .. } => TaskRemindInfo {
                title: title.clone(),
                info: info.clone(),
                user_id: *user_id,
            },
        }
    }

    pub fn on_days(&self) -> (r: Option<&DaySet>)
        ensures
            r is Some <==> self is Recurring,
            (self matches Task::Recurring { on_days, .. } ==> r == Some(on_days)),
    {
        match self {
            Task::Once { .. } => None,
            Task::Recurring { on_days, .. } => Some(on_days),
        }
    }

    /// For a task with a date, its date and time on the UTC clock.
    pub fn datetime_utc(&self) -> (r: Option<DateTime>)
        ensures
            r is Some <==> self is Once,
            (self matches Task::Once { date, remind_at, .. } ==> r == Some(
                DateTime { date: *date, time: *remind_at },
            )),
            r matches Some(t) ==> t.wf(),
    {
        match self {
            Task::Once { date, remind_at, .. } => Some(DateTime::new(*date, *remind_at)),
            Task::Recurring { .. } => None,
        }
    }

    /// For a task with a date, its date and time on the clock of `offset`,
    /// if that date is in the calendar.
    pub fn datetime_local(&self, offset: &UtcOffset) -> (r: Option<DateTime>)
        ensures
            r is Some <==> (self matches Task::Once { date, remind_at, .. } && MIN_JULIAN_DAY
                <= local_day(instant_of(date@, remind_at@), offset@) <= MAX_JULIAN_DAY),
            r matches Some(t) ==> t.wf() && (self matches Task::Once { date, remind_at, .. } && t@
                == instant_of(date@, remind_at@) + offset@ * 1_000_000_000),
    {
        match self {
            Task::Once { date, remind_at, .. } => {
                let utc = DateTime::new(*date, *remind_at);
                offset.to_local(&utc)
            },
            Task::Recurring { .. } => None,
        }
    }
}

} // verus!
