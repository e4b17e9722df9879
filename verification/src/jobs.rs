//! When a task fires next, and the two state machines that act on it.

use vstd::prelude::*;
use crate::calendar::{
    Date, DateTime, TimeOfDay, instant_of, weekday_of_day, whole_days_between, MAX_JULIAN_DAY,
};
use crate::model::{Task, OCCURRENCE_HORIZON_DAYS};
use crate::time_parse::{ParseError, TimeSpec, time_spec};
use crate::weekday::{DaySet, Weekday, lemma_weekday_at_index};

verus! {

/// Nanoseconds in seven days.
pub const NANOS_PER_WEEK: u64 = 604_800_000_000_000;

/// The first day on or after `created_day` that falls on the weekday `d`.
pub open spec fn first_day_on(created_day: int, d: Weekday) -> int {
    created_day + (d.index() - created_day) % 7
}

/// The first time a task created on `created_day` comes up on weekday `d`:
/// the instant of the time of day `tod` on `first_day_on`.
pub open spec fn first_candidate(created_day: int, tod: int, d: Weekday) -> int {
    instant_of(first_day_on(created_day, d), tod)
}

/// What a weekly task offers for weekday `d` at `now`: the first candidate
/// while that is still ahead, and the same time a week later once it is not.
pub open spec fn weekly_candidate(created_day: int, tod: int, d: Weekday, now: int) -> int {
    let first = first_candidate(created_day, tod, d);
    if first > now {
        first
    } else {
        first + NANOS_PER_WEEK
    }
}

/// `t` is the earliest of the weekly candidates of the listed days.
pub open spec fn is_earliest_weekly(
    t: int,
    days: DaySet,
    created_day: int,
    tod: int,
    now: int,
) -> bool {
    &&& exists|d: Weekday| #[trigger]
        days.has(d) && weekly_candidate(created_day, tod, d, now) == t
    &&& forall|d: Weekday| #[trigger]
        days.has(d) ==> t <= weekly_candidate(created_day, tod, d, now)
}

/// `t` is the earliest of the first candidates of the listed days that are
/// still ahead of `now`.
pub open spec fn is_earliest_pending(
    t: int,
    days: DaySet,
    created_day: int,
    tod: int,
    now: int,
) -> bool {
    &&& t > now
    &&& exists|d: Weekday| #[trigger] days.has(d) && first_candidate(created_day, tod, d) == t
    &&& forall|d: Weekday| #[trigger]
        days.has(d) && first_candidate(created_day, tod, d) > now ==> t <= first_candidate(
            created_day,
            tod,
            d,
        )
}

/// None of the first candidates of the listed days is still ahead of `now`.
pub open spec fn none_pending(days: DaySet, created_day: int, tod: int, now: int) -> bool {
    forall|d: Weekday| #[trigger] days.has(d) ==> first_candidate(created_day, tod, d) <= now
}

/// `t` is the instant at which `task` fires next, seen from `now`.
pub open spec fn next_occurrence_is(task: Task, now: int, t: int) -> bool {
    match task {
        Task::Once { remind_at, date, .. } => t == instant_of(date@, remind_at@) && t > now,
        Task::Recurring { remind_at, on_days, repeat_weekly, created_at, .. } => {
            if repeat_weekly {
                is_earliest_weekly(t, on_days, created_at.date@, remind_at@, now)
            } else {
                &&& is_earliest_pending(t, on_days, created_at.date@, remind_at@, now)
                &&& whole_days_between(created_at@, t) < 7
            }
        },
    }
}

/// `task` never fires again, seen from `now`: it is to be retired.
pub open spec fn no_next_occurrence(task: Task, now: int) -> bool {
    match task {
        Task::Once { remind_at, date, .. } => instant_of(date@, remind_at@) <= now,
        Task::Recurring { remind_at, on_days, repeat_weekly, created_at, .. } => {
            &&& !repeat_weekly
            &&& (none_pending(on_days, created_at.date@, remind_at@, now) || exists|t: int|
                #[trigger] is_earliest_pending(t, on_days, created_at.date@, remind_at@, now)
                    && whole_days_between(created_at@, t) >= 7)
        },
    }
}

/// The instant at which `task` fires next, seen from `now`, if there is one.
pub open spec fn next_occurrence(task: Task, now: int) -> Option<int> {
    if exists|t: int| next_occurrence_is(task, now, t) {
        Some(choose|t: int| next_occurrence_is(task, now, t))
    } else {
        None
    }
}

/// The day of the candidate that weekday `d` offers, if it offers one: a
/// weekly task always does, another only while its first candidate is ahead.
pub open spec fn candidate_day(
    created_day: int,
    tod: int,
    d: Weekday,
    now: int,
    weekly: bool,
) -> Option<int> {
    let first = first_day_on(created_day, d);
    if instant_of(first, tod) > now {
        Some(first)
    } else if weekly {
        Some(first + 7)
    } else {
        None
    }
}

/// The day of the candidate that weekday `d` offers, if it offers one.
fn candidate_day_of(
    d: Weekday,
    created: &Date,
    tod: &TimeOfDay,
    now: &DateTime,
    weekly: bool,
) -> (r: Option<i32>)
    requires
        created@ + OCCURRENCE_HORIZON_DAYS <= MAX_JULIAN_DAY,
    ensures
        r matches Some(c) ==> candidate_day(created@, tod@, d, now@, weekly) == Some(c as int)
            && created@ <= c <= created@ + OCCURRENCE_HORIZON_DAYS,
        r is None ==> candidate_day(created@, tod@, d, now@, weekly) is None,
{
    let created_day: i32 = created.to_julian_day();
    let created_index: u8 = created.weekday().number_days_from_monday();
    let index: u8 = d.number_days_from_monday();
    let nanos: u64 = tod.nanos_since_midnight();
    let now_day: i32 = now.date.to_julian_day();
    let now_nanos: u64 = now.time.nanos_since_midnight();
    let ahead: i32 = ((index + 7 - created_index) % 7) as i32;
    assert(created_index == created@ % 7);
    assert(ahead == (d.index() - created@) % 7);
    let first: i32 = created_day + ahead;
    let pending = first > now_day || (first == now_day && nanos > now_nanos);
    assert(pending == (instant_of(first as int, tod@) > now@));
    if pending {
        Some(first)
    } else if weekly {
        Some(first + 7)
    } else {
        None
    }
}

/// The earliest day among the candidates of the listed weekdays.
fn earliest_candidate_day(
    days: &DaySet,
    created: &Date,
    tod: &TimeOfDay,
    now: &DateTime,
    weekly: bool,
) -> (r: Option<i32>)
    requires
        created@ + OCCURRENCE_HORIZON_DAYS <= MAX_JULIAN_DAY,
    ensures
        r matches Some(b) ==> created@ <= b <= created@ + OCCURRENCE_HORIZON_DAYS && (exists|d: Weekday| #[trigger]
            days.has(d) && candidate_day(created@, tod@, d, now@, weekly) == Some(b as int)),
        r matches Some(b) ==> (forall|d: Weekday| #[trigger]
            days.has(d) ==> (candidate_day(created@, tod@, d, now@, weekly) matches Some(c) ==> b
                <= c)),
        r is None ==> (forall|d: Weekday| #[trigger]
            days.has(d) ==> candidate_day(created@, tod@, d, now@, weekly) is None),
{
    let mut best: Option<i32> = None;
    let mut i: u8 = 0;
    while i < 7
        invariant
            i <= 7,
            created@ + OCCURRENCE_HORIZON_DAYS <= MAX_JULIAN_DAY,
            best matches Some(b) ==> created@ <= b <= created@ + OCCURRENCE_HORIZON_DAYS && (exists|d: Weekday| #[trigger]
                days.has(d) && d.index() < i && candidate_day(created@, tod@, d, now@, weekly)
                    == Some(b as int)),
            best matches Some(b) ==> (forall|d: Weekday| #[trigger]
                days.has(d) && d.index() < i ==> (candidate_day(
                    created@,
                    tod@,
                    d,
                    now@,
                    weekly,
                ) matches Some(c) ==> b <= c)),
            best is None ==> (forall|d: Weekday| #[trigger]
                days.has(d) && d.index() < i ==> candidate_day(created@, tod@, d, now@, weekly)
                    is None),
        decreases 7 - i,
    {
        let d = Weekday::from_days_from_monday(i);
        if days.contains(d) {
            match candidate_day_of(d, created, tod, now, weekly) {
                Some(c) => {
                    let better = match best {
                        Some(b) => c < b,
                        None => true,
                    };
                    if better {
                        best = Some(c);
                    }
                },
                None => {},
            }
        }
        proof {
            assert forall|e: Weekday| e.index() < i + 1 implies e.index() < i || e == d by {
                lemma_weekday_at_index(e);
            }
        }
        i += 1;
    }
    proof {
        assert forall|e: Weekday| e.index() < 7 by {
            lemma_weekday_at_index(e);
        }
    }
    best
}

/// The next instant at which `task` is to fire, seen from `now`, or `None`
/// where it never fires again and is to be retired.
///
/// A task with a date fires at that date and time, while that is ahead. A
/// recurring task goes by the first occurrence of each listed weekday on or
/// after the day it was created. A weekly one moves a day whose first
/// occurrence is not ahead to the week after and takes the earliest; one that
/// does not repeat takes the earliest that is still ahead, and none once
/// seven whole days lie between its creation and that instant.
pub fn next_occurrence_time(task: &Task, now: &DateTime) -> (r: Option<DateTime>)
    requires
        task.wf(),
    ensures
        (match r {
            Some(t) => t.wf() && next_occurrence_is(*task, now@, t@),
            None => no_next_occurrence(*task, now@),
        }),
        (task matches Task::Recurring { repeat_weekly: true, .. } ==> r is Some),
        r is Some <==> next_occurrence(*task, now@) is Some,
        r matches Some(t) ==> next_occurrence(*task, now@) == Some(t@),
{
    let r = find_next_occurrence(task, now);
    proof {
        match r {
            Some(t) => {
                let chosen = choose|c: int| next_occurrence_is(*task, now@, c);
                lemma_next_occurrence_unique(*task, now@, t@, chosen);
            },
            None => {
                if exists|c: int| next_occurrence_is(*task, now@, c) {
                    let chosen = choose|c: int| next_occurrence_is(*task, now@, c);
                    lemma_next_occurrence_unique(*task, now@, chosen, chosen);
                }
            },
        }
    }
    r
}

fn find_next_occurrence(task: &Task, now: &DateTime) -> (r: Option<DateTime>)
    requires
        task.wf(),
    ensures
        (match r {
            Some(t) => t.wf() && next_occurrence_is(*task, now@, t@),
            None => no_next_occurrence(*task, now@),
        }),
        (task matches Task::Recurring { repeat_weekly: true, .. } ==> r is Some),
{
    match task {
        Task::Once { remind_at, date, .. } => {
            let at = DateTime::new(*date, *remind_at);
            if at.is_after(now) {
                Some(at)
            } else {
                None
            }
        },
        Task::Recurring { remind_at, on_days, repeat_weekly, created_at, .. } => {
            let best = earliest_candidate_day(
                on_days,
                &created_at.date,
                remind_at,
                now,
                *repeat_weekly,
            );
            let ghost created_day = created_at.date@;
            let ghost tod = remind_at@;
            match best {
                None => {
                    proof {
                        if *repeat_weekly {
                            let d = choose|d: Weekday| on_days.has(d);
                            assert(on_days.has(d));
                            assert(candidate_day(created_day, tod, d, now@, true) is Some);
                        }
                        assert forall|d: Weekday| #[trigger] on_days.has(d) implies first_candidate(
                            created_day,
                            tod,
                            d,
                        ) <= now@ by {
                            assert(candidate_day(created_day, tod, d, now@, false) is None);
                        }
                    }
                    None
                },
                Some(day) => {
                    // The candidate lies within the horizon of the task, so
                    // the calendar has its day.
                    let date = match created_at.date.checked_add_days(
                        day - created_at.date.to_julian_day(),
                    ) {
                        Some(date) => date,
                        None => { return None; },
                    };
                    let at = DateTime::new(date, *remind_at);
                    proof {
                        let w = choose|d: Weekday| #[trigger]
                            on_days.has(d) && candidate_day(
                                created_day,
                                tod,
                                d,
                                now@,
                                *repeat_weekly,
                            ) == Some(day as int);
                        assert(on_days.has(w));
                        if *repeat_weekly {
                            assert(weekly_candidate(created_day, tod, w, now@) == at@);
                            assert forall|d: Weekday| #[trigger] on_days.has(d) implies at@
                                <= weekly_candidate(created_day, tod, d, now@) by {
                                assert(candidate_day(created_day, tod, d, now@, true) is Some);
                            }
                        } else {
                            assert(first_candidate(created_day, tod, w) == at@);
                            assert forall|d: Weekday| #[trigger]
                                on_days.has(d) && first_candidate(created_day, tod, d)
                                    > now@ implies at@ <= first_candidate(created_day, tod, d) by {
                                assert(candidate_day(created_day, tod, d, now@, false) is Some);
                            }
                            assert(is_earliest_pending(at@, *on_days, created_day, tod, now@));
                        }
                    }
                    if *repeat_weekly {
                        Some(at)
                    } else if created_at.whole_days_until(&at) < 7 {
                        Some(at)
                    } else {
                        None
                    }
                },
            }
        },
    }
}

/// The first occurrence of a weekday lies on that weekday, in the seven days
/// that start with the day of creation.
pub proof fn lemma_first_day_on(created_day: int, d: Weekday)
    ensures
        created_day <= first_day_on(created_day, d) <= created_day + 6,
        weekday_of_day(first_day_on(created_day, d)) == d,
{
    lemma_weekday_at_index(d);
}

/// At most one instant is the next occurrence, and a task that has one is
/// not to be retired.
pub proof fn lemma_next_occurrence_unique(task: Task, now: int, t1: int, t2: int)
    requires
        next_occurrence_is(task, now, t1),
    ensures
        next_occurrence_is(task, now, t2) ==> t1 == t2,
        !no_next_occurrence(task, now),
{
    if let Task::Recurring { remind_at, on_days, repeat_weekly, created_at, .. } = task {
        if !repeat_weekly {
            assert forall|t: int| #[trigger]
                is_earliest_pending(t, on_days, created_at.date@, remind_at@, now) implies t
                == t1 by {}
        }
    }
}

/// Seen from the instant of its own creation, a task fires strictly later
/// than that instant if it fires at all. A task with a date does fire if its
/// date and time are ahead of its creation, and then at that date and time.
pub proof fn lemma_fires_after_creation(task: Task, t: int)
    requires
        task.wf(),
    ensures
        next_occurrence_is(task, task.spec_created_at()@, t) ==> t > task.spec_created_at()@,
        (task matches Task::Once { date, remind_at, created_at, .. } ==> (instant_of(
            date@,
            remind_at@,
        ) > created_at@ ==> next_occurrence_is(task, created_at@, instant_of(date@, remind_at@)))),
{
    if let Task::Recurring { remind_at, on_days, repeat_weekly, created_at, .. } = task {
        if repeat_weekly && next_occurrence_is(task, created_at@, t) {
            let d = choose|d: Weekday| #[trigger]
                on_days.has(d) && weekly_candidate(created_at.date@, remind_at@, d, created_at@)
                    == t;
            lemma_first_day_on(created_at.date@, d);
        }
    }
}

/// Among the candidates of the weekdays before position `upto` there is an
/// earliest one, unless none of them offers any.
proof fn lemma_earliest_candidate(
    days: DaySet,
    created_day: int,
    tod: int,
    now: int,
    weekly: bool,
    upto: int,
) -> (best: Option<int>)
    requires
        0 <= upto <= 7,
    ensures
        best matches Some(b) ==> exists|d: Weekday| #[trigger]
            days.has(d) && d.index() < upto && candidate_day(created_day, tod, d, now, weekly)
                == Some(b),
        best matches Some(b) ==> forall|d: Weekday| #[trigger]
            days.has(d) && d.index() < upto ==> (candidate_day(
                created_day,
                tod,
                d,
                now,
                weekly,
            ) matches Some(c) ==> b <= c),
        best is None ==> forall|d: Weekday| #[trigger]
            days.has(d) && d.index() < upto ==> candidate_day(created_day, tod, d, now, weekly)
                is None,
    decreases upto,
{
    if upto == 0 {
        assert forall|d: Weekday| !(d.index() < 0) by {
            lemma_weekday_at_index(d);
        }
        None
    } else {
        let before = lemma_earliest_candidate(days, created_day, tod, now, weekly, upto - 1);
        let d = Weekday::at(upto - 1);
        assert forall|e: Weekday| e.index() < upto implies e.index() < upto - 1 || e == d by {
            lemma_weekday_at_index(e);
        }
        let here = if days.has(d) {
            candidate_day(created_day, tod, d, now, weekly)
        } else {
            None
        };
        match (before, here) {
            (Some(b), Some(c)) => if c < b {
                Some(c)
            } else {
                Some(b)
            },
            (Some(b), None) => Some(b),
            (None, Some(c)) => Some(c),
            (None, None) => None,
        }
    }
}

/// A task that is still to fire does: seen from any instant, a weekly task
/// has a next occurrence, and one that does not repeat has one as long as
/// the first occurrence of one of its weekdays is ahead.
pub proof fn lemma_pending_task_fires(task: Task, now: int) -> (t: int)
    requires
        task.wf(),
        (task matches Task::Recurring { remind_at, on_days, repeat_weekly, created_at, .. }
            && (repeat_weekly || exists|d: Weekday| #[trigger]
            on_days.has(d) && first_candidate(created_at.date@, remind_at@, d) > now)),
    ensures
        next_occurrence_is(task, now, t),
{
    let remind_at = task->Recurring_remind_at;
    let on_days = task->Recurring_on_days;
    let repeat_weekly = task->Recurring_repeat_weekly;
    let created_at = task->Recurring_created_at;
    let created_day = created_at.date@;
    let tod = remind_at@;
    let best = lemma_earliest_candidate(on_days, created_day, tod, now, repeat_weekly, 7);
    assert forall|e: Weekday| e.index() < 7 by {
        lemma_weekday_at_index(e);
    }
    let some = if repeat_weekly {
        choose|d: Weekday| on_days.has(d)
    } else {
        choose|d: Weekday| #[trigger] on_days.has(d) && first_candidate(created_day, tod, d) > now
    };
    assert(on_days.has(some));
    assert(candidate_day(created_day, tod, some, now, repeat_weekly) is Some);
    let day = best->0;
    let w = choose|d: Weekday| #[trigger]
        on_days.has(d) && d.index() < 7 && candidate_day(created_day, tod, d, now, repeat_weekly)
            == Some(day);
    assert(on_days.has(w));
    let t = instant_of(day, tod);
    if repeat_weekly {
        assert(weekly_candidate(created_day, tod, w, now) == t);
        assert forall|d: Weekday| #[trigger] on_days.has(d) implies t <= weekly_candidate(
            created_day,
            tod,
            d,
            now,
        ) by {
            assert(candidate_day(created_day, tod, d, now, true) is Some);
        }
    } else {
        assert(first_candidate(created_day, tod, w) == t);
        assert forall|d: Weekday| #[trigger]
            on_days.has(d) && first_candidate(created_day, tod, d) > now implies t
            <= first_candidate(created_day, tod, d) by {
            assert(candidate_day(created_day, tod, d, now, false) is Some);
        }
        lemma_first_day_on(created_day, w);
    }
    t
}

/// Whether `task` is scheduled as the time specification `spec` says.
pub open spec fn follows_spec(task: Task, spec: TimeSpec) -> bool {
    match task {
        Task::Once { remind_at, date, .. } => spec.date == Some(date@) && remind_at@
            == spec.remind_time,
        Task::Recurring { remind_at, on_days, repeat_weekly, .. } => {
            &&& spec.date is None
            &&& spec.days_of_week == Some(on_days)
            &&& repeat_weekly == spec.repeat_weekly
            &&& remind_at@ == spec.remind_time
        },
    }
}

/// Whether `task` is still to fire, seen from `now`: it has a date, or
/// repeats weekly, or the first occurrence of one of its weekdays is ahead.
pub open spec fn is_pending(task: Task, now: int) -> bool {
    match task {
        Task::Once { .. } => true,
        Task::Recurring { remind_at, on_days, repeat_weekly, created_at, .. } => repeat_weekly
            || exists|d: Weekday| #[trigger]
            on_days.has(d) && first_candidate(created_at.date@, remind_at@, d) > now,
    }
}

/// A task made from a time specification at the instant the specification
/// was read fires strictly after that instant, if it is still to fire.
pub proof fn lemma_read_then_fire(
    text: Seq<char>,
    now_day: int,
    now: int,
    offset: int,
    spec: TimeSpec,
    task: Task,
) -> (t: int)
    requires
        time_spec(text, now_day, now, offset) == Ok::<TimeSpec, ParseError>(spec),
        task.wf(),
        follows_spec(task, spec),
        task.spec_created_at()@ == now,
        is_pending(task, now),
    ensures
        next_occurrence_is(task, now, t),
        next_occurrence(task, now) == Some(t),
        t > now,
{
    let t = match task {
        Task::Once { remind_at, date, .. } => instant_of(date@, remind_at@),
        Task::Recurring { .. } => lemma_pending_task_fires(task, now),
    };
    lemma_fires_after_creation(task, t);
    let chosen = choose|c: int| next_occurrence_is(task, now, c);
    lemma_next_occurrence_unique(task, now, t, chosen);
    t
}

/// Once seven days have passed since a task that does not repeat was
/// created, it has no next occurrence, whichever weekdays it lists.
pub proof fn lemma_single_week_expires(task: Task, now: int, t: int)
    requires
        task.wf(),
        (task matches Task::Recurring { repeat_weekly: false, .. }),
        now >= task.spec_created_at()@ + NANOS_PER_WEEK,
    ensures
        no_next_occurrence(task, now),
        !next_occurrence_is(task, now, t),
{
    let remind_at = task->Recurring_remind_at;
    let on_days = task->Recurring_on_days;
    let created_at = task->Recurring_created_at;
    assert forall|d: Weekday| #[trigger] on_days.has(d) implies first_candidate(
        created_at.date@,
        remind_at@,
        d,
    ) <= now by {
        lemma_first_day_on(created_at.date@, d);
    }
    if next_occurrence_is(task, now, t) {
        let d = choose|d: Weekday| #[trigger]
            on_days.has(d) && first_candidate(created_at.date@, remind_at@, d) == t;
        assert(on_days.has(d));
    }
}

/// A weekly task does not fire twice at one instant while it is in its first
/// pass through the week: if at `now1` the first occurrence of some listed
/// weekday is still ahead and the task fires next at `t1`, then seen from
/// `t1` or later it fires next strictly after `t1`.
pub proof fn lemma_no_double_fire(task: Task, now1: int, t1: int, now2: int, t2: int)
    requires
        task.wf(),
        (task matches Task::Recurring { remind_at, on_days, repeat_weekly: true, created_at, .. }
            && exists|d: Weekday| #[trigger]
            on_days.has(d) && first_candidate(created_at.date@, remind_at@, d) > now1),
        next_occurrence_is(task, now1, t1),
        now2 >= t1,
        next_occurrence_is(task, now2, t2),
    ensures
        t2 > t1,
{
    let remind_at = task->Recurring_remind_at;
    let on_days = task->Recurring_on_days;
    let created_at = task->Recurring_created_at;
    let created_day = created_at.date@;
    let tod = remind_at@;
    let ahead = choose|d: Weekday| #[trigger]
        on_days.has(d) && first_candidate(created_day, tod, d) > now1;
    lemma_first_day_on(created_day, ahead);
    assert(on_days.has(ahead));
    assert(t1 <= weekly_candidate(created_day, tod, ahead, now1));
    let w = choose|d: Weekday| #[trigger]
        on_days.has(d) && weekly_candidate(created_day, tod, d, now2) == t2;
    lemma_first_day_on(created_day, w);
}

/// Past its first pass through the week, a weekly task stands still: once
/// the first occurrence of every listed weekday is behind, the task names the
/// same instant from then on, also after that instant has come.
pub proof fn lemma_second_pass_stands_still(task: Task, now1: int, t1: int, now2: int, t2: int)
    requires
        task.wf(),
        (task matches Task::Recurring { remind_at, on_days, repeat_weekly: true, created_at, .. }
            && none_pending(on_days, created_at.date@, remind_at@, now1)),
        next_occurrence_is(task, now1, t1),
        now2 >= now1,
        next_occurrence_is(task, now2, t2),
    ensures
        t2 == t1,
{
    let remind_at = task->Recurring_remind_at;
    let on_days = task->Recurring_on_days;
    let created_at = task->Recurring_created_at;
    let created_day = created_at.date@;
    let tod = remind_at@;
    assert forall|d: Weekday| #[trigger] on_days.has(d) implies weekly_candidate(
        created_day,
        tod,
        d,
        now1,
    ) == weekly_candidate(created_day, tod, d, now2) by {}
    let w1 = choose|d: Weekday| #[trigger]
        on_days.has(d) && weekly_candidate(created_day, tod, d, now1) == t1;
    let w2 = choose|d: Weekday| #[trigger]
        on_days.has(d) && weekly_candidate(created_day, tod, d, now2) == t2;
    assert(on_days.has(w1) && on_days.has(w2));
}

/// What a recipient's ping loop can be told.
#[derive(PartialEq, Eq, Debug, Clone, Copy, Structural)]
pub enum SpamPingSignal {
    /// Begin pinging.
    Start,
    /// Stop pinging, and wait to be started again.
    Stop,
    /// Stop for good.
    End,
}

/// What a ping loop reports of itself.
#[derive(PartialEq, Eq, Debug, Clone, Copy, Structural)]
pub enum SpamPingStatus {
    Active,
    Stopped,
}

/// Where a ping loop stands.
#[derive(PartialEq, Eq, Debug, Clone, Copy, Structural)]
pub enum PingPhase {
    /// Waiting to be started.
    Stopped,
    /// Pinging.
    Active,
    /// Ended: it takes no further signal.
    Ended,
}

/// What happens to a ping loop.
#[derive(PartialEq, Eq, Debug, Clone, Copy, Structural)]
pub enum PingEvent {
    /// A signal arrived.
    Signal(SpamPingSignal),
    /// The pause after a ping went by with no signal.
    PaceElapsed,
}

/// What the runner of a ping loop is to do next.
#[derive(PartialEq, Eq, Debug, Clone, Copy, Structural)]
pub enum PingCommand {
    /// Send nothing; wait for the next signal.
    Idle,
    /// Mention the recipient, take the mention back at once, then wait for a
    /// signal for at most `pause_millis` milliseconds and report
    /// `PaceElapsed` if none came.
    Ping { pause_millis: u128 },
    /// Send nothing and stop listening.
    Close,
}

/// Milliseconds between two pings while one loop alone is active.
pub const PING_BASE_MILLIS: u64 = 1500;

/// The pause between two pings of one loop while `active` loops are active,
/// in milliseconds: the base pause times their number.
pub open spec fn pause_millis(active: int) -> int {
    1500 * active
}

/// The pause between two pings of one loop while `active` loops are active,
/// in milliseconds. It is held in 128 bits, which take the product for every
/// count.
pub fn ping_pause(active: u64) -> (millis: u128)
    ensures
        millis == pause_millis(active as int),
        millis == PING_BASE_MILLIS * active,
{
    (PING_BASE_MILLIS as u128) * (active as u128)
}

/// The phase after `event`.
pub open spec fn ping_next_phase(phase: PingPhase, event: PingEvent) -> PingPhase {
    match (phase, event) {
        (PingPhase::Ended, _) => PingPhase::Ended,
        (_, PingEvent::Signal(SpamPingSignal::End)) => PingPhase::Ended,
        (_, PingEvent::Signal(SpamPingSignal::Start)) => PingPhase::Active,
        (_, PingEvent::Signal(SpamPingSignal::Stop)) => PingPhase::Stopped,
        (phase, PingEvent::PaceElapsed) => phase,
    }
}

/// What is to be done on `event`, where `active` loops are active once the
/// event is taken: a loop that is active after the event pings and pauses, one
/// that just ended closes, any other stays quiet.
pub open spec fn ping_command(phase: PingPhase, event: PingEvent, active: int) -> PingCommand {
    if phase == PingPhase::Ended {
        PingCommand::Idle
    } else {
        match ping_next_phase(phase, event) {
            PingPhase::Active => PingCommand::Ping { pause_millis: pause_millis(active) as u128 },
            PingPhase::Stopped => PingCommand::Idle,
            PingPhase::Ended => PingCommand::Close,
        }
    }
}

/// The ping loop of one recipient: it keeps mentioning the recipient until
/// told to stop.
#[derive(PartialEq, Eq, Debug, Clone, Copy, Structural)]
pub struct SpamPingJob {
    pub phase: PingPhase,
}

impl SpamPingJob {
    pub open spec fn is_active(self) -> bool {
        self.phase == PingPhase::Active
    }

    pub open spec fn spec_status(self) -> SpamPingStatus {
        if self.phase == PingPhase::Active {
            SpamPingStatus::Active
        } else {
            SpamPingStatus::Stopped
        }
    }

    /// A loop that waits to be started.
    pub fn new() -> (job: SpamPingJob)
        ensures
            job.phase == PingPhase::Stopped,
            job.spec_status() == SpamPingStatus::Stopped,
    {
        SpamPingJob { phase: PingPhase::Stopped }
    }

    pub fn status(&self) -> (s: SpamPingStatus)
        ensures
            s == self.spec_status(),
    {
        match self.phase {
            PingPhase::Active => SpamPingStatus::Active,
            _ => SpamPingStatus::Stopped,
        }
    }

    /// Whether the loop would be active after `event`.
    pub fn active_after(&self, event: PingEvent) -> (b: bool)
        ensures
            b == (ping_next_phase(self.phase, event) == PingPhase::Active),
    {
        match (self.phase, event) {
            (PingPhase::Ended, _) => false,
            (_, PingEvent::Signal(SpamPingSignal::Start)) => true,
            (PingPhase::Active, PingEvent::PaceElapsed) => true,
            _ => false,
        }
    }

    /// Takes an event. `active` is the number of loops that are active once
    /// this one has taken it, itself included.
    pub fn step(&mut self, event: PingEvent, active: u64) -> (command: PingCommand)
        ensures
            final(self).phase == ping_next_phase(old(self).phase, event),
            command == ping_command(old(self).phase, event, active as int),
            old(self).spec_status() == SpamPingStatus::Stopped && event == PingEvent::Signal(
                SpamPingSignal::Stop,
            ) ==> final(self).spec_status() == SpamPingStatus::Stopped && !(command is Ping),
            (command matches PingCommand::Ping { pause_millis } ==> pause_millis
                == PING_BASE_MILLIS * active),
    {
        if let PingPhase::Ended = self.phase {
            return PingCommand::Idle;
        }
        match event {
            PingEvent::Signal(SpamPingSignal::End) => {
                self.phase = PingPhase::Ended;
                PingCommand::Close
            },
            PingEvent::Signal(SpamPingSignal::Stop) => {
                self.phase = PingPhase::Stopped;
                PingCommand::Idle
            },
            PingEvent::Signal(SpamPingSignal::Start) => {
                self.phase = PingPhase::Active;
                PingCommand::Ping { pause_millis: ping_pause(active) }
            },
            PingEvent::PaceElapsed => {
                if let PingPhase::Active = self.phase {
                    PingCommand::Ping { pause_millis: ping_pause(active) }
                } else {
                    PingCommand::Idle
                }
            },
        }
    }

    /// Takes a signal; see `step`.
    pub fn signal(&mut self, signal: SpamPingSignal, active: u64) -> (command: PingCommand)
        ensures
            final(self).phase == ping_next_phase(old(self).phase, PingEvent::Signal(signal)),
            command == ping_command(old(self).phase, PingEvent::Signal(signal), active as int),
    {
        self.step(PingEvent::Signal(signal), active)
    }
}

/// Stopping a loop that is not active leaves it so, and nothing is sent.
pub proof fn lemma_stop_is_idempotent(phase: PingPhase, active: int)
    requires
        phase != PingPhase::Active,
    ensures
        ping_next_phase(phase, PingEvent::Signal(SpamPingSignal::Stop)) != PingPhase::Active,
        !(ping_command(phase, PingEvent::Signal(SpamPingSignal::Stop), active) is Ping),
        phase == PingPhase::Stopped ==> ping_next_phase(
            phase,
            PingEvent::Signal(SpamPingSignal::Stop),
        ) == PingPhase::Stopped,
{
}

/// The pause of a loop is in proportion to the number of active loops: it is
/// the base pause for one, and a count so many times larger gives a pause so
/// many times longer.
pub proof fn lemma_pause_scales(active: int, factor: int)
    ensures
        pause_millis(1) == PING_BASE_MILLIS,
        pause_millis(active) == PING_BASE_MILLIS * active,
        pause_millis(active * factor) == pause_millis(active) * factor,
{
    assert(1500 * (active * factor) == (1500 * active) * factor) by (nonlinear_arith);
}

/// Where the job of one task stands.
#[derive(PartialEq, Eq, Debug, Clone, Copy, Structural)]
pub enum JobPhase {
    /// About to work out when to fire next.
    Scheduled,
    /// Asleep until the next occurrence.
    Waiting,
    /// Delivering the reminder.
    Firing,
    /// Retiring: the stored task is being deleted; the job is still filed.
    Retiring,
    /// Retired: the stored task is deleted and the job is to be dropped.
    Retired,
    /// Stopped on a next occurrence that lies in the past.
    Failed,
}

/// What happens to a job.
#[derive(PartialEq, Eq, Debug, Clone, Copy, Structural)]
pub enum JobEvent {
    /// The job is at the top of its loop.
    Wake,
    /// The sleep is over.
    TimerElapsed,
    /// The task was cancelled.
    Cancel,
    /// The reminder reached the recipient.
    Delivered,
    /// The reminder could not be sent.
    DeliveryFailed,
    /// The stored task has been deleted.
    Deleted,
}

/// What the runner of a job is to do next.
#[derive(PartialEq, Eq, Debug, Clone, Copy, Structural)]
pub enum JobCommand {
    /// Nothing new: whatever is under way goes on.
    Nothing,
    /// Sleep this long, then report `TimerElapsed`.
    Sleep { seconds: u64, nanoseconds: u32 },
    /// Send the reminder, then report `Delivered` or `DeliveryFailed`.
    Deliver,
    /// Wait this long, then send the reminder again.
    Retry { delay_millis: u64 },
    /// Start the recipient's ping loop, then report `Wake`.
    StartPing,
    /// Delete the stored task, then report `Deleted`.
    Retire,
    /// Stop: the job has retired and is to be dropped.
    Exit,
    /// Stop with an error: the next occurrence lies in the past.
    Abort,
}

/// Milliseconds between two attempts to deliver a reminder.
pub const RETRY_MILLIS: u64 = 300;

/// The state of a job, without its task.
pub struct JobState {
    pub phase: JobPhase,
    pub cancelled: bool,
}

/// The command that puts a job to sleep for `span` nanoseconds.
pub open spec fn sleep_for(span: int) -> JobCommand {
    JobCommand::Sleep {
        seconds: (span / 1_000_000_000) as u64,
        nanoseconds: (span % 1_000_000_000) as u32,
    }
}

/// One step of a job: the state after `event`, and what is to be done.
/// `next` is the next occurrence of the task seen from `now`.
///
/// A cancellation retires a sleeping job at once; at any other time it is
/// noted, and seen when the job next comes to the top of its loop. A job
/// that retires first has its stored task deleted, and has retired only when
/// the deletion is reported.
pub open spec fn job_step(state: JobState, event: JobEvent, next: Option<int>, now: int) -> (
    JobState,
    JobCommand,
) {
    let stay = (state, JobCommand::Nothing);
    match (state.phase, event) {
        (JobPhase::Retired, _) | (JobPhase::Failed, _) => stay,
        (JobPhase::Retiring, JobEvent::Deleted) => (
            JobState { phase: JobPhase::Retired, cancelled: state.cancelled },
            JobCommand::Exit,
        ),
        (JobPhase::Waiting, JobEvent::Cancel) => (
            JobState { phase: JobPhase::Retiring, cancelled: true },
            JobCommand::Retire,
        ),
        (_, JobEvent::Cancel) => (
            JobState { phase: state.phase, cancelled: true },
            JobCommand::Nothing,
        ),
        (JobPhase::Scheduled, JobEvent::Wake) => {
            if state.cancelled {
                (JobState { phase: JobPhase::Retiring, cancelled: true }, JobCommand::Retire)
            } else {
                match next {
                    None => (
                        JobState { phase: JobPhase::Retiring, cancelled: false },
                        JobCommand::Retire,
                    ),
                    Some(t) => if t >= now {
                        (
                            JobState { phase: JobPhase::Waiting, cancelled: false },
                            sleep_for(t - now),
                        )
                    } else {
                        (JobState { phase: JobPhase::Failed, cancelled: false }, JobCommand::Abort)
                    },
                }
            }
        },
        (JobPhase::Waiting, JobEvent::TimerElapsed) => (
            JobState { phase: JobPhase::Firing, cancelled: state.cancelled },
            JobCommand::Deliver,
        ),
        (JobPhase::Firing, JobEvent::Delivered) => (
            JobState { phase: JobPhase::Scheduled, cancelled: state.cancelled },
            JobCommand::StartPing,
        ),
        (JobPhase::Firing, JobEvent::DeliveryFailed) => (
            state,
            JobCommand::Retry { delay_millis: RETRY_MILLIS },
        ),
        _ => stay,
    }
}

/// The time from `now` to `until`, as whole seconds and the nanoseconds
/// beyond them.
pub fn sleep_until_next(until: &DateTime, now: &DateTime) -> (r: Option<(u64, u32)>)
    ensures
        r is Some <==> until@ >= now@,
        r matches Some(d) ==> d.0 == (until@ - now@) / 1_000_000_000 && d.1 == (until@ - now@)
            % 1_000_000_000,
{
    let d1 = now.date.to_julian_day();
    let d2 = until.date.to_julian_day();
    let t1 = now.time.nanos_since_midnight();
    let t2 = until.time.nanos_since_midnight();
    let span: i128 = (d2 as i128 - d1 as i128) * 86_400_000_000_000 + (t2 as i128 - t1 as i128);
    if span >= 0 {
        Some(((span / 1_000_000_000) as u64, (span % 1_000_000_000) as u32))
    } else {
        None
    }
}

/// The job of one task: it sleeps until the task's next occurrence, delivers
/// the reminder, starts the recipient's ping loop and begins again, until the
/// task has no further occurrence or is cancelled.
pub struct EmbedReminderJob {
    pub task: Task,
    pub phase: JobPhase,
    pub cancelled: bool,
}

impl EmbedReminderJob {
    pub open spec fn wf(self) -> bool {
        self.task.wf()
    }

    pub open spec fn state(self) -> JobState {
        JobState { phase: self.phase, cancelled: self.cancelled }
    }

    /// A job for `task`, about to work out its first occurrence.
    pub fn new(task: Task) -> (job: EmbedReminderJob)
        requires
            task.wf(),
        ensures
            job.wf(),
            job.task == task,
            job.phase == JobPhase::Scheduled,
            !job.cancelled,
    {
        EmbedReminderJob { task, phase: JobPhase::Scheduled, cancelled: false }
    }

    /// Whether the job has stopped for good.
    pub fn is_finished(&self) -> (b: bool)
        ensures
            b == (self.phase == JobPhase::Retired || self.phase == JobPhase::Failed),
    {
        match self.phase {
            JobPhase::Retired | JobPhase::Failed => true,
            _ => false,
        }
    }

    /// Takes an event at the instant `now`.
    pub fn step(&mut self, event: JobEvent, now: &DateTime) -> (command: JobCommand)
        requires
            old(self).wf(),
        ensures
            final(self).task == old(self).task,
            (final(self).state(), command) == job_step(
                old(self).state(),
                event,
                next_occurrence(old(self).task, now@),
                now@,
            ),
    {
        match (self.phase, event) {
            (JobPhase::Retired, _) | (JobPhase::Failed, _) => JobCommand::Nothing,
            (JobPhase::Retiring, JobEvent::Deleted) => {
                self.phase = JobPhase::Retired;
                JobCommand::Exit
            },
            (JobPhase::Waiting, JobEvent::Cancel) => {
                self.phase = JobPhase::Retiring;
                self.cancelled = true;
                JobCommand::Retire
            },
            (_, JobEvent::Cancel) => {
                self.cancelled = true;
                JobCommand::Nothing
            },
            (JobPhase::Scheduled, JobEvent::Wake) => {
                if self.cancelled {
                    self.phase = JobPhase::Retiring;
                    JobCommand::Retire
                } else {
                    match next_occurrence_time(&self.task, now) {
                        None => {
                            self.phase = JobPhase::Retiring;
                            JobCommand::Retire
                        },
                        Some(until) => match sleep_until_next(&until, now) {
                            Some((seconds, nanoseconds)) => {
                                self.phase = JobPhase::Waiting;
                                JobCommand::Sleep { seconds, nanoseconds }
                            },
                            None => {
                                self.phase = JobPhase::Failed;
                                JobCommand::Abort
                            },
                        },
                    }
                }
            },
            (JobPhase::Waiting, JobEvent::TimerElapsed) => {
                self.phase = JobPhase::Firing;
                JobCommand::Deliver
            },
            (JobPhase::Firing, JobEvent::Delivered) => {
                self.phase = JobPhase::Scheduled;
                JobCommand::StartPing
            },
            (JobPhase::Firing, JobEvent::DeliveryFailed) => JobCommand::Retry {
                delay_millis: RETRY_MILLIS,
            },
            _ => JobCommand::Nothing,
        }
    }

    /// Notes that the task was cancelled. The job itself sees it: when it is
    /// handed `Cancel` in its sleep, or when it next comes to the top of its
    /// loop.
    pub fn kill(&mut self)
        ensures
            final(self).task == old(self).task,
            final(self).phase == old(self).phase,
            final(self).cancelled,
    {
        self.cancelled = true;
    }
}

/// When a sleeping job is cancelled at the instant its timer ends, the order
/// in which the two are taken decides, and both ways end in retirement.
/// Cancelled first, the job retires at once and the timer is ignored: nothing
/// is delivered. Woken first, the job delivers once, notes the cancellation
/// meanwhile, and retires when it comes back to the top of its loop. The
/// same holds where the cancellation was only noted before the timer ended.
pub proof fn lemma_cancel_or_fire(state: JobState, next: Option<int>, now: int)
    requires
        state.phase == JobPhase::Waiting,
    ensures
        ({
            let cancelled = job_step(state, JobEvent::Cancel, next, now);
            let then_timer = job_step(cancelled.0, JobEvent::TimerElapsed, next, now);
            let deleted = job_step(then_timer.0, JobEvent::Deleted, next, now);
            &&& cancelled.1 == JobCommand::Retire
            &&& cancelled.0.phase == JobPhase::Retiring
            &&& then_timer.1 == JobCommand::Nothing
            &&& then_timer.0.phase == JobPhase::Retiring
            &&& deleted.1 == JobCommand::Exit
            &&& deleted.0.phase == JobPhase::Retired
        }),
        ({
            let fired = job_step(state, JobEvent::TimerElapsed, next, now);
            let then_cancel = job_step(fired.0, JobEvent::Cancel, next, now);
            let delivered = job_step(then_cancel.0, JobEvent::Delivered, next, now);
            let woken = job_step(delivered.0, JobEvent::Wake, next, now);
            let deleted = job_step(woken.0, JobEvent::Deleted, next, now);
            &&& fired.1 == JobCommand::Deliver
            &&& then_cancel.1 == JobCommand::Nothing
            &&& delivered.1 == JobCommand::StartPing
            &&& woken.1 == JobCommand::Retire
            &&& woken.0.phase == JobPhase::Retiring
            &&& deleted.1 == JobCommand::Exit
            &&& deleted.0.phase == JobPhase::Retired
        }),
        state.cancelled ==> ({
            let fired = job_step(state, JobEvent::TimerElapsed, next, now);
            let delivered = job_step(fired.0, JobEvent::Delivered, next, now);
            let woken = job_step(delivered.0, JobEvent::Wake, next, now);
            &&& fired.1 == JobCommand::Deliver
            &&& delivered.1 == JobCommand::StartPing
            &&& woken.1 == JobCommand::Retire
        }),
{
}

/// A job that has retired or failed takes no further step, and a
/// cancellation is never lost: once noted it stays noted, and a cancelled job
/// never goes back to sleep.
pub proof fn lemma_cancellation_sticks(
    state: JobState,
    event: JobEvent,
    next: Option<int>,
    now: int,
)
    ensures
        state.phase == JobPhase::Retired || state.phase == JobPhase::Failed ==> job_step(
            state,
            event,
            next,
            now,
        ) == (state, JobCommand::Nothing),
        state.cancelled ==> job_step(state, event, next, now).0.cancelled,
        state.cancelled ==> !(job_step(state, event, next, now).1 is Sleep),
{
}

/// The stored task is deleted before the job is dropped: a job retires only
/// on the report that its task was deleted, which it takes only while
/// retiring; and the order to delete is given exactly on entering that phase.
pub proof fn lemma_delete_before_retirement(
    state: JobState,
    event: JobEvent,
    next: Option<int>,
    now: int,
)
    requires
        state.phase != JobPhase::Retired,
    ensures
        job_step(state, event, next, now).0.phase == JobPhase::Retired <==> state.phase
            == JobPhase::Retiring && event == JobEvent::Deleted,
        job_step(state, event, next, now).1 == JobCommand::Retire <==> state.phase
            != JobPhase::Retiring && job_step(state, event, next, now).0.phase
            == JobPhase::Retiring,
        job_step(state, event, next, now).1 == JobCommand::Exit <==> job_step(
            state,
            event,
            next,
            now,
        ).0.phase == JobPhase::Retired,
        state.phase == JobPhase::Retiring && event != JobEvent::Deleted ==> job_step(
            state,
            event,
            next,
            now,
        ).0.phase == JobPhase::Retiring,
{
}

} // verus!
