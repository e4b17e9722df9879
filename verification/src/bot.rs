//! The registry of running jobs and ping loops, and what to make of an
//! incoming message.

use vstd::prelude::*;
use vstd::string::*;
use std::collections::HashMap;
use crate::calendar::{DateTime, UtcOffset};
use crate::text::{chars_of, contains_word, has_word, join_lines, line_ranges, split_lines};
use crate::time_parse::{ParseError, TaskTimeInfo, TimeSpec, time_spec};
use crate::jobs::{
    EmbedReminderJob, JobCommand, JobEvent, JobPhase, PingCommand, PingEvent, PingPhase,
    SpamPingJob, SpamPingSignal, SpamPingStatus, job_step, next_occurrence, ping_command,
    ping_next_phase,
};
use crate::model::{Task, TaskCreateInfo};

verus! {

broadcast use vstd::std_specs::hash::group_hash_axioms;

/// The recipients whose ping loops are active.
pub open spec fn active_recipients(loops: Map<u64, SpamPingJob>) -> Set<u64> {
    Set::new(|recipient: u64| loops.contains_key(recipient) && loops[recipient].is_active())
}

/// The phase of a recipient's ping loop; a recipient without one counts as
/// stopped.
pub open spec fn phase_of(loops: Map<u64, SpamPingJob>, recipient: u64) -> PingPhase {
    if loops.contains_key(recipient) {
        loops[recipient].phase
    } else {
        PingPhase::Stopped
    }
}

/// By how much the number of active loops changes when a loop in `phase`
/// takes `event`: one more where the loop becomes active, one fewer where it
/// stops being active, and no change otherwise.
pub open spec fn active_change(phase: PingPhase, event: PingEvent) -> int {
    let was_active = phase == PingPhase::Active;
    let is_active = ping_next_phase(phase, event) == PingPhase::Active;
    if is_active && !was_active {
        1
    } else if was_active && !is_active {
        -1
    } else {
        0
    }
}

/// Over one cycle of a loop the number of active loops comes back to what it
/// was: starting a loop that is not active makes it one more, stopping or
/// ending it one fewer again, and what happens in between changes nothing.
pub proof fn lemma_count_over_a_cycle(phase: PingPhase, stop: SpamPingSignal)
    requires
        phase == PingPhase::Stopped,
        stop != SpamPingSignal::Start,
    ensures
        active_change(phase, PingEvent::Signal(SpamPingSignal::Start)) == 1,
        active_change(PingPhase::Active, PingEvent::PaceElapsed) == 0,
        active_change(PingPhase::Active, PingEvent::Signal(SpamPingSignal::Start)) == 0,
        active_change(PingPhase::Active, PingEvent::Signal(stop)) == -1,
        active_change(phase, PingEvent::Signal(stop)) == 0,
{
}

/// The job that is filed for a new task.
pub open spec fn new_job(task: Task) -> EmbedReminderJob {
    EmbedReminderJob { task, phase: JobPhase::Scheduled, cancelled: false }
}

/// The jobs after a job was filed, in order, for each of `tasks` that the
/// scheduler can work on.
pub open spec fn replayed(jobs: Map<i64, EmbedReminderJob>, tasks: Seq<Task>) -> Map<
    i64,
    EmbedReminderJob,
>
    decreases tasks.len(),
{
    if tasks.len() == 0 {
        jobs
    } else {
        let before = replayed(jobs, tasks.drop_last());
        if tasks.last().wf() {
            before.insert(tasks.last().spec_id(), new_job(tasks.last()))
        } else {
            before
        }
    }
}

/// How many of `tasks` the scheduler can work on.
pub open spec fn workable(tasks: Seq<Task>) -> nat
    decreases tasks.len(),
{
    if tasks.len() == 0 {
        0
    } else if tasks.last().wf() {
        workable(tasks.drop_last()) + 1
    } else {
        workable(tasks.drop_last())
    }
}

/// The jobs and ping loops that are running, by task and by recipient, and
/// the number of ping loops that are active.
pub struct DzContextInner {
    /// The ping loop of each recipient that ever had one.
    spammer_ctl: HashMap<u64, SpamPingJob>,
    /// The job of each task that is still to fire.
    reminders_ctl: HashMap<i64, EmbedReminderJob>,
    /// How many ping loops are active.
    num_active_spams: u64,
}

impl DzContextInner {
    /// There are finitely many loops and the count of the active ones is
    /// right; every job is well formed, neither retired nor failed, and filed
    /// under the number of its task.
    pub open spec fn wf(self) -> bool {
        &&& self.loops().dom().finite()
        &&& self.active_count() == active_recipients(self.loops()).len()
        &&& forall|id: i64| #[trigger]
            self.jobs().contains_key(id) ==> {
                &&& self.jobs()[id].wf()
                &&& self.jobs()[id].task.spec_id() == id
                &&& self.jobs()[id].phase != JobPhase::Retired
                &&& self.jobs()[id].phase != JobPhase::Failed
            }
    }

    /// The ping loops, by recipient.
    pub closed spec fn loops(self) -> Map<u64, SpamPingJob> {
        self.spammer_ctl@
    }

    /// The jobs, by the number of their task.
    pub closed spec fn jobs(self) -> Map<i64, EmbedReminderJob> {
        self.reminders_ctl@
    }

    /// The count that is kept of the active ping loops.
    pub closed spec fn active_count(self) -> int {
        self.num_active_spams as int
    }

    /// An empty registry.
    pub fn new() -> (ctx: DzContextInner)
        ensures
            ctx.wf(),
            ctx.loops() == Map::<u64, SpamPingJob>::empty(),
            ctx.jobs() == Map::<i64, EmbedReminderJob>::empty(),
            ctx.active_count() == 0,
    {
        let ctx = DzContextInner {
            spammer_ctl: HashMap::new(),
            reminders_ctl: HashMap::new(),
            num_active_spams: 0,
        };
        assert(active_recipients(ctx.spammer_ctl@) =~= Set::<u64>::empty());
        ctx
    }

    /// What the ping loop of `recipient` reports: stopped where there is none.
    pub fn status(&self, recipient: u64) -> (s: SpamPingStatus)
        ensures
            s == SpamPingStatus::Active <==> phase_of(self.loops(), recipient) == PingPhase::Active,
    {
        match self.spammer_ctl.get(&recipient) {
            Some(job) => job.status(),
            None => SpamPingStatus::Stopped,
        }
    }

    /// The number of ping loops that are active.
    pub fn num_active_spams(&self) -> (n: u64)
        requires
            self.wf(),
        ensures
            n == self.active_count(),
            n == active_recipients(self.loops()).len(),
    {
        self.num_active_spams
    }

    /// Where the ping loop of `recipient` stands, if the recipient has one.
    pub fn loop_phase(&self, recipient: u64) -> (r: Option<PingPhase>)
        ensures
            r is Some <==> self.loops().contains_key(recipient),
            r matches Some(phase) ==> phase == self.loops()[recipient].phase,
    {
        match self.spammer_ctl.get(&recipient) {
            Some(job) => Some(job.phase),
            None => None,
        }
    }

    /// Where the job of the task `task_id` stands and whether it has been
    /// cancelled, if a job is filed for that task.
    pub fn job_state(&self, task_id: i64) -> (r: Option<(JobPhase, bool)>)
        ensures
            r is Some <==> self.jobs().contains_key(task_id),
            r matches Some(state) ==> state.0 == self.jobs()[task_id].phase && state.1
                == self.jobs()[task_id].cancelled,
    {
        match self.reminders_ctl.get(&task_id) {
            Some(job) => Some((job.phase, job.cancelled)),
            None => None,
        }
    }

    /// The number of ping loops, active or not.
    pub fn loop_count(&self) -> (n: usize)
        ensures
            n == self.loops().len(),
    {
        self.spammer_ctl.len()
    }

    /// The number of jobs.
    pub fn job_count(&self) -> (n: usize)
        ensures
            n == self.jobs().len(),
    {
        self.reminders_ctl.len()
    }

    /// Hands an event to the ping loop of `recipient` and says what its
    /// runner is to do.
    ///
    /// A recipient gets a loop with the first `Start`; any other event for a
    /// recipient without a loop is dropped. The pause of a ping goes by the
    /// number of loops that are active once the event is taken.
    pub fn ping_step(&mut self, recipient: u64, event: PingEvent) -> (command: PingCommand)
        requires
            old(self).wf(),
        ensures
            final(self).wf(),
            final(self).jobs() == old(self).jobs(),
            final(self).active_count() == old(self).active_count() + active_change(
                phase_of(old(self).loops(), recipient),
                event,
            ),
            old(self).loops().contains_key(recipient) || event == PingEvent::Signal(
                SpamPingSignal::Start,
            ) ==> ({
                &&& final(self).loops() == old(self).loops().insert(
                    recipient,
                    SpamPingJob {
                        phase: ping_next_phase(phase_of(old(self).loops(), recipient), event),
                    },
                )
                &&& command == ping_command(
                    phase_of(old(self).loops(), recipient),
                    event,
                    active_recipients(final(self).loops()).len() as int,
                )
            }),
            !(old(self).loops().contains_key(recipient) || event == PingEvent::Signal(
                SpamPingSignal::Start,
            )) ==> final(self).loops() == old(self).loops() && command
                == PingCommand::Idle,
    {
        let known: Option<SpamPingJob> = match self.spammer_ctl.get(&recipient) {
            Some(job) => Some(*job),
            None => None,
        };
        let mut job = match known {
            Some(job) => job,
            None => {
                if event == PingEvent::Signal(SpamPingSignal::Start) {
                    SpamPingJob::new()
                } else {
                    return PingCommand::Idle;
                }
            },
        };
        let ghost before = self.spammer_ctl@;
        let ghost active = active_recipients(before);
        self.spammer_ctl.insert(recipient, job);
        let loops = self.spammer_ctl.len();
        let ghost placed = self.spammer_ctl@;
        proof {
            assert(active_recipients(placed) =~= active);
            assert(active.insert(recipient).subset_of(placed.dom()));
            vstd::set_lib::lemma_len_subset(active.insert(recipient), placed.dom());
            vstd::set_lib::lemma_len_subset(active, placed.dom());
        }
        let was_active = job.status() == SpamPingStatus::Active;
        let will_be_active = job.active_after(event);
        let count: u64 = if will_be_active && !was_active {
            self.num_active_spams + 1
        } else if was_active && !will_be_active {
            proof {
                assert(active.contains(recipient));
            }
            self.num_active_spams - 1
        } else {
            self.num_active_spams
        };
        let command = job.step(event, count);
        self.spammer_ctl.insert(recipient, job);
        self.num_active_spams = count;
        proof {
            let after = self.spammer_ctl@;
            assert(after == before.insert(recipient, job));
            if will_be_active {
                assert(active_recipients(after) =~= active.insert(recipient));
            } else {
                assert(active_recipients(after) =~= active.remove(recipient));
            }
        }
        command
    }

    /// Hands a signal to the ping loop of `recipient`; see `ping_step`.
    pub fn signal(&mut self, recipient: u64, signal: SpamPingSignal) -> (command: PingCommand)
        requires
            old(self).wf(),
        ensures
            final(self).wf(),
            final(self).jobs() == old(self).jobs(),
            final(self).active_count() == old(self).active_count() + active_change(
                phase_of(old(self).loops(), recipient),
                PingEvent::Signal(signal),
            ),
            (old(self).loops().contains_key(recipient) || signal == SpamPingSignal::Start ==> {
                &&& final(self).loops() == old(self).loops().insert(
                    recipient,
                    SpamPingJob {
                        phase: ping_next_phase(
                            phase_of(old(self).loops(), recipient),
                            PingEvent::Signal(signal),
                        ),
                    },
                )
                &&& command == ping_command(
                    phase_of(old(self).loops(), recipient),
                    PingEvent::Signal(signal),
                    active_recipients(final(self).loops()).len() as int,
                )
            }),
            !(old(self).loops().contains_key(recipient) || signal == SpamPingSignal::Start)
                ==> final(self).loops() == old(self).loops() && command
                == PingCommand::Idle,
    {
        self.ping_step(recipient, PingEvent::Signal(signal))
    }

    /// Stops the ping loop of `recipient` if it is active, and says whether
    /// it was: if so, the recipient's message was the answer to a reminder,
    /// and no new task.
    pub fn cancel_for(&mut self, recipient: u64) -> (was_active: bool)
        requires
            old(self).wf(),
        ensures
            final(self).wf(),
            final(self).jobs() == old(self).jobs(),
            final(self).active_count() == old(self).active_count() - (if was_active {
                1int
            } else {
                0int
            }),
            was_active == (phase_of(old(self).loops(), recipient) == PingPhase::Active),
            was_active ==> final(self).loops() == old(self).loops().insert(
                recipient,
                SpamPingJob { phase: PingPhase::Stopped },
            ),
            !was_active ==> final(self).loops() == old(self).loops(),
            phase_of(final(self).loops(), recipient) != PingPhase::Active,
    {
        if self.status(recipient) == SpamPingStatus::Active {
            let _ = self.ping_step(recipient, PingEvent::Signal(SpamPingSignal::Stop));
            true
        } else {
            false
        }
    }

    /// Files a job for `task`, about to work out its first occurrence. A job
    /// that was filed under the same number is replaced.
    pub fn add_task(&mut self, task: Task)
        requires
            old(self).wf(),
            task.wf(),
        ensures
            final(self).wf(),
            final(self).loops() == old(self).loops(),
            final(self).active_count() == old(self).active_count(),
            final(self).jobs() == old(self).jobs().insert(
                task.spec_id(),
                EmbedReminderJob { task, phase: JobPhase::Scheduled, cancelled: false },
            ),
    {
        let id = task.id();
        let job = EmbedReminderJob::new(task);
        self.reminders_ctl.insert(id, job);
    }

    /// Files a job for each of the stored tasks that the scheduler can work
    /// on, and says how many those were. No ping loop is made.
    pub fn replay_all(&mut self, tasks: Vec<Task>) -> (filed: usize)
        requires
            old(self).wf(),
        ensures
            final(self).wf(),
            final(self).loops() == old(self).loops(),
            final(self).active_count() == old(self).active_count(),
            filed == workable(tasks@),
            final(self).jobs() == replayed(old(self).jobs(), tasks@),
            forall|i: int|
                0 <= i < tasks@.len() && (#[trigger] tasks@[i]).wf() ==> final(
                    self
                ).jobs().contains_key(tasks@[i].spec_id()),
            forall|id: i64| #[trigger]
                final(self).jobs().contains_key(id) ==> old(self).jobs().contains_key(id)
                    || exists|i: int|
                    0 <= i < tasks@.len() && (#[trigger] tasks@[i]).wf() && tasks@[i].spec_id()
                        == id,
            forall|id: i64| #[trigger]
                old(self).jobs().contains_key(id) ==> final(self).jobs().contains_key(id),
    {
        let ghost all = tasks@;
        let total = tasks.len();
        let mut rest = tasks;
        let mut filed: usize = 0;
        let ghost mut done: int = 0;
        assert(all.take(0) == Seq::<Task>::empty());
        while rest.len() > 0
            invariant
                self.wf(),
                self.spammer_ctl@ == old(self).loops(),
                self.num_active_spams == old(self).num_active_spams,
                0 <= done <= all.len(),
                all.len() == total,
                filed <= done,
                filed == workable(all.take(done)),
                rest@ == all.skip(done),
                self.reminders_ctl@ == replayed(old(self).jobs(), all.take(done)),
                forall|i: int|
                    0 <= i < done && (#[trigger] all[i]).wf() ==> self.reminders_ctl@.contains_key(
                        all[i].spec_id(),
                    ),
                forall|id: i64| #[trigger]
                    self.reminders_ctl@.contains_key(id) ==> old(self).jobs().contains_key(
                        id,
                    ) || exists|i: int|
                        0 <= i < done && (#[trigger] all[i]).wf() && all[i].spec_id() == id,
                forall|id: i64| #[trigger]
                    old(self).jobs().contains_key(id) ==> self.reminders_ctl@.contains_key(
                        id,
                    ),
            decreases rest.len(),
        {
            let task = rest.remove(0);
            proof {
                assert(task == all[done]);
                assert(rest@ == all.skip(done + 1));
                assert(all.take(done + 1).drop_last() == all.take(done));
                assert(all.take(done + 1).last() == task);
            }
            if task.is_wf() {
                self.add_task(task);
                filed += 1;
            }
            proof {
                done = done + 1;
            }
        }
        assert(all.take(done) == all);
        filed
    }

    /// Hands an event to the job of the task `task_id` at the instant `now`
    /// and says what its runner is to do, or `None` where no job is filed
    /// for that task.
    ///
    /// A job that is to retire stays filed, retiring, while its runner
    /// deletes the stored task; it is dropped when the runner reports the
    /// deletion. A job that fails is dropped at once: nothing is deleted.
    pub fn job_step(&mut self, task_id: i64, event: JobEvent, now: &DateTime) -> (command: Option<
        JobCommand,
    >)
        requires
            old(self).wf(),
        ensures
            final(self).wf(),
            final(self).loops() == old(self).loops(),
            final(self).active_count() == old(self).active_count(),
            command is Some <==> old(self).jobs().contains_key(task_id),
            command is None ==> final(self).jobs() == old(self).jobs(),
            command matches Some(c) ==> ({
                let job = old(self).jobs()[task_id];
                let next = job_step(job.state(), event, next_occurrence(job.task, now@), now@);
                &&& c == next.1
                &&& if next.0.phase == JobPhase::Retired || next.0.phase == JobPhase::Failed {
                    final(self).jobs() == old(self).jobs().remove(task_id)
                } else {
                    final(self).jobs() == old(self).jobs().insert(
                        task_id,
                        EmbedReminderJob {
                            task: job.task,
                            phase: next.0.phase,
                            cancelled: next.0.cancelled,
                        },
                    )
                }
            }),
            command == Some(JobCommand::Retire) ==> final(self).jobs().contains_key(task_id)
                && final(self).jobs()[task_id].phase == JobPhase::Retiring && final(self).jobs().dom() == old(self).jobs().dom(),
            command == Some(JobCommand::Exit) <==> old(self).jobs().contains_key(task_id) && old(self).jobs()[task_id].phase == JobPhase::Retiring && event == JobEvent::Deleted,
            command == Some(JobCommand::Exit) ==> final(self).jobs() == old(self).jobs().remove(
                task_id,
            ),
            command == Some(JobCommand::Exit) || command == Some(JobCommand::Abort) || final(self).jobs().dom() == old(self).jobs().dom(),
    {
        let mut job = match self.reminders_ctl.remove(&task_id) {
            Some(job) => job,
            None => {
                assert(self.reminders_ctl@ == old(self).jobs());
                return None;
            },
        };
        let command = job.step(event, now);
        if !job.is_finished() {
            self.reminders_ctl.insert(task_id, job);
        }
        Some(command)
    }

    /// Notes that the task `task_id` was cancelled, and says whether a job is
    /// filed for it. The job stays filed: it sees the cancellation itself,
    /// in its sleep or when it next comes to the top of its loop, and is
    /// dropped only after it has had its stored task deleted.
    pub fn kill_reminder_job(&mut self, task_id: i64) -> (found: bool)
        requires
            old(self).wf(),
        ensures
            final(self).wf(),
            final(self).loops() == old(self).loops(),
            final(self).active_count() == old(self).active_count(),
            found == old(self).jobs().contains_key(task_id),
            final(self).jobs().dom() == old(self).jobs().dom(),
            !found ==> final(self).jobs() == old(self).jobs(),
            found ==> final(self).jobs() == old(self).jobs().insert(
                task_id,
                EmbedReminderJob {
                    task: old(self).jobs()[task_id].task,
                    phase: old(self).jobs()[task_id].phase,
                    cancelled: true,
                },
            ),
    {
        match self.reminders_ctl.remove(&task_id) {
            Some(job) => {
                let mut job = job;
                job.kill();
                self.reminders_ctl.insert(task_id, job);
                assert(self.reminders_ctl@.dom() =~= old(self).jobs().dom());
                true
            },
            None => {
                assert(self.reminders_ctl@ == old(self).jobs());
                false
            },
        }
    }

    /// Decides what to do about a message that `author` sent at the instant
    /// `now`, on a clock that is `offset` ahead of UTC.
    ///
    /// A message of a bot or from a public channel is ignored. While the
    /// sender's ping loop is active, any message stops it and is nothing
    /// more. Any other message is read as a new task.
    pub fn on_message(
        &mut self,
        author: u64,
        from_bot: bool,
        in_guild: bool,
        content: &str,
        now: &DateTime,
        offset: &UtcOffset,
    ) -> (outcome: MessageOutcome)
        requires
            old(self).wf(),
        ensures
            final(self).wf(),
            final(self).jobs() == old(self).jobs(),
            final(self).active_count() == old(self).active_count() - (if outcome is Stopped {
                1int
            } else {
                0int
            }),
            outcome is Ignored <==> from_bot || in_guild,
            outcome is Stopped <==> !from_bot && !in_guild && phase_of(
                old(self).loops(),
                author,
            ) == PingPhase::Active,
            outcome is Stopped ==> final(self).loops() == old(self).loops().insert(
                author,
                SpamPingJob { phase: PingPhase::Stopped },
            ),
            !(outcome is Stopped) ==> final(self).loops() == old(self).loops(),
            outcome matches MessageOutcome::Create(task) ==> new_task(
                content@,
                now.date@,
                now@,
                offset@,
            ) == Ok::<NewTask, TextError>(task@),
            outcome matches MessageOutcome::Rejected(e) ==> !asks_help(content@) && new_task(
                content@,
                now.date@,
                now@,
                offset@,
            ) == Err::<NewTask, TextError>(e),
            outcome is Help ==> asks_help(content@) && new_task(
                content@,
                now.date@,
                now@,
                offset@,
            ) is Err,
    {
        if from_bot || in_guild {
            return MessageOutcome::Ignored;
        }
        if self.cancel_for(author) {
            return MessageOutcome::Stopped;
        }
        match parse_text(content, now, offset) {
            Ok(task) => MessageOutcome::Create(task),
            Err(e) => {
                if needs_help(content) {
                    MessageOutcome::Help
                } else {
                    MessageOutcome::Rejected(e)
                }
            },
        }
    }
}

/// Why a message is no new task.
#[derive(Clone, Copy, Debug, PartialEq, Eq, Structural)]
pub enum TextError {
    /// The message is empty.
    NoTitle,
    /// The message has a single line, so none for the time.
    NoTimes,
    /// The last line is no time specification.
    Time(ParseError),
}

/// What a message asks for, over the timeline: the model of
/// `TaskCreateInfo`.
pub struct NewTask {
    pub title: Seq<char>,
    pub info: Seq<char>,
    pub time: TimeSpec,
}

/// The task that the message `content` describes: its first line is the
/// title, its last line the time specification, and the lines between them
/// the text of the reminder.
pub open spec fn new_task(content: Seq<char>, now_day: int, now: int, offset: int) -> Result<
    NewTask,
    TextError,
> {
    let lines = split_lines(content);
    if lines.len() == 0 {
        Err(TextError::NoTitle)
    } else if lines.len() == 1 {
        Err(TextError::NoTimes)
    } else {
        match time_spec(lines.last(), now_day, now, offset) {
            Err(e) => Err(TextError::Time(e)),
            Ok(time) => Ok(
                NewTask {
                    title: lines[0],
                    info: join_lines(lines.subrange(1, lines.len() - 1)),
                    time,
                },
            ),
        }
    }
}

impl View for TaskCreateInfo {
    type V = NewTask;

    open spec fn view(&self) -> NewTask {
        NewTask {
            title: self.title@,
            info: self.info@,
            time: TimeSpec {
                remind_time: self.remind_at@,
                days_of_week: self.on_days,
                repeat_weekly: self.repeat_weekly,
                date: match self.date {
                    Some(date) => Some(date@),
                    None => None,
                },
            },
        }
    }
}

/// Reads a message as a new task, at the instant `now`, from someone whose
/// clock is `offset` ahead of UTC.
pub fn parse_text(content: &str, now: &DateTime, offset: &UtcOffset) -> (r: Result<
    TaskCreateInfo,
    TextError,
>)
    ensures
        r matches Ok(task) ==> new_task(content@, now.date@, now@, offset@) == Ok::<
            NewTask,
            TextError,
        >(task@),
        r matches Err(e) ==> new_task(content@, now.date@, now@, offset@) == Err::<
            NewTask,
            TextError,
        >(e),
{
    let chars = chars_of(content);
    let lines = line_ranges(&chars);
    let ghost all = split_lines(content@);
    let count = lines.len();
    if count == 0 {
        return Err(TextError::NoTitle);
    }
    if count == 1 {
        return Err(TextError::NoTimes);
    }
    let last = content.substring_char(lines[count - 1].0, lines[count - 1].1);
    let time_info = match TaskTimeInfo::parse(last, now, offset) {
        Ok(time_info) => time_info,
        Err(e) => { return Err(TextError::Time(e)); },
    };
    let title = content.substring_char(lines[0].0, lines[0].1).to_owned();
    let mut info = String::new();
    let mut i: usize = 1;
    let ghost middle = all.subrange(1, count - 1);
    proof {
        reveal_strlit("\n");
        assert("\n"@ == seq!['\n']);
        assert(middle.take(0) == Seq::<Seq<char>>::empty());
    }
    while i < count - 1
        invariant
            1 <= i <= count - 1,
            count == lines@.len(),
            chars@ == content@,
            all == split_lines(content@),
            all.len() == count,
            middle == all.subrange(1, count - 1),
            "\n"@ == seq!['\n'],
            forall|k: int|
                0 <= k < lines@.len() ==> (#[trigger] lines@[k]).0 <= lines@[k].1 <= chars@.len()
                    && chars@.subrange(lines@[k].0 as int, lines@[k].1 as int) == all[k],
            info@ == join_lines(middle.take(i - 1)),
        decreases count - 1 - i,
    {
        let ghost before = middle.take(i - 1);
        let ghost after = middle.take(i as int);
        proof {
            assert(after.drop_last() == before);
            assert(after.last() == all[i as int]);
        }
        if i > 1 {
            info.append("\n");
        }
        info.append(content.substring_char(lines[i].0, lines[i].1));
        proof {
            if i == 1 {
                assert(before.len() == 0);
                assert(info@ == all[1]);
            }
        }
        i += 1;
    }
    assert(middle.take(count - 2) == middle);
    Ok(
        TaskCreateInfo {
            title,
            info,
            remind_at: time_info.remind_time,
            date: time_info.date,
            on_days: time_info.days_of_week,
            repeat_weekly: time_info.repeat_weekly,
        },
    )
}

/// What is to be done about a message.
pub enum MessageOutcome {
    /// Nothing: the message is a bot's, or was not sent in private.
    Ignored,
    /// The sender's ping loop was active and has been stopped: acknowledge.
    Stopped,
    /// The message is no task and asks for help: send the help text.
    Help,
    /// The message is no task: tell the sender why.
    Rejected(TextError),
    /// Store the new task, then file a job for it.
    Create(TaskCreateInfo),
}

/// Whether a message asks for help: it holds `help`, in small or capital
/// letters.
pub open spec fn asks_help(content: Seq<char>) -> bool {
    has_word(content, seq!['h', 'e', 'l', 'p'], seq!['H', 'E', 'L', 'P'])
}

pub fn needs_help(content: &str) -> (b: bool)
    ensures
        b == asks_help(content@),
{
    let s = chars_of(content);
    let lower: Vec<char> = vec!['h', 'e', 'l', 'p'];
    let upper: Vec<char> = vec!['H', 'E', 'L', 'P'];
    assert(lower@ == seq!['h', 'e', 'l', 'p']);
    assert(upper@ == seq!['H', 'E', 'L', 'P']);
    assert(s@.subrange(0, s@.len() as int) == s@);
    contains_word(&s, 0, s.len(), &lower, &upper)
}

} // verus!
