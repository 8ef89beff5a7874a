//! The job table: the jobs of a daemon and when each is due next.

use crate::crontab::{entry, is_comment, joined, split_line, words};
use crate::schedule::{compute_next, next_due, Next, ScheduleError};
use crate::time::Timestamp;
use vstd::prelude::*;

verus! {

/// A job: a command and the schedule it runs on.
#[derive(Debug)]
pub struct Task {
    /// The five fields of the schedule expression, single spaces between them.
    pub schedule: String,
    /// The command that the shell is given.
    pub program: String,
    /// When the job is due next.
    pub next_iter: Timestamp,
}

/// A job as the contracts see it: texts as sequences of characters, the due
/// time in nanoseconds since the Unix epoch.
pub struct TaskView {
    pub schedule: Seq<char>,
    pub program: Seq<char>,
    pub next_iter: int,
}

impl View for Task {
    type V = TaskView;

    open spec fn view(&self) -> TaskView {
        TaskView { schedule: self.schedule@, program: self.program@, next_iter: self.next_iter@ }
    }
}

impl DeepView for Task {
    type V = TaskView;

    open spec fn deep_view(&self) -> TaskView {
        self@
    }
}

/// Whether a job with this view is due at `now`: its time has come or passed.
pub open spec fn is_due(task: TaskView, now: int) -> bool {
    task.next_iter <= now
}

/// Whether the due time of `task` is an occurrence of its schedule: the next
/// one after some instant.
pub open spec fn on_schedule(task: TaskView) -> bool {
    exists|reference: int| #[trigger] next_due(task.schedule, reference) == Next::At(task.next_iter)
}

/// The job that `line` describes to a loader that reads it at `now`: the
/// entry of the line with the next occurrence of its schedule after `now`.
/// `None` where the line holds no entry or its schedule has no next
/// occurrence.
pub open spec fn line_task(line: Seq<char>, now: int) -> Option<TaskView> {
    match entry(line) {
        Some((schedule, program)) => match next_due(schedule, now) {
            Next::At(next_iter) => Some(TaskView { schedule, program, next_iter }),
            _ => None,
        },
        None => None,
    }
}

/// The table that `lines` describe at `now`: the jobs of the lines that
/// describe one, in the order of the lines.
pub open spec fn loaded(lines: Seq<Seq<char>>, now: int) -> Seq<TaskView>
    decreases lines.len(),
{
    if lines.len() == 0 {
        Seq::empty()
    } else {
        match line_task(lines.last(), now) {
            Some(task) => loaded(lines.drop_last(), now).push(task),
            None => loaded(lines.drop_last(), now),
        }
    }
}

/// Whether a job with this view stops a dispatch at `now`: it is due, and
/// its schedule has no next occurrence after `now`.
pub open spec fn is_stuck(task: TaskView, now: int) -> bool {
    is_due(task, now) && !(next_due(task.schedule, now) is At)
}

/// How many jobs at the head of `tasks` a dispatch at `now` gets past: the
/// position of the first stuck job, or the length of the table.
pub open spec fn first_stuck(tasks: Seq<TaskView>, now: int) -> int
    decreases tasks.len(),
{
    if tasks.len() == 0 || is_stuck(tasks.first(), now) {
        0
    } else {
        1 + first_stuck(tasks.drop_first(), now)
    }
}

/// The job after it fired at `now`: due at the next occurrence of its
/// schedule after `now`. A job that is not due stays as it is, and so does a
/// stuck one.
pub open spec fn fired(task: TaskView, now: int) -> TaskView {
    match next_due(task.schedule, now) {
        Next::At(next_iter) if is_due(task, now) => TaskView { next_iter, ..task },
        _ => task,
    }
}

/// The table after a dispatch at `now`: every job before the first stuck one
/// has fired, the others are untouched.
pub open spec fn dispatched(tasks: Seq<TaskView>, now: int) -> Seq<TaskView> {
    Seq::new(
        tasks.len(),
        |i: int|
            if i < first_stuck(tasks, now) {
                fired(tasks[i], now)
            } else {
                tasks[i]
            },
    )
}

/// The commands of the jobs of `tasks` that are due at `now`, in the order of
/// the table.
pub open spec fn due_programs(tasks: Seq<TaskView>, now: int) -> Seq<Seq<char>>
    decreases tasks.len(),
{
    if tasks.len() == 0 {
        Seq::empty()
    } else if is_due(tasks.last(), now) {
        due_programs(tasks.drop_last(), now).push(tasks.last().program)
    } else {
        due_programs(tasks.drop_last(), now)
    }
}

/// The commands that a dispatch at `now` launches: those of the due jobs up
/// to the first stuck one, which is launched too.
pub open spec fn launched(tasks: Seq<TaskView>, now: int) -> Seq<Seq<char>> {
    if first_stuck(tasks, now) < tasks.len() {
        due_programs(tasks.take(first_stuck(tasks, now) + 1), now)
    } else {
        due_programs(tasks, now)
    }
}

/// A job that was due and could not be given a new due time.
#[derive(Debug)]
pub struct Failure {
    /// Where the job stands in the table.
    pub index: usize,
    /// Why its schedule gave no next occurrence.
    pub error: ScheduleError,
}

/// What a dispatch hands to its caller.
#[derive(Debug)]
pub struct Dispatch {
    /// The commands to launch, in the order of the table.
    pub commands: Vec<String>,
    /// The job at which the dispatch had to stop, if there is one.
    pub failed: Option<Failure>,
}

impl Dispatch {
    /// Whether `self` is what a dispatch of `tasks` at `now` hands out: the
    /// commands it launches, and the first stuck job if there is one.
    pub open spec fn is_outcome(&self, tasks: Seq<TaskView>, now: int) -> bool {
        &&& self.commands.deep_view() == launched(tasks, now)
        &&& self.failed is Some <==> first_stuck(tasks, now) < tasks.len()
        &&& self.failed matches Some(f) ==> f.index == first_stuck(tasks, now)
    }
}

/// Whether `instant` is the earliest due time in `tasks`.
pub open spec fn is_earliest(tasks: Seq<TaskView>, instant: int) -> bool {
    &&& exists|i: int| 0 <= i < tasks.len() && (#[trigger] tasks[i]).next_iter == instant
    &&& forall|i: int| 0 <= i < tasks.len() ==> instant <= (#[trigger] tasks[i]).next_iter
}

/// A text without a job loads as the empty table: one in which every line is
/// a comment, has fewer than five words (a blank line has none), or has a
/// schedule without a next occurrence after `now`.
pub proof fn lemma_loaded_empty(lines: Seq<Seq<char>>, now: int)
    requires
        forall|i: int|
            0 <= i < lines.len() ==> {
                ||| is_comment(#[trigger] lines[i])
                ||| words(lines[i]).len() < 5
                ||| !(next_due(joined(words(lines[i]).take(5)), now) is At)
            },
    ensures
        loaded(lines, now) == Seq::<TaskView>::empty(),
    decreases lines.len(),
{
    if lines.len() > 0 {
        let rest = lines.drop_last();
        assert forall|i: int| 0 <= i < rest.len() implies {
            ||| is_comment(#[trigger] rest[i])
            ||| words(rest[i]).len() < 5
            ||| !(next_due(joined(words(rest[i]).take(5)), now) is At)
        } by {
            assert(rest[i] == lines[i]);
        }
        lemma_loaded_empty(rest, now);
        assert(line_task(lines.last(), now) is None);
    }
}

/// `first_stuck` is `k` where no job before `k` is stuck and `k` is the end
/// of the table or a stuck job.
pub proof fn lemma_first_stuck(tasks: Seq<TaskView>, now: int, k: int)
    requires
        0 <= k <= tasks.len(),
        forall|j: int| 0 <= j < k ==> !is_stuck(#[trigger] tasks[j], now),
        k < tasks.len() ==> is_stuck(tasks[k], now),
    ensures
        first_stuck(tasks, now) == k,
    decreases k,
{
    if k > 0 {
        assert(!is_stuck(tasks[0], now));
        let rest = tasks.drop_first();
        assert forall|j: int| 0 <= j < k - 1 implies !is_stuck(#[trigger] rest[j], now) by {
            assert(rest[j] == tasks[j + 1]);
        }
        lemma_first_stuck(rest, now, k - 1);
    }
}

/// A dispatch leaves a job alone that is not due.
pub proof fn lemma_dispatch_spares_waiting(tasks: Seq<TaskView>, now: int, i: int)
    requires
        0 <= i < tasks.len(),
        !is_due(tasks[i], now),
    ensures
        dispatched(tasks, now)[i] == tasks[i],
{
}

/// The command of each due job is among the due commands.
pub proof fn lemma_due_programs_hold(tasks: Seq<TaskView>, now: int, i: int)
    requires
        0 <= i < tasks.len(),
        is_due(tasks[i], now),
    ensures
        due_programs(tasks, now).contains(tasks[i].program),
    decreases tasks.len(),
{
    let before = due_programs(tasks.drop_last(), now);
    if i == tasks.len() - 1 {
        assert(before.push(tasks[i].program).last() == tasks[i].program);
    } else {
        lemma_due_programs_hold(tasks.drop_last(), now, i);
        let k = choose|k: int| 0 <= k < before.len() && before[k] == tasks[i].program;
        assert(due_programs(tasks, now)[k] == tasks[i].program);
    }
}

/// A dispatch launches the command of every due job up to the first stuck
/// one, whatever the other jobs are and whatever becomes of their commands.
pub proof fn lemma_due_jobs_are_launched(tasks: Seq<TaskView>, now: int, i: int)
    requires
        0 <= i < tasks.len(),
        i <= first_stuck(tasks, now),
        is_due(tasks[i], now),
    ensures
        launched(tasks, now).contains(tasks[i].program),
{
    if first_stuck(tasks, now) < tasks.len() {
        let reached = tasks.take(first_stuck(tasks, now) + 1);
        assert(reached[i] == tasks[i]);
        lemma_due_programs_hold(reached, now, i);
    } else {
        lemma_due_programs_hold(tasks, now, i);
    }
}

impl Task {
    /// The job as a line of a table: the schedule, a space, the command.
    pub fn to_string(&self) -> (line: String)
        ensures
            line@ == self@.schedule + seq![' '] + self@.program,
    {
        let mut line = self.schedule.clone();
        line.push(' ');
        line.append(self.program.as_str());
        line
    }

    /// Whether the job is due at `now`.
    pub fn is_due(&self, now: &Timestamp) -> (r: bool)
        ensures
            r == is_due(self@, now@),
    {
        self.next_iter.le(now)
    }
}

/// Reads one line of a table at `now`. A comment, a line of fewer than five
/// words and a line whose schedule has no next occurrence give no job.
pub fn parse_line(line: &str, now: Timestamp) -> (r: Option<Task>)
    ensures
        r is Some <==> line_task(line@, now@) is Some,
        r matches Some(task) ==> line_task(line@, now@) == Some(task@),
        r matches Some(task) ==> task@.next_iter > now@ && on_schedule(task@),
{
    match split_line(line) {
        Some((schedule, program)) => match compute_next(schedule.as_str(), now) {
            Ok(next_iter) => Some(Task { schedule, program, next_iter }),
            Err(_) => None,
        },
        None => None,
    }
}

/// Builds the job table from the lines of its text, read at `now`. Lines
/// that describe no job are passed over.
pub fn read_crontab(lines: &Vec<String>, now: Timestamp) -> (tasks: Vec<Task>)
    ensures
        tasks.deep_view() == loaded(lines.deep_view(), now@),
        forall|i: int|
            0 <= i < tasks.len() ==> (#[trigger] tasks[i])@.next_iter > now@ && on_schedule(
                tasks[i]@,
            ),
{
    let mut tasks: Vec<Task> = Vec::new();
    let mut i: usize = 0;
    while i < lines.len()
        invariant
            i <= lines.len(),
            tasks.deep_view() == loaded(lines.deep_view().take(i as int), now@),
            forall|k: int|
                0 <= k < tasks.len() ==> (#[trigger] tasks[k])@.next_iter > now@ && on_schedule(
                    tasks[k]@,
                ),
        decreases lines.len() - i,
    {
        let ghost read = lines.deep_view().take(i + 1);
        let ghost table = tasks.deep_view();
        assert(read.drop_last() == lines.deep_view().take(i as int));
        assert(read.last() == lines[i as int]@);
        if let Some(task) = parse_line(lines[i].as_str(), now) {
            tasks.push(task);
            assert(tasks.deep_view() == table.push(task@));
        }
        i += 1;
    }
    assert(lines.deep_view().take(lines.len() as int) == lines.deep_view());
    tasks
}

/// The earliest due time in the table.
pub fn get_earliest_task(tasks: &Vec<Task>) -> (earliest: Timestamp)
    requires
        tasks.len() > 0,
    ensures
        is_earliest(tasks.deep_view(), earliest@),
        exists|i: int| 0 <= i < tasks.len() && (#[trigger] tasks[i]).next_iter == earliest,
{
    let mut earliest = tasks[0].next_iter;
    let mut i: usize = 1;
    while i < tasks.len()
        invariant
            1 <= i <= tasks.len(),
            exists|k: int| 0 <= k < i && (#[trigger] tasks[k]).next_iter == earliest,
            forall|k: int| 0 <= k < i ==> earliest@ <= (#[trigger] tasks[k])@.next_iter,
        decreases tasks.len() - i,
    {
        if tasks[i].next_iter.lt(&earliest) {
            earliest = tasks[i].next_iter;
        }
        i += 1;
    }
    proof {
        let k = choose|k: int| 0 <= k < tasks.len() && (#[trigger] tasks[k]).next_iter == earliest;
        assert(tasks.deep_view()[k].next_iter == earliest@);
    }
    earliest
}

/// Fires the jobs that are due at `now`, in the order of the table: each
/// hands out its command and moves to the next occurrence of its schedule
/// after `now`. A due job whose schedule has no next occurrence stops the
/// dispatch: its command is still handed out, it keeps its due time, and the
/// jobs after it are left as they were.
pub fn dispatch_due(tasks: &mut Vec<Task>, now: Timestamp) -> (d: Dispatch)
    ensures
        final(tasks).len() == old(tasks).len(),
        final(tasks).deep_view() == dispatched(old(tasks).deep_view(), now@),
        d.is_outcome(old(tasks).deep_view(), now@),
        d.failed is None ==> forall|i: int|
            0 <= i < final(tasks).len() ==> (#[trigger] final(tasks)[i])@.next_iter > now@,
        forall|i: int|
            0 <= i < old(tasks).len() && on_schedule(old(tasks)[i]@) ==> on_schedule(
                (#[trigger] final(tasks)[i])@,
            ),
{
    let ghost before = tasks.deep_view();
    let mut commands: Vec<String> = Vec::new();
    let mut i: usize = 0;
    while i < tasks.len()
        invariant
            i <= tasks.len(),
            tasks.len() == before.len(),
            before == old(tasks).deep_view(),
            forall|k: int| 0 <= k < i ==> !is_stuck(#[trigger] before[k], now@),
            forall|k: int| 0 <= k < i ==> (#[trigger] tasks[k])@ == fired(before[k], now@),
            forall|k: int| i <= k < tasks.len() ==> (#[trigger] tasks[k])@ == before[k],
            forall|k: int| 0 <= k < i ==> (#[trigger] tasks[k])@.next_iter > now@,
            forall|k: int|
                0 <= k < tasks.len() && on_schedule(before[k]) ==> on_schedule(
                    (#[trigger] tasks[k])@,
                ),
            commands.deep_view() == due_programs(before.take(i as int), now@),
        decreases tasks.len() - i,
    {
        let ghost seen = before.take(i + 1);
        let ghost handed = commands.deep_view();
        assert(seen.drop_last() == before.take(i as int));
        assert(seen.last() == before[i as int]);
        assert(tasks[i as int]@ == before[i as int]);
        if tasks[i].is_due(&now) {
            let command = tasks[i].program.clone();
            commands.push(command);
            assert(commands.deep_view() == handed.push(before[i as int].program));
            match compute_next(tasks[i].schedule.as_str(), now) {
                Ok(next) => {
                    tasks[i].next_iter = next;
                },
                Err(error) => {
                    proof {
                        lemma_first_stuck(before, now@, i as int);
                        assert(tasks.deep_view() == dispatched(before, now@));
                    }
                    return Dispatch { commands, failed: Some(Failure { index: i, error }) };
                },
            }
        }
        i += 1;
    }
    proof {
        lemma_first_stuck(before, now@, before.len() as int);
        assert(before.take(before.len() as int) == before);
        assert(tasks.deep_view() == dispatched(before, now@));
    }
    Dispatch { commands, failed: None }
}

} // verus!
