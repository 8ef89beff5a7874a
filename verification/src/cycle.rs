//! The cycle of the daemon: wait for the earliest job, then dispatch what is
//! due, and again.

use crate::table::{
    dispatch_due, dispatched, get_earliest_task, is_due, is_earliest, Dispatch, Task, TaskView,
};
use crate::time::{Timestamp, Wait};
use vstd::prelude::*;

verus! {

/// Where the cycle stands.
#[derive(Clone, Copy, Debug, PartialEq, Eq, Structural)]
pub enum Phase {
    /// Before the wait for the earliest job.
    Waiting,
    /// After the wait, before the due jobs fire.
    Dispatching,
}

/// What the caller of a step has to do before the next step.
#[derive(Debug)]
pub enum Action {
    /// No job is due yet: block for this long.
    Sleep(Wait),
    /// A job is due already: go on without blocking.
    Proceed,
    /// Launch the commands, each on its own and without waiting for it; then
    /// give up if the dispatch names a failed job.
    Launch(Dispatch),
}

/// A job table that is not empty, and the phase of the cycle that runs it.
pub struct Scheduler {
    tasks: Vec<Task>,
    phase: Phase,
}

impl Scheduler {
    /// Whether the table holds a job, as that of every scheduler does.
    pub closed spec fn wf(&self) -> bool {
        self.tasks.len() > 0
    }

    /// The jobs of the table.
    pub closed spec fn table(&self) -> Seq<TaskView> {
        self.tasks.deep_view()
    }

    /// The phase the next step starts in.
    pub closed spec fn state(&self) -> Phase {
        self.phase
    }

    /// A scheduler for `tasks`, about to wait. An empty table has nothing to
    /// schedule and gets none.
    pub fn new(tasks: Vec<Task>) -> (r: Option<Scheduler>)
        ensures
            r is Some <==> tasks.len() > 0,
            r matches Some(s) ==> s.wf() && s.table() == tasks.deep_view() && s.state()
                == Phase::Waiting,
    {
        if tasks.len() == 0 {
            None
        } else {
            Some(Scheduler { tasks, phase: Phase::Waiting })
        }
    }

    /// The jobs of the table.
    pub fn tasks(&self) -> (tasks: &Vec<Task>)
        ensures
            tasks.deep_view() == self.table(),
            self.wf() ==> tasks.len() > 0,
    {
        &self.tasks
    }

    /// The phase the next step starts in.
    pub fn phase(&self) -> (phase: Phase)
        ensures
            phase == self.state(),
    {
        self.phase
    }

    /// One step of the cycle, taken at `now`.
    ///
    /// A waiting scheduler looks for the earliest due time: where it lies
    /// after `now` the action is to sleep until then, else to proceed; the
    /// table stays as it is. A dispatching scheduler fires the due jobs and
    /// hands out their commands. Each step ends in the other phase.
    pub fn step(&mut self, now: Timestamp) -> (action: Action)
        requires
            old(self).wf(),
        ensures
            final(self).wf(),
            final(self).table().len() == old(self).table().len(),
            old(self).state() == Phase::Waiting ==> {
                &&& final(self).state() == Phase::Dispatching
                &&& final(self).table() == old(self).table()
                &&& match action {
                    Action::Sleep(wait) => wait.wf() && wait@ > 0 && is_earliest(
                        old(self).table(),
                        now@ + wait@,
                    ),
                    Action::Proceed => exists|i: int|
                        0 <= i < old(self).table().len() && is_due(
                            #[trigger] old(self).table()[i],
                            now@,
                        ),
                    Action::Launch(_) => false,
                }
            },
            old(self).state() == Phase::Dispatching ==> {
                &&& final(self).state() == Phase::Waiting
                &&& final(self).table() == dispatched(old(self).table(), now@)
                &&& action matches Action::Launch(d) && d.is_outcome(old(self).table(), now@)
            },
    {
        match self.phase {
            Phase::Waiting => {
                let wake = get_earliest_task(&self.tasks);
                self.phase = Phase::Dispatching;
                match wake.until(&now) {
                    Some(wait) => {
                        assert(now@ + wait@ == wake@);
                        Action::Sleep(wait)
                    },
                    None => {
                        proof {
                            let table = self.table();
                            let first = choose|i: int|
                                0 <= i < table.len() && (#[trigger] table[i]).next_iter == wake@;
                            assert(is_due(table[first], now@));
                        }
                        Action::Proceed
                    },
                }
            },
            Phase::Dispatching => {
                let d = dispatch_due(&mut self.tasks, now);
                self.phase = Phase::Waiting;
                Action::Launch(d)
            },
        }
    }
}

} // verus!
