//! A small cron daemon's scheduling core: the job table, the text it is
//! loaded from, and the wake / dispatch / reschedule cycle.

pub mod crontab;
pub mod cycle;
pub mod schedule;
pub mod table;
pub mod time;

pub use crate::cycle::{Action, Phase, Scheduler};
pub use crate::schedule::{compute_next, ScheduleError};
pub use crate::table::{
    dispatch_due, get_earliest_task, parse_line, read_crontab, Dispatch, Failure, Task,
};
pub use crate::time::{Timestamp, Wait};
