//! Progress snapshots of a harvest cycle and the record of its end.
use vstd::prelude::*;

use crate::eta::{estimate_of, Eta};
use crate::task::Task;

verus! {

/// A progress snapshot is reported after every this many players.
pub const INTERVAL: usize = 100;

/// A moment in UTC: Unix seconds and the calendar fields.
#[derive(Clone, Copy, Debug)]
pub struct UtcDateTime {
    pub unix: i64,
    pub year: i32,
    pub month: u8,
    pub day: u8,
    pub hour: u8,
    pub minute: u8,
    pub second: u8,
}

impl UtcDateTime {
    /// The calendar fields lie in their ranges.
    pub open spec fn wf(&self) -> bool {
        &&& -999_999 <= self.year <= 999_999
        &&& 1 <= self.month <= 12
        &&& 1 <= self.day <= 31
        &&& self.hour < 24
        &&& self.minute < 60
        &&& self.second < 60
    }
}

/// Relies on `time::OffsetDateTime::now_utc` and the calendar accessors of the
/// value it returns: years lie within ±999,999 (±9,999 without the crate's
/// `large-dates` feature), months in 1..=12, days in 1..=31, hours below 24,
/// minutes and seconds below 60.
#[verifier::external_body]
fn now_utc() -> (r: UtcDateTime)
    ensures
        r.wf(),
{
    let now = time::OffsetDateTime::now_utc();
    UtcDateTime {
        unix: now.unix_timestamp(),
        year: now.year(),
        month: now.month() as u8,
        day: now.day(),
        hour: now.hour(),
        minute: now.minute(),
        second: now.second(),
    }
}

/// The id of a snapshot series: the start's calendar fields as digits.
pub open spec fn progress_id(t: UtcDateTime) -> int {
    t.year * 1_000_000_000_000 + t.month * 100_000_000 + t.day * 1_000_000 + t.hour * 10_000
        + t.minute * 100 + t.second
}

/// Where a cycle stands: how many of how many players are done, and the
/// estimated seconds left.
pub struct Progress {
    pub id: i64,
    pub start: i64,
    pub current: usize,
    pub total: usize,
    pub eta_seconds: Option<u64>,
    pub task: Task,
}

/// The record of a finished cycle.
#[derive(Clone, Copy, Debug)]
pub struct Finish {
    pub requested_users: usize,
    pub task: Task,
}

impl Progress {
    /// A snapshot series that starts now, with nothing done yet; its id and
    /// start come from the current UTC time.
    pub fn new(total: usize, task: Task) -> (r: Progress)
        ensures
            exists|t: UtcDateTime| t.wf() && r.id == progress_id(t) && r.start == t.unix,
            r.total == total,
            r.task == task,
            r.current == 0,
            r.eta_seconds is None,
    {
        Progress::started_at(total, task, now_utc())
    }

    /// A snapshot series that started at `start`, with nothing done yet.
    pub fn started_at(total: usize, task: Task, start: UtcDateTime) -> (r: Progress)
        requires
            start.wf(),
        ensures
            r.id == progress_id(start),
            r.start == start.unix,
            r.total == total,
            r.task == task,
            r.current == 0,
            r.eta_seconds is None,
    {
        let mut id: i64 = start.year as i64;
        id = id * 10_000 + start.month as i64;
        id = id * 100 + start.day as i64;
        id = id * 100 + start.hour as i64;
        id = id * 100 + start.minute as i64;
        id = id * 100 + start.second as i64;
        Progress { id, start: start.unix, task, total, current: 0, eta_seconds: None }
    }

    /// Records that `current` players are done, with the time left as `eta`
    /// estimates it for the rest.
    pub fn update(&mut self, current: usize, eta: &Eta)
        requires
            current <= old(self).total,
            eta.wf(),
        ensures
            final(self).current == current,
            final(self).eta_seconds == match estimate_of(
                eta.samples(),
                (old(self).total - current) as nat,
            ) {
                Some(ms) => Some(ms / 1000),
                None => None,
            },
            final(self).id == old(self).id,
            final(self).start == old(self).start,
            final(self).total == old(self).total,
            final(self).task == old(self).task,
    {
        self.current = current;
        let remaining = eta.estimate(self.total - current);
        self.eta_seconds = remaining.as_seconds();
    }

    /// Records that every player is done.
    pub fn finish(&mut self)
        ensures
            final(self).current == old(self).total,
            final(self).eta_seconds == Some(0u64),
            final(self).id == old(self).id,
            final(self).start == old(self).start,
            final(self).total == old(self).total,
            final(self).task == old(self).task,
    {
        self.current = self.total;
        self.eta_seconds = Some(0);
    }
}

impl Finish {
    pub fn new(task: Task, requested_users: usize) -> (r: Finish)
        ensures
            r.task == task,
            r.requested_users == requested_users,
    {
        Finish { task, requested_users }
    }

    /// The end record of a snapshot series: its total and its task.
    pub fn from_progress(progress: &Progress) -> (r: Finish)
        ensures
            r.requested_users == progress.total,
            r.task == progress.task,
    {
        Finish { requested_users: progress.total, task: progress.task }
    }
}

} // verus!
