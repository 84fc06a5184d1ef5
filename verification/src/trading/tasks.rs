//! The record of a batch task while it runs.

use crate::models::BatchIncreaseTask;
use crate::num::Double;
use crate::text::same;
use crate::trading::logs::{bump, bumped, error_log, is_error_log};
use vstd::prelude::*;

verus! {

/// Whether a task still holds the desk.
pub open spec fn active(task: BatchIncreaseTask) -> bool {
    task.status@ == "queued"@ || task.status@ == "running"@ || task.status@ == "cancelling"@
}

pub fn is_active(task: &BatchIncreaseTask) -> (b: bool)
    ensures
        b == active(*task),
{
    same(task.status.as_str(), "queued") || same(task.status.as_str(), "running") || same(
        task.status.as_str(),
        "cancelling",
    )
}

/// One more wait, as far as the machine can count.
pub open spec fn one_more(n: u64) -> u64 {
    if n < u64::MAX {
        (n + 1) as u64
    } else {
        n
    }
}

/// The task with nothing but its status and the time of its last change new.
pub open spec fn restated(new: BatchIncreaseTask, old: BatchIncreaseTask, status: Seq<char>, now: i64) -> bool {
    &&& new == (BatchIncreaseTask { status: new.status, updated_at: now, ..old })
    &&& new.status@ == status
}

pub fn set_status(task: &mut BatchIncreaseTask, status: &str, now: i64)
    ensures
        restated(*final(task), *old(task), status@, now),
{
    task.status = status.to_owned();
    task.updated_at = now;
}

/// Begins a task.
pub fn begin_task(task: &mut BatchIncreaseTask, now: i64)
    ensures
        restated(*final(task), *old(task), "running"@, now),
{
    set_status(task, "running", now);
}

/// The task given up with a message, which its log ends with.
pub open spec fn failed(
    new: BatchIncreaseTask,
    old: BatchIncreaseTask,
    batch: usize,
    message: Seq<char>,
    now: i64,
) -> bool {
    &&& new == (BatchIncreaseTask {
        status: new.status,
        error: new.error,
        logs: new.logs,
        updated_at: now,
        ..old
    })
    &&& new.status@ == "failed"@
    &&& new.error is Some
    &&& new.error->0@ == message
    &&& new.logs@.len() == old.logs@.len() + 1
    &&& new.logs@.drop_last() == old.logs@
    &&& is_error_log(
        new.logs@.last(),
        bumped(old.logs@.len() as usize),
        batch,
        old.token@,
        message,
        now,
    )
}

pub fn fail_batch_task(task: &mut BatchIncreaseTask, batch: usize, message: String, now: i64)
    ensures
        failed(*final(task), *old(task), batch, message@, now),
{
    let line = error_log(bump(task.logs.len()), batch, task.token.as_str(), message.as_str(), now);
    let ghost before = task.logs@;
    task.status = "failed".to_owned();
    task.error = Some(message);
    task.logs.push(line);
    task.updated_at = now;
    proof {
        assert(task.logs@.drop_last() =~= before);
    }
}

/// The task after one more wait for a better spread.
pub open spec fn waited(old: BatchIncreaseTask, spread: Option<Double>, now: i64) -> BatchIncreaseTask {
    BatchIncreaseTask {
        spread_wait_count: one_more(old.spread_wait_count),
        current_spread: if spread is Some {
            spread
        } else {
            old.current_spread
        },
        updated_at: now,
        ..old
    }
}

pub fn record_spread_wait(task: &mut BatchIncreaseTask, spread: Option<Double>, now: i64)
    ensures
        *final(task) == waited(*old(task), spread, now),
{
    if task.spread_wait_count < u64::MAX {
        task.spread_wait_count = task.spread_wait_count + 1;
    }
    if spread.is_some() {
        task.current_spread = spread;
    }
    task.updated_at = now;
}

/// Whether the run of a task has to stop: it was cancelled, or it is gone.
pub open spec fn cancelled(task: Option<BatchIncreaseTask>) -> bool {
    match task {
        Some(t) => t.cancel_requested,
        None => true,
    }
}

pub fn batch_cancelled(task: Option<&BatchIncreaseTask>) -> (b: bool)
    ensures
        b == match task {
            Some(t) => t.cancel_requested,
            None => true,
        },
{
    match task {
        Some(t) => t.cancel_requested,
        None => true,
    }
}

} // verus!
