//! The coordinator's view of a unit of background work.

use vstd::prelude::*;

verus! {

/// Description of a unit of background work, as the coordinator sees it:
/// a display name and a fixed number of discrete tasks.  The work itself
/// (directory walks, database writes, and any other I/O) runs outside the
/// coordinator, which only learns of it through progress and terminal
/// signals; this keeps every lifecycle decision in verified code while the
/// job body stays an opaque unit.
///
/// The enqueuing caller hands the description over with `QueueJob` and
/// retains nothing; after the terminal event the job survives only as its
/// `JobReport`.
#[derive(Debug)]
pub struct Job {
    /// Name or kind, suitable for logging and report display.
    pub name: String,
    /// How many discrete tasks the job will report progress over.
    pub task_count: u64,
}

impl Job {
    pub fn new(name: String, task_count: u64) -> (j: Job)
        ensures
            j.name == name,
            j.task_count == task_count,
    {
        Job { name, task_count }
    }
}

} // verus!
