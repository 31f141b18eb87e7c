//! Job lifecycle states and the per-job report record.

use vstd::prelude::*;

verus! {

/// Lifecycle state of a job.  `Queued` and `Running` are the only
/// non-terminal states; there is no transition out of `Completed` or
/// `Failed`.
#[derive(Clone, Copy, Debug, PartialEq, Eq, Structural)]
pub enum JobStatus {
    Queued,
    Running,
    Completed,
    Failed,
}

impl JobStatus {
    /// A terminal status never changes again.
    pub open spec fn is_terminal(self) -> bool {
        self == JobStatus::Completed || self == JobStatus::Failed
    }
}

/// Durable-for-process-lifetime record of one queued job: its identity,
/// progress counters, last known message and timing.  Owned and mutated
/// only by the coordinator; snapshots of it are handed out on request.
#[derive(Debug)]
pub struct JobReport {
    /// Unique identifier assigned when the job was queued.
    pub runner_id: String,
    /// The job's self-reported name, for display.
    pub name: String,
    pub status: JobStatus,
    /// Index of the last finished task; never exceeds `task_count`.
    pub current_task: u64,
    /// Total number of discrete tasks, fixed when the job is queued.
    pub task_count: u64,
    /// Last human-readable status text, if any.
    pub message: Option<String>,
    /// Clock value (supplied by the caller) at queue time.
    pub created_at: u64,
    /// Clock value when a terminal status was reached.
    pub completed_at: Option<u64>,
}

impl JobReport {
    /// Internal consistency of a single report.
    pub open spec fn wf(self) -> bool {
        &&& self.current_task <= self.task_count
        &&& self.status == JobStatus::Queued ==> self.current_task == 0 && self.message is None
        &&& self.status == JobStatus::Completed ==> self.current_task == self.task_count
        &&& self.status.is_terminal() <==> self.completed_at is Some
    }

    /// An exact copy, for read-only snapshots of the coordinator's state.
    pub fn duplicate(&self) -> (r: JobReport)
        ensures
            r == *self,
    {
        let message = match &self.message {
            Some(m) => Some(m.clone()),
            None => None,
        };
        let completed_at = match self.completed_at {
            Some(t) => Some(t),
            None => None,
        };
        let r = JobReport {
            runner_id: self.runner_id.clone(),
            name: self.name.clone(),
            status: self.status,
            current_task: self.current_task,
            task_count: self.task_count,
            message,
            created_at: self.created_at,
            completed_at,
        };
        assert(r.message == self.message);
        assert(r.completed_at == self.completed_at);
        r
    }
}

} // verus!
