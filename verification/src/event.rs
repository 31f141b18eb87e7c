//! Requests into the coordinator, its direct responses, and the
//! notifications it publishes on the event bus.

use vstd::prelude::*;

use crate::job::Job;
use crate::report::JobReport;
use crate::report::JobStatus;

verus! {

/// A command sent into the coordinator's mailbox.
///
/// `QueueJob` is fire-and-forget: admission always succeeds and no direct
/// answer comes back.  `GetJobReports` is a query; the coordinator answers
/// it with a [`ClientResponse`], which the caller's reply channel (owned
/// by the surrounding program, not by this library) carries back.
pub enum ClientRequest {
    QueueJob(Job),
    GetJobReports,
}

/// A direct answer to a query-style [`ClientRequest`].
pub enum ClientResponse {
    GetJobReports(Vec<JobReport>),
}

/// Snapshot of one job's progress, carried by `JobStarted` and
/// `JobProgress` events.
#[derive(Debug)]
pub struct JobUpdate {
    pub runner_id: String,
    pub current_task: u64,
    pub task_count: u64,
    pub message: Option<String>,
    pub status: Option<JobStatus>,
}

/// Terminal failure notice: the runner it concerns and a human-readable
/// reason, as named fields rather than a bare pair.
#[derive(Debug)]
pub struct JobFailure {
    pub runner_id: String,
    pub message: String,
}

/// One observable lifecycle transition, delivered to every subscriber
/// registered at the moment of publication.  Ephemeral: at most once per
/// subscriber, no replay for late subscribers.
#[derive(Debug)]
pub enum ClientEvent {
    JobStarted(JobUpdate),
    JobProgress(JobUpdate),
    JobComplete(String),
    JobFailed(JobFailure),
    /// Domain notification, unrelated to jobs but delivered on the same
    /// bus: a media entity was created, named by the payload.
    CreatedMedia(String),
    /// Domain notification: a series entity was created.
    CreatedSeries(String),
}

impl JobUpdate {
    /// An exact copy.
    pub fn duplicate(&self) -> (r: JobUpdate)
        ensures
            r == *self,
    {
        let message = match &self.message {
            Some(m) => Some(m.clone()),
            None => None,
        };
        let r = JobUpdate {
            runner_id: self.runner_id.clone(),
            current_task: self.current_task,
            task_count: self.task_count,
            message,
            status: self.status,
        };
        assert(r.message == self.message);
        r
    }
}

impl ClientEvent {
    /// The `JobStarted` notification for a job entering `Running`.
    pub fn job_started(
        runner_id: String,
        current_task: u64,
        task_count: u64,
        message: Option<String>,
    ) -> (e: Self)
        ensures
            (e == ClientEvent::JobStarted(
                JobUpdate {
                    runner_id,
                    current_task,
                    task_count,
                    message,
                    status: Some(JobStatus::Running),
                },
            )),
    {
        ClientEvent::JobStarted(
            JobUpdate { runner_id, current_task, task_count, message, status: Some(
                JobStatus::Running,
            ) },
        )
    }

    /// The `JobProgress` notification for a running job's latest snapshot.
    pub fn job_progress(
        runner_id: String,
        current_task: u64,
        task_count: u64,
        message: Option<String>,
    ) -> (e: Self)
        ensures
            (e == ClientEvent::JobProgress(
                JobUpdate {
                    runner_id,
                    current_task,
                    task_count,
                    message,
                    status: Some(JobStatus::Running),
                },
            )),
    {
        ClientEvent::JobProgress(
            JobUpdate { runner_id, current_task, task_count, message, status: Some(
                JobStatus::Running,
            ) },
        )
    }

    /// An exact copy, used when fanning one publication out to several
    /// subscriber buffers.
    pub fn duplicate(&self) -> (r: ClientEvent)
        ensures
            r == *self,
    {
        match self {
            ClientEvent::JobStarted(u) => ClientEvent::JobStarted(u.duplicate()),
            ClientEvent::JobProgress(u) => ClientEvent::JobProgress(u.duplicate()),
            ClientEvent::JobComplete(id) => ClientEvent::JobComplete(id.clone()),
            ClientEvent::JobFailed(f) => ClientEvent::JobFailed(
                JobFailure { runner_id: f.runner_id.clone(), message: f.message.clone() },
            ),
            ClientEvent::CreatedMedia(n) => ClientEvent::CreatedMedia(n.clone()),
            ClientEvent::CreatedSeries(n) => ClientEvent::CreatedSeries(n.clone()),
        }
    }
}

/// The optional texts agree as values.
pub open spec fn option_string_eq(a: Option<String>, b: Option<String>) -> bool {
    match (a, b) {
        (Some(x), Some(y)) => x@ == y@,
        (None, None) => true,
        _ => false,
    }
}

/// The update snapshot shows exactly what the report holds.
pub open spec fn update_reflects_report(u: JobUpdate, r: JobReport) -> bool {
    &&& u.runner_id@ == r.runner_id@
    &&& u.current_task == r.current_task
    &&& u.task_count == r.task_count
    &&& option_string_eq(u.message, r.message)
    &&& u.status == Some(r.status)
}

/// `e` is the `JobStarted` event carrying `r`'s current snapshot.
pub open spec fn is_started_event_for(e: ClientEvent, r: JobReport) -> bool {
    match e {
        ClientEvent::JobStarted(u) => update_reflects_report(u, r),
        _ => false,
    }
}

/// `e` is a `JobProgress` event carrying `r`'s current snapshot.
pub open spec fn is_progress_event_for(e: ClientEvent, r: JobReport) -> bool {
    match e {
        ClientEvent::JobProgress(u) => update_reflects_report(u, r),
        _ => false,
    }
}

/// `e` is the `JobComplete` event of `r`'s runner.
pub open spec fn is_complete_event_for(e: ClientEvent, r: JobReport) -> bool {
    match e {
        ClientEvent::JobComplete(id) => id@ == r.runner_id@,
        _ => false,
    }
}

/// `e` is the `JobFailed` event of `r`'s runner, carrying `msg`.
pub open spec fn is_failed_event_for(e: ClientEvent, r: JobReport, msg: Seq<char>) -> bool {
    match e {
        ClientEvent::JobFailed(f) => f.runner_id@ == r.runner_id@ && f.message@ == msg,
        _ => false,
    }
}

} // verus!
