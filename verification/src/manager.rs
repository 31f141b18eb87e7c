//! The coordinator: owner of the job queue, the report records and the
//! event bus.
//!
//! All mutation of job-tracking state happens inside this one type, in
//! response to three inputs: a [`ClientRequest`], a progress signal from
//! the running job, or a terminal signal from the running job.  Jobs start
//! in first-in-first-out order, one at a time; a job past the running slot
//! stays `Queued`, and a terminal signal both closes the running job and
//! starts the next one.  Every lifecycle transition is mirrored, in the
//! same call, into the job's report and into exactly one published event,
//! so the two views can never diverge.

use vstd::prelude::*;

use crate::bus::EventBus;
use crate::event::ClientEvent;
use crate::event::ClientRequest;
use crate::event::ClientResponse;
use crate::event::JobFailure;
use crate::event::is_complete_event_for;
use crate::event::is_failed_event_for;
use crate::event::is_progress_event_for;
use crate::event::is_started_event_for;
use crate::job::Job;
use crate::report::JobReport;
use crate::report::JobStatus;
use crate::runner_id::dec_str;
use crate::runner_id::lemma_dec_str_distinct;
use crate::runner_id::u64_to_dec_string;
use crate::trace::complete_p;
use crate::trace::ev_job_id;
use crate::trace::ev_started_for;
use crate::trace::ev_terminal_for;
use crate::trace::failed_p;
use crate::trace::lemma_count_pos;
use crate::trace::lemma_no_events_protocol;
use crate::trace::lemma_report_log_ok_push_other;
use crate::trace::lemma_report_log_ok_push_progress;
use crate::trace::lemma_report_log_ok_push_started;
use crate::trace::lemma_report_log_ok_push_terminal;
use crate::trace::lemma_sat_push_other;
use crate::trace::lemma_sat_vacuous;
use crate::trace::no_events_for;
use crate::trace::report_log_ok;
use crate::trace::started_after_terminal;
use crate::trace::started_p;

verus! {

/// Report `i` of `reports` is internally consistent, carries its
/// positional runner id, and agrees with the published history `log`.
pub open spec fn report_slot_ok(reports: Seq<JobReport>, log: Seq<ClientEvent>, i: int) -> bool {
    let r = reports[i];
    &&& r.wf()
    &&& r.runner_id@ == dec_str(i as nat)
    &&& report_log_ok(log, r)
}

/// Every report agrees with the history.
pub open spec fn reports_ok(reports: Seq<JobReport>, log: Seq<ClientEvent>) -> bool {
    forall|i: int| 0 <= i < reports.len() ==> #[trigger] report_slot_ok(reports, log, i)
}

/// Every job event in the history names one of the first `n` runners.
pub open spec fn ids_in_range_s(n: int, log: Seq<ClientEvent>) -> bool {
    forall|k: int|
        #![trigger log[k]]
        0 <= k < log.len() ==> match ev_job_id(log[k]) {
            Some(id) => exists|i: int| 0 <= i < n && id == #[trigger] dec_str(i as nat),
            None => true,
        }
}

/// A later job never starts before an earlier job's terminal event.
pub open spec fn fifo_log_ok_s(n: int, log: Seq<ClientEvent>) -> bool {
    forall|i: int, j: int|
        0 <= i < j < n ==> #[trigger] started_after_terminal(
            log,
            dec_str(i as nat),
            dec_str(j as nat),
        )
}

/// No event of `log` carries the id that report number `n` would get.
proof fn lemma_fresh_id_unused(n: int, log: Seq<ClientEvent>)
    requires
        ids_in_range_s(n, log),
    ensures
        no_events_for(log, dec_str(n as nat)),
{
    assert forall|k: int| 0 <= k < log.len() implies #[trigger] ev_job_id(log[k]) != Some(
        dec_str(n as nat),
    ) by {
        if ev_job_id(log[k]) == Some(dec_str(n as nat)) {
            let i = choose|i: int| 0 <= i < n && dec_str(n as nat) == #[trigger] dec_str(i as nat);
            lemma_dec_str_distinct(i as nat, n as nat);
        }
    }
}

/// Pushing an event of runner `w` leaves every other report's protocol
/// intact.  `reports1` may extend `reports0` by the new slot `w` itself.
proof fn lemma_push_other_slots(
    reports0: Seq<JobReport>,
    log0: Seq<ClientEvent>,
    reports1: Seq<JobReport>,
    ev: ClientEvent,
    w: int,
)
    requires
        reports_ok(reports0, log0),
        reports1.len() >= reports0.len(),
        forall|i: int| 0 <= i < reports0.len() && i != w ==> reports1[i] == reports0[i],
        ev_job_id(ev) is Some ==> 0 <= w && ev_job_id(ev) == Some(dec_str(w as nat)),
    ensures
        forall|i: int|
            0 <= i < reports0.len() && i != w ==> #[trigger] report_slot_ok(
                reports1,
                log0.push(ev),
                i,
            ),
{
    assert forall|i: int| 0 <= i < reports0.len() && i != w implies #[trigger] report_slot_ok(
        reports1,
        log0.push(ev),
        i,
    ) by {
        assert(report_slot_ok(reports0, log0, i));
        if ev_job_id(ev) is Some {
            lemma_dec_str_distinct(i as nat, w as nat);
        }
        lemma_report_log_ok_push_other(log0, reports0[i], ev);
    }
}

/// Pushing an event of runner `w` keeps every job event's id in range,
/// also when the range grows from `n0` to `n1`.
proof fn lemma_push_ids_in_range(n0: int, n1: int, log: Seq<ClientEvent>, ev: ClientEvent, w: int)
    requires
        ids_in_range_s(n0, log),
        n0 <= n1,
        ev_job_id(ev) is Some ==> 0 <= w < n1 && ev_job_id(ev) == Some(dec_str(w as nat)),
    ensures
        ids_in_range_s(n1, log.push(ev)),
{
    let log2 = log.push(ev);
    assert forall|k: int| 0 <= k < log2.len() implies (match ev_job_id(#[trigger] log2[k]) {
        Some(id) => exists|i: int| 0 <= i < n1 && id == #[trigger] dec_str(i as nat),
        None => true,
    }) by {
        if k < log.len() {
            assert(log2[k] == log[k]);
            match ev_job_id(log[k]) {
                Some(id) => {
                    let i = choose|i: int| 0 <= i < n0 && id == #[trigger] dec_str(i as nat);
                    assert(0 <= i < n1 && id == dec_str(i as nat));
                },
                None => {},
            }
        } else {
            assert(log2[k] == ev);
            match ev_job_id(ev) {
                Some(id) => {
                    assert(0 <= w < n1 && id == dec_str(w as nat));
                },
                None => {},
            }
        }
    }
}

/// Pushing anything but a `JobStarted` keeps the cross-job ordering.
proof fn lemma_push_nonstarted_fifo(n: int, log: Seq<ClientEvent>, ev: ClientEvent)
    requires
        fifo_log_ok_s(n, log),
        !(ev is JobStarted),
    ensures
        fifo_log_ok_s(n, log.push(ev)),
{
    assert forall|i: int, j: int| 0 <= i < j < n implies #[trigger] started_after_terminal(
        log.push(ev),
        dec_str(i as nat),
        dec_str(j as nat),
    ) by {
        lemma_sat_push_other(log, dec_str(i as nat), dec_str(j as nat), ev);
    }
}

/// Pushing the `JobStarted` of queued report `j` keeps the cross-job
/// ordering, because every earlier report is already terminal and its
/// terminal event already stands in the history.
proof fn lemma_push_started_fifo(reports: Seq<JobReport>, log: Seq<ClientEvent>, ev: ClientEvent, j: int)
    requires
        reports_ok(reports, log),
        fifo_log_ok_s(reports.len() as int, log),
        0 <= j < reports.len(),
        forall|i: int| 0 <= i < j ==> (#[trigger] reports[i].status).is_terminal(),
        reports[j].status == JobStatus::Queued,
        ev_started_for(ev, dec_str(j as nat)),
        ev is JobStarted,
    ensures
        fifo_log_ok_s(reports.len() as int, log.push(ev)),
{
    let n = reports.len() as int;
    let idj = dec_str(j as nat);
    let log2 = log.push(ev);
    assert forall|i: int, j2: int| 0 <= i < j2 < n implies #[trigger] started_after_terminal(
        log2,
        dec_str(i as nat),
        dec_str(j2 as nat),
    ) by {
        if j2 != j {
            lemma_dec_str_distinct(j2 as nat, j as nat);
            lemma_sat_push_other(log, dec_str(i as nat), dec_str(j2 as nat), ev);
        } else {
            let idi = dec_str(i as nat);
            assert(report_slot_ok(reports, log, i));
            assert(report_slot_ok(reports, log, j));
            assert(reports[i].status.is_terminal());
            let w = if reports[i].status == JobStatus::Completed {
                lemma_count_pos(log, complete_p(idi))
            } else {
                lemma_count_pos(log, failed_p(idi))
            };
            assert(ev_terminal_for(log[w], idi));
            crate::trace::lemma_count_zero(log, started_p(idj));
            assert forall|k2: int|
                0 <= k2 < log2.len() && #[trigger] ev_started_for(log2[k2], idj) implies exists|
                k1: int,
            |
                0 <= k1 < k2 && #[trigger] ev_terminal_for(log2[k1], idi) by {
                if k2 < log.len() {
                    assert(log2[k2] == log[k2]);
                    assert(!started_p(idj)(log[k2]));
                    assert(false);
                } else {
                    assert(log2[w] == log[w]);
                    assert(0 <= w < k2 && ev_terminal_for(log2[w], idi));
                }
            }
        }
    }
}

/// The coordinator.  One logical serialization point: requests and job
/// signals are handled one at a time, and only these handlers touch the
/// reports, the running slot and the bus.
pub struct EventManager {
    /// One report per job ever queued, in queueing order; report `i`
    /// carries runner id `dec_str(i)`.
    pub reports: Vec<JobReport>,
    /// Index of the running job's report, if one is running.
    pub active: Option<usize>,
    pub bus: EventBus,
}

impl EventManager {
    /// Every event published so far, oldest first.
    pub open spec fn log(self) -> Seq<ClientEvent> {
        self.bus.log()
    }

    /// Strict first-in-first-out discipline with one running slot: every
    /// report before the running one is terminal, every report after it
    /// is still queued, and with no running job nothing is queued either.
    pub open spec fn statuses_fifo(self) -> bool {
        match self.active {
            Some(a) => {
                &&& a < self.reports@.len()
                &&& self.reports@[a as int].status == JobStatus::Running
                &&& forall|i: int|
                    0 <= i < a ==> (#[trigger] self.reports@[i].status).is_terminal()
                &&& forall|i: int|
                    a < i < self.reports@.len() ==> #[trigger] self.reports@[i].status
                        == JobStatus::Queued
            },
            None => forall|i: int|
                0 <= i < self.reports@.len() ==> (#[trigger] self.reports@[i].status).is_terminal(),
        }
    }

    pub open spec fn wf(self) -> bool {
        &&& self.bus.wf()
        &&& self.statuses_fifo()
        &&& reports_ok(self.reports@, self.log())
        &&& ids_in_range_s(self.reports@.len() as int, self.log())
        &&& fifo_log_ok_s(self.reports@.len() as int, self.log())
    }

    /// Subscriptions survive a coordinator step: same slots, same
    /// positions in the history.
    pub open spec fn subs_preserved(pre: Self, post: Self) -> bool {
        &&& post.bus.subscribers@.len() == pre.bus.subscribers@.len()
        &&& forall|i: int|
            #![trigger post.bus.subscribers@[i]]
            0 <= i < pre.bus.subscribers@.len() ==> {
                let s0 = pre.bus.subscribers@[i];
                let s1 = post.bus.subscribers@[i];
                &&& s1.live == s0.live
                &&& s1.since == s0.since
                &&& s1.taken == s0.taken
            }
    }

    /// What `queue_job` does: append one fresh report, keep everything
    /// else; start the job at once (publishing its `JobStarted`) when no
    /// job is running, otherwise leave it queued and the history as it
    /// was.  Admission never fails.
    pub open spec fn queue_transition(pre: Self, post: Self, job: Job, now: u64) -> bool {
        let n = pre.reports@.len() as int;
        let r = post.reports@[n];
        &&& post.reports@.len() == n + 1
        &&& forall|i: int| 0 <= i < n ==> #[trigger] post.reports@[i] == pre.reports@[i]
        &&& r.runner_id@ == dec_str(n as nat)
        &&& r.name@ == job.name@
        &&& r.current_task == 0
        &&& r.task_count == job.task_count
        &&& r.message is None
        &&& r.created_at == now
        &&& r.completed_at is None
        &&& if pre.active is None {
            &&& r.status == JobStatus::Running
            &&& post.active == Some(n as usize)
            &&& post.log().len() == pre.log().len() + 1
            &&& post.log().drop_last() == pre.log()
            &&& is_started_event_for(post.log().last(), r)
        } else {
            &&& r.status == JobStatus::Queued
            &&& post.active == pre.active
            &&& post.log() == pre.log()
        }
        &&& Self::subs_preserved(pre, post)
    }

    /// What `on_job_progress` does: with a running job and counters that
    /// neither regress nor pass `task_count`, update the report and
    /// publish the matching `JobProgress` snapshot; any other signal is
    /// ignored whole.
    pub open spec fn progress_transition(
        pre: Self,
        post: Self,
        current_task: u64,
        message: Option<String>,
    ) -> bool {
        match pre.active {
            None => post == pre,
            Some(a0) => {
                let a = a0 as int;
                let r0 = pre.reports@[a];
                if r0.current_task <= current_task <= r0.task_count {
                    let r1 = post.reports@[a];
                    &&& post.reports@.len() == pre.reports@.len()
                    &&& forall|i: int|
                        0 <= i < pre.reports@.len() && i != a ==> #[trigger] post.reports@[i]
                            == pre.reports@[i]
                    &&& r1.runner_id == r0.runner_id
                    &&& r1.name == r0.name
                    &&& r1.status == r0.status
                    &&& r1.current_task == current_task
                    &&& r1.task_count == r0.task_count
                    &&& r1.message == message
                    &&& r1.created_at == r0.created_at
                    &&& r1.completed_at == r0.completed_at
                    &&& post.active == pre.active
                    &&& post.log().len() == pre.log().len() + 1
                    &&& post.log().drop_last() == pre.log()
                    &&& is_progress_event_for(post.log().last(), r1)
                    &&& Self::subs_preserved(pre, post)
                } else {
                    post == pre
                }
            },
        }
    }

    /// What `on_job_finished` does: with a running job, close its report
    /// (`Completed` on `Ok`, `Failed` on `Err`, counters per the outcome),
    /// publish the one matching terminal event, and then start the next
    /// queued job, if any, publishing its `JobStarted`.  Without a running
    /// job the signal is ignored whole.
    pub open spec fn finish_transition(
        pre: Self,
        post: Self,
        outcome: Result<String, String>,
        now: u64,
    ) -> bool {
        match pre.active {
            None => post == pre,
            Some(a0) => {
                let a = a0 as int;
                let n = pre.reports@.len() as int;
                let r0 = pre.reports@[a];
                let r1 = post.reports@[a];
                &&& post.reports@.len() == n
                &&& forall|i: int|
                    0 <= i < n && i != a && i != a + 1 ==> #[trigger] post.reports@[i]
                        == pre.reports@[i]
                &&& r1.runner_id == r0.runner_id
                &&& r1.name == r0.name
                &&& r1.task_count == r0.task_count
                &&& r1.created_at == r0.created_at
                &&& r1.completed_at == Some(now)
                &&& match outcome {
                    Ok(m) => {
                        &&& r1.status == JobStatus::Completed
                        &&& r1.current_task == r0.task_count
                        &&& r1.message == Some(m)
                        &&& is_complete_event_for(post.log()[pre.log().len() as int], r1)
                    },
                    Err(m) => {
                        &&& r1.status == JobStatus::Failed
                        &&& r1.current_task == r0.current_task
                        &&& r1.message == Some(m)
                        &&& is_failed_event_for(post.log()[pre.log().len() as int], r1, m@)
                    },
                }
                &&& if a + 1 < n {
                    let q = pre.reports@[a + 1];
                    let r2 = post.reports@[a + 1];
                    &&& post.active == Some((a0 + 1) as usize)
                    &&& r2.runner_id == q.runner_id
                    &&& r2.name == q.name
                    &&& r2.status == JobStatus::Running
                    &&& r2.current_task == q.current_task
                    &&& r2.task_count == q.task_count
                    &&& r2.message == q.message
                    &&& r2.created_at == q.created_at
                    &&& r2.completed_at == q.completed_at
                    &&& post.log().len() == pre.log().len() + 2
                    &&& post.log().subrange(0, pre.log().len() as int) == pre.log()
                    &&& is_started_event_for(post.log().last(), r2)
                } else {
                    &&& post.active is None
                    &&& post.log().len() == pre.log().len() + 1
                    &&& post.log().drop_last() == pre.log()
                }
                &&& Self::subs_preserved(pre, post)
            },
        }
    }

    /// A coordinator with no jobs, no history and no subscribers.
    pub fn new() -> (m: EventManager)
        ensures
            m.wf(),
            m.reports@.len() == 0,
            m.active is None,
            m.log() == Seq::<ClientEvent>::empty(),
            m.bus.subscribers@.len() == 0,
    {
        EventManager { reports: Vec::new(), active: None, bus: EventBus::new() }
    }

    /// Enqueue a job.  Admission always succeeds: the job starts at once
    /// when the running slot is free, and otherwise waits its turn as
    /// `Queued` — backpressure is a delayed start, never a rejection.
    pub fn queue_job(&mut self, job: Job, now: u64)
        requires
            old(self).wf(),
        ensures
            final(self).wf(),
            Self::queue_transition(*old(self), *final(self), job, now),
    {
        let ghost pre = *self;
        let n = self.reports.len();
        let id_string = u64_to_dec_string(n as u64);
        proof {
            assert((n as u64) as nat == n as nat);
        }
        let start_now = self.active.is_none();
        let status = if start_now {
            JobStatus::Running
        } else {
            JobStatus::Queued
        };
        let task_count = job.task_count;
        let report = JobReport {
            runner_id: id_string,
            name: job.name,
            status,
            current_task: 0,
            task_count,
            message: None,
            created_at: now,
            completed_at: None,
        };
        if start_now {
            let ev = ClientEvent::job_started(report.runner_id.clone(), 0, task_count, None);
            self.reports.push(report);
            self.active = Some(n);
            self.bus.publish(ev);
            proof {
                let ni = n as int;
                let id = dec_str(ni as nat);
                let log2 = self.log();
                let r1 = self.reports@[ni];
                let r0 = JobReport { status: JobStatus::Queued, ..r1 };
                assert(log2 == pre.log().push(ev));
                assert(log2.drop_last() =~= pre.log());
                lemma_fresh_id_unused(ni, pre.log());
                lemma_no_events_protocol(pre.log(), id);
                lemma_report_log_ok_push_started(pre.log(), r0, r1, ev);
                lemma_push_other_slots(pre.reports@, pre.log(), self.reports@, ev, ni);
                assert forall|i: int|
                    0 <= i < self.reports@.len() implies #[trigger] report_slot_ok(
                    self.reports@,
                    log2,
                    i,
                ) by {
                    if i == ni {
                        assert(report_log_ok(log2, r1));
                    }
                }
                lemma_push_ids_in_range(ni, ni + 1, pre.log(), ev, ni);
                // every earlier job is terminal, so the queued view of the
                // new report satisfies the protocol and the ordering.
                let ghost mid_reports = pre.reports@.push(r0);
                assert forall|i: int|
                    0 <= i < mid_reports.len() implies #[trigger] report_slot_ok(
                    mid_reports,
                    pre.log(),
                    i,
                ) by {
                    if i < ni {
                        assert(report_slot_ok(pre.reports@, pre.log(), i));
                    } else {
                        lemma_no_events_protocol(pre.log(), id);
                    }
                }
                assert forall|i: int, j: int|
                    0 <= i < j < mid_reports.len() implies #[trigger] started_after_terminal(
                    pre.log(),
                    dec_str(i as nat),
                    dec_str(j as nat),
                ) by {
                    if j < ni {
                        assert(fifo_log_ok_s(ni, pre.log()));
                    } else {
                        lemma_sat_vacuous(pre.log(), dec_str(i as nat), dec_str(j as nat));
                    }
                }
                lemma_push_started_fifo(mid_reports, pre.log(), ev, ni);
            }
        } else {
            self.reports.push(report);
            proof {
                let ni = n as int;
                let id = dec_str(ni as nat);
                lemma_fresh_id_unused(ni, pre.log());
                lemma_no_events_protocol(pre.log(), id);
                assert forall|i: int|
                    0 <= i < self.reports@.len() implies #[trigger] report_slot_ok(
                    self.reports@,
                    self.log(),
                    i,
                ) by {
                    if i < ni {
                        assert(report_slot_ok(pre.reports@, pre.log(), i));
                    }
                }
                assert forall|k: int|
                    0 <= k < self.log().len() implies (match ev_job_id(#[trigger] self.log()[k]) {
                    Some(id2) => exists|i: int|
                        0 <= i < self.reports@.len() && id2 == #[trigger] dec_str(i as nat),
                    None => true,
                }) by {
                    match ev_job_id(pre.log()[k]) {
                        Some(id2) => {
                            let i = choose|i: int|
                                0 <= i < pre.reports@.len() && id2 == #[trigger] dec_str(i as nat);
                            assert(0 <= i < self.reports@.len() && id2 == dec_str(i as nat));
                        },
                        None => {},
                    }
                }
                assert forall|i: int, j: int|
                    0 <= i < j < self.reports@.len() implies #[trigger] started_after_terminal(
                    self.log(),
                    dec_str(i as nat),
                    dec_str(j as nat),
                ) by {
                    if j < ni {
                        assert(fifo_log_ok_s(ni, pre.log()));
                    } else {
                        lemma_sat_vacuous(pre.log(), dec_str(i as nat), dec_str(j as nat));
                    }
                }
            }
        }
    }

    /// Record a progress signal from the running job and publish the
    /// matching `JobProgress` snapshot.  Without a running job, or with
    /// counters that would regress or pass `task_count`, the signal is
    /// logged-and-ignored rather than applied.
    pub fn on_job_progress(&mut self, current_task: u64, message: Option<String>)
        requires
            old(self).wf(),
        ensures
            final(self).wf(),
            Self::progress_transition(*old(self), *final(self), current_task, message),
    {
        let ghost pre = *self;
        match self.active {
            None => {},
            Some(a) => {
                proof {
                    assert(pre.statuses_fifo());
                }
                let r_current = self.reports[a].current_task;
                let r_count = self.reports[a].task_count;
                if r_current <= current_task && current_task <= r_count {
                    let ev_msg: Option<String> = match &message {
                        Some(m) => Some(m.clone()),
                        None => None,
                    };
                    self.reports[a].current_task = current_task;
                    self.reports[a].message = message;
                    let id_clone = self.reports[a].runner_id.clone();
                    let ev = ClientEvent::job_progress(id_clone, current_task, r_count, ev_msg);
                    self.bus.publish(ev);
                    proof {
                        let ai = a as int;
                        let n = pre.reports@.len() as int;
                        let id = dec_str(ai as nat);
                        let log2 = self.log();
                        let r0 = pre.reports@[ai];
                        let r1 = self.reports@[ai];
                        assert(log2 == pre.log().push(ev));
                        assert(log2.drop_last() =~= pre.log());
                        assert(report_slot_ok(pre.reports@, pre.log(), ai));
                        lemma_report_log_ok_push_progress(pre.log(), r0, r1, ev);
                        lemma_push_other_slots(pre.reports@, pre.log(), self.reports@, ev, ai);
                        assert forall|i: int|
                            0 <= i < self.reports@.len() implies #[trigger] report_slot_ok(
                            self.reports@,
                            log2,
                            i,
                        ) by {
                            if i == ai {
                                assert(report_log_ok(log2, r1));
                            }
                        }
                        lemma_push_ids_in_range(n, n, pre.log(), ev, ai);
                        lemma_push_nonstarted_fifo(n, pre.log(), ev);
                    }
                }
            },
        }
    }

    /// Record the running job's terminal outcome, publish its terminal
    /// event, and start the next queued job (publishing its `JobStarted`)
    /// if one waits.  Without a running job the signal is ignored.
    pub fn on_job_finished(&mut self, outcome: Result<String, String>, now: u64)
        requires
            old(self).wf(),
        ensures
            final(self).wf(),
            Self::finish_transition(*old(self), *final(self), outcome, now),
    {
        let ghost pre = *self;
        match self.active {
            None => {},
            Some(a) => {
                proof {
                    assert(pre.statuses_fifo());
                }
                let id_clone = self.reports[a].runner_id.clone();
                let ev = match &outcome {
                    Ok(_) => ClientEvent::JobComplete(id_clone),
                    Err(m) => ClientEvent::JobFailed(
                        JobFailure { runner_id: id_clone, message: m.clone() },
                    ),
                };
                match outcome {
                    Ok(m) => {
                        let tc = self.reports[a].task_count;
                        self.reports[a].status = JobStatus::Completed;
                        self.reports[a].current_task = tc;
                        self.reports[a].message = Some(m);
                        self.reports[a].completed_at = Some(now);
                    },
                    Err(m) => {
                        self.reports[a].status = JobStatus::Failed;
                        self.reports[a].message = Some(m);
                        self.reports[a].completed_at = Some(now);
                    },
                }
                self.bus.publish(ev);
                let ghost mid = *self;
                proof {
                    let ai = a as int;
                    let n = pre.reports@.len() as int;
                    let id = dec_str(ai as nat);
                    let r0 = pre.reports@[ai];
                    let r1 = self.reports@[ai];
                    assert(mid.log() == pre.log().push(ev));
                    assert(mid.log().drop_last() =~= pre.log());
                    assert(report_slot_ok(pre.reports@, pre.log(), ai));
                    lemma_report_log_ok_push_terminal(pre.log(), r0, r1, ev);
                    lemma_push_other_slots(pre.reports@, pre.log(), mid.reports@, ev, ai);
                    assert forall|i: int|
                        0 <= i < mid.reports@.len() implies #[trigger] report_slot_ok(
                        mid.reports@,
                        mid.log(),
                        i,
                    ) by {
                        if i == ai {
                            assert(report_log_ok(mid.log(), r1));
                        }
                    }
                    lemma_push_ids_in_range(n, n, pre.log(), ev, ai);
                    lemma_push_nonstarted_fifo(n, pre.log(), ev);
                }
                assert(a < self.reports.len());
                let next = a + 1;
                if next < self.reports.len() {
                    let cur = self.reports[next].current_task;
                    let tc = self.reports[next].task_count;
                    self.reports[next].status = JobStatus::Running;
                    let ev2 = ClientEvent::job_started(
                        self.reports[next].runner_id.clone(),
                        cur,
                        tc,
                        None,
                    );
                    self.active = Some(next);
                    self.bus.publish(ev2);
                    proof {
                        let ai = a as int;
                        let ji = next as int;
                        let n = pre.reports@.len() as int;
                        let log3 = self.log();
                        let q0 = mid.reports@[ji];
                        let q1 = self.reports@[ji];
                        assert(log3 == mid.log().push(ev2));
                        assert(log3.drop_last() =~= mid.log());
                        assert(log3.subrange(0, pre.log().len() as int) =~= pre.log());
                        assert(report_slot_ok(mid.reports@, mid.log(), ji));
                        assert(q0.status == JobStatus::Queued);
                        lemma_report_log_ok_push_started(mid.log(), q0, q1, ev2);
                        lemma_push_other_slots(mid.reports@, mid.log(), self.reports@, ev2, ji);
                        assert forall|i: int|
                            0 <= i < self.reports@.len() implies #[trigger] report_slot_ok(
                            self.reports@,
                            log3,
                            i,
                        ) by {
                            if i == ji {
                                assert(report_log_ok(log3, q1));
                            }
                        }
                        lemma_push_ids_in_range(n, n, mid.log(), ev2, ji);
                        assert forall|i: int|
                            0 <= i < ji implies (#[trigger] mid.reports@[i].status).is_terminal() by {
                            if i < ai {
                                assert(pre.reports@[i] == mid.reports@[i]);
                            }
                        }
                        lemma_push_started_fifo(mid.reports@, mid.log(), ev2, ji);
                        assert(is_started_event_for(log3.last(), q1));
                    }
                } else {
                    self.active = None;
                }
            },
        }
    }

    /// A snapshot of every report, in queueing order.
    pub fn get_job_reports(&self) -> (out: Vec<JobReport>)
        ensures
            out@ == self.reports@,
    {
        let mut out: Vec<JobReport> = Vec::new();
        let n = self.reports.len();
        let mut i: usize = 0;
        while i < n
            invariant
                n == self.reports@.len(),
                i <= n,
                out@.len() == i as int,
                forall|k: int| 0 <= k < i ==> #[trigger] out@[k] == self.reports@[k],
            decreases n - i,
        {
            out.push(self.reports[i].duplicate());
            i += 1;
        }
        proof {
            assert(out@ =~= self.reports@);
        }
        out
    }

    /// The running job's report, if any: what an external executor needs
    /// in order to drive the actual work and signal back.
    pub fn running_job(&self) -> (r: Option<JobReport>)
        requires
            self.wf(),
        ensures
            (match self.active {
                Some(a) => r matches Some(rep) && rep == self.reports@[a as int],
                None => r is None,
            }),
    {
        match self.active {
            Some(a) => {
                proof {
                    assert(self.statuses_fifo());
                }
                Some(self.reports[a].duplicate())
            },
            None => None,
        }
    }

    /// Process one mailbox message.  `QueueJob` is fire-and-forget and
    /// answers nothing; `GetJobReports` answers with a snapshot of every
    /// report and changes nothing.
    pub fn handle_request(&mut self, request: ClientRequest, now: u64) -> (response: Option<
        ClientResponse,
    >)
        requires
            old(self).wf(),
        ensures
            final(self).wf(),
            (match request {
                ClientRequest::QueueJob(job) => {
                    &&& response is None
                    &&& Self::queue_transition(*old(self), *final(self), job, now)
                },
                ClientRequest::GetJobReports => {
                    &&& *final(self) == *old(self)
                    &&& response matches Some(ClientResponse::GetJobReports(v)) && v@ == old(
                        self,
                    ).reports@
                },
            }),
    {
        match request {
            ClientRequest::QueueJob(job) => {
                self.queue_job(job, now);
                None
            },
            ClientRequest::GetJobReports => {
                let v = self.get_job_reports();
                Some(ClientResponse::GetJobReports(v))
            },
        }
    }

    /// Register a live observer; it receives exactly the events published
    /// after this call, never a backlog.
    pub fn subscribe(&mut self) -> (id: usize)
        requires
            old(self).wf(),
        ensures
            final(self).wf(),
            final(self).reports@ == old(self).reports@,
            final(self).active == old(self).active,
            final(self).log() == old(self).log(),
            id == old(self).bus.subscribers@.len(),
            final(self).bus.subscribers@.len() == old(self).bus.subscribers@.len() + 1,
            final(self).bus.subscribers@[id as int].live,
            final(self).bus.subscribers@[id as int].buffer@ == Seq::<ClientEvent>::empty(),
            final(self).bus.subscribers@[id as int].since@ == old(self).log().len(),
    {
        self.bus.subscribe()
    }

    /// Drop an observer; every other subscription is untouched.
    pub fn unsubscribe(&mut self, id: usize)
        requires
            old(self).wf(),
        ensures
            final(self).wf(),
            final(self).reports@ == old(self).reports@,
            final(self).active == old(self).active,
            final(self).log() == old(self).log(),
    {
        self.bus.unsubscribe(id)
    }

    /// Everything published since subscriber `id` last asked, oldest
    /// first; at most once per event.
    pub fn take_events(&mut self, id: usize) -> (evs: Vec<ClientEvent>)
        requires
            old(self).wf(),
        ensures
            final(self).wf(),
            final(self).reports@ == old(self).reports@,
            final(self).active == old(self).active,
            final(self).log() == old(self).log(),
            ({
                if id < old(self).bus.subscribers@.len() && old(
                    self,
                ).bus.subscribers@[id as int].live {
                    let s0 = old(self).bus.subscribers@[id as int];
                    &&& evs@ == old(self).log().subrange(s0.taken@, old(self).log().len() as int)
                    &&& final(self).bus.subscribers@[id as int].taken@ == old(self).log().len()
                    &&& final(self).bus.subscribers@[id as int].live
                } else {
                    evs@ == Seq::<ClientEvent>::empty()
                }
            }),
    {
        self.bus.take_events(id)
    }

    /// Publish the domain notification for a created media entity.  Job
    /// bookkeeping is untouched.
    pub fn notify_media_created(&mut self, name: String)
        requires
            old(self).wf(),
        ensures
            final(self).wf(),
            final(self).reports@ == old(self).reports@,
            final(self).active == old(self).active,
            final(self).log().len() == old(self).log().len() + 1,
            final(self).log().drop_last() == old(self).log(),
            (final(self).log().last() matches ClientEvent::CreatedMedia(m) && m@ == name@),
            Self::subs_preserved(*old(self), *final(self)),
    {
        let ghost pre = *self;
        let ev = ClientEvent::CreatedMedia(name);
        self.bus.publish(ev);
        proof {
            Self::lemma_domain_publish(pre, *self, ev);
        }
    }

    /// Publish the domain notification for a created series entity.  Job
    /// bookkeeping is untouched.
    pub fn notify_series_created(&mut self, name: String)
        requires
            old(self).wf(),
        ensures
            final(self).wf(),
            final(self).reports@ == old(self).reports@,
            final(self).active == old(self).active,
            final(self).log().len() == old(self).log().len() + 1,
            final(self).log().drop_last() == old(self).log(),
            (final(self).log().last() matches ClientEvent::CreatedSeries(m) && m@ == name@),
            Self::subs_preserved(*old(self), *final(self)),
    {
        let ghost pre = *self;
        let ev = ClientEvent::CreatedSeries(name);
        self.bus.publish(ev);
        proof {
            Self::lemma_domain_publish(pre, *self, ev);
        }
    }

    /// Publishing an event that names no runner preserves every job
    /// invariant.
    proof fn lemma_domain_publish(pre: Self, post: Self, ev: ClientEvent)
        requires
            pre.statuses_fifo(),
            reports_ok(pre.reports@, pre.log()),
            ids_in_range_s(pre.reports@.len() as int, pre.log()),
            fifo_log_ok_s(pre.reports@.len() as int, pre.log()),
            post.reports@ == pre.reports@,
            post.active == pre.active,
            post.log() == pre.log().push(ev),
            ev_job_id(ev) is None,
            !(ev is JobStarted),
        ensures
            post.statuses_fifo(),
            reports_ok(post.reports@, post.log()),
            ids_in_range_s(post.reports@.len() as int, post.log()),
            fifo_log_ok_s(post.reports@.len() as int, post.log()),
    {
        let n = pre.reports@.len() as int;
        assert(post.log().drop_last() =~= pre.log());
        assert forall|i: int| 0 <= i < post.reports@.len() implies #[trigger] report_slot_ok(
            post.reports@,
            post.log(),
            i,
        ) by {
            assert(report_slot_ok(pre.reports@, pre.log(), i));
            lemma_report_log_ok_push_other(pre.log(), pre.reports@[i], ev);
        }
        lemma_push_ids_in_range(n, n, pre.log(), ev, 0);
        lemma_push_nonstarted_fifo(n, pre.log(), ev);
    }
}

} // verus!
