//! The library's guarantees, stated once and proved against the
//! coordinator's invariant and transitions.

use vstd::prelude::*;

use crate::job::Job;
use crate::manager::EventManager;
use crate::manager::fifo_log_ok_s;
use crate::manager::report_slot_ok;
use crate::report::JobReport;
use crate::report::JobStatus;
use crate::runner_id::dec_str;
use crate::trace::complete_p;
use crate::trace::count_matching;
use crate::trace::ev_started_for;
use crate::trace::ev_terminal_for;
use crate::trace::failed_p;
use crate::trace::precedes;
use crate::trace::progress_p;
use crate::trace::started_after_terminal;
use crate::trace::started_p;
use crate::trace::terminal_p;

verus! {

/// For every job the coordinator knows, the published history holds: no
/// event before it is queued; exactly one `JobStarted` once it runs; and,
/// once terminal, exactly one terminal event, of the kind its status
/// names, with every event of that job in the order `Started`, then
/// `Progress`, then the terminal event.
pub proof fn lemma_job_event_lifecycle(m: EventManager, i: int)
    requires
        m.wf(),
        0 <= i < m.reports@.len(),
    ensures
        ({
            let r = m.reports@[i];
            let id = r.runner_id@;
            let log = m.log();
            &&& r.status == JobStatus::Queued ==> count_matching(log, started_p(id)) == 0
                && count_matching(log, progress_p(id)) == 0
            &&& r.status != JobStatus::Queued ==> count_matching(log, started_p(id)) == 1
            &&& count_matching(log, complete_p(id)) == if r.status == JobStatus::Completed {
                1nat
            } else {
                0nat
            }
            &&& count_matching(log, failed_p(id)) == if r.status == JobStatus::Failed {
                1nat
            } else {
                0nat
            }
            &&& precedes(log, started_p(id), progress_p(id))
            &&& precedes(log, started_p(id), terminal_p(id))
            &&& precedes(log, progress_p(id), terminal_p(id))
        }),
{
    assert(report_slot_ok(m.reports@, m.log(), i));
}

/// How one report may change in one coordinator step: the identity and
/// the task total are fixed, the progress counter never decreases, the
/// status only moves forward, and a terminal report never changes at all.
pub open spec fn report_monotone(r0: JobReport, r1: JobReport) -> bool {
    &&& r1.runner_id == r0.runner_id
    &&& r1.name == r0.name
    &&& r1.task_count == r0.task_count
    &&& r1.current_task >= r0.current_task
    &&& status_rank(r1.status) >= status_rank(r0.status)
    &&& r0.status.is_terminal() ==> r1 == r0
}

/// Lifecycle order of the statuses.
pub open spec fn status_rank(s: JobStatus) -> int {
    match s {
        JobStatus::Queued => 0,
        JobStatus::Running => 1,
        JobStatus::Completed => 2,
        JobStatus::Failed => 2,
    }
}

/// Queueing a job never touches an existing report.
pub proof fn lemma_queue_monotone(pre: EventManager, post: EventManager, job: Job, now: u64)
    requires
        pre.wf(),
        EventManager::queue_transition(pre, post, job, now),
    ensures
        forall|i: int|
            0 <= i < pre.reports@.len() ==> #[trigger] report_monotone(
                pre.reports@[i],
                post.reports@[i],
            ),
{
}

/// A progress signal moves its job's counter forward only, within
/// `task_count`, and touches no other report.
pub proof fn lemma_progress_monotone(
    pre: EventManager,
    post: EventManager,
    current_task: u64,
    message: Option<String>,
)
    requires
        pre.wf(),
        EventManager::progress_transition(pre, post, current_task, message),
    ensures
        forall|i: int|
            0 <= i < pre.reports@.len() ==> #[trigger] report_monotone(
                pre.reports@[i],
                post.reports@[i],
            ),
        forall|i: int|
            0 <= i < post.reports@.len() ==> #[trigger] post.reports@[i].current_task
                <= post.reports@[i].task_count,
{
    assert forall|i: int| 0 <= i < post.reports@.len() implies #[trigger] post.reports@[i].current_task
        <= post.reports@[i].task_count by {
        assert(report_slot_ok(pre.reports@, pre.log(), i));
    }
    assert forall|i: int| 0 <= i < pre.reports@.len() implies #[trigger] report_monotone(
        pre.reports@[i],
        post.reports@[i],
    ) by {
        assert(report_slot_ok(pre.reports@, pre.log(), i));
    }
}

/// A terminal signal closes the running job, may start the next queued
/// one, and regresses nothing.
pub proof fn lemma_finish_monotone(
    pre: EventManager,
    post: EventManager,
    outcome: Result<String, String>,
    now: u64,
)
    requires
        pre.wf(),
        EventManager::finish_transition(pre, post, outcome, now),
    ensures
        forall|i: int|
            0 <= i < pre.reports@.len() ==> #[trigger] report_monotone(
                pre.reports@[i],
                post.reports@[i],
            ),
{
    assert forall|i: int| 0 <= i < pre.reports@.len() implies #[trigger] report_monotone(
        pre.reports@[i],
        post.reports@[i],
    ) by {
        assert(report_slot_ok(pre.reports@, pre.log(), i));
        if pre.active is Some {
            assert(pre.statuses_fifo());
        }
    }
}

/// Each queued job adds exactly one report; together with `new` (no
/// reports) and `get_job_reports` (a snapshot of exactly the reports),
/// a query after `N` queued jobs returns exactly `N` reports, and a query
/// before any returns none.
pub proof fn lemma_one_report_per_job(pre: EventManager, post: EventManager, job: Job, now: u64)
    requires
        EventManager::queue_transition(pre, post, job, now),
    ensures
        post.reports@.len() == pre.reports@.len() + 1,
{
}

/// No replay for late subscribers: a live subscriber's pending buffer is
/// exactly the slice of the history past its consumption point, and that
/// point never lies before the subscription point — so nothing published
/// before `subscribe` is ever delivered to it.
pub proof fn lemma_no_replay(m: EventManager, id: int)
    requires
        m.wf(),
        0 <= id < m.bus.subscribers@.len(),
        m.bus.subscribers@[id].live,
    ensures
        ({
            let s = m.bus.subscribers@[id];
            &&& s.since@ <= s.taken@ <= m.log().len()
            &&& s.buffer@ == m.log().subrange(s.taken@, m.log().len() as int)
        }),
{
    assert(m.bus.slot_wf(id));
}

/// First-in-first-out across jobs: with the single running slot, a later
/// job's `JobStarted` is published only after every earlier job's
/// terminal event.
pub proof fn lemma_fifo_event_order(m: EventManager, i: int, j: int, k2: int)
    requires
        m.wf(),
        0 <= i < j < m.reports@.len(),
        0 <= k2 < m.log().len(),
        ev_started_for(m.log()[k2], m.reports@[j].runner_id@),
    ensures
        exists|k1: int|
            0 <= k1 < k2 && #[trigger] ev_terminal_for(m.log()[k1], m.reports@[i].runner_id@),
{
    assert(report_slot_ok(m.reports@, m.log(), i));
    assert(report_slot_ok(m.reports@, m.log(), j));
    assert(fifo_log_ok_s(m.reports@.len() as int, m.log()));
    assert(started_after_terminal(m.log(), dec_str(i as nat), dec_str(j as nat)));
    assert(ev_started_for(m.log()[k2], dec_str(j as nat)));
    let k1 = choose|k1: int|
        0 <= k1 < k2 && #[trigger] ev_terminal_for(m.log()[k1], dec_str(i as nat));
    assert(ev_terminal_for(m.log()[k1], m.reports@[i].runner_id@));
}

} // verus!
