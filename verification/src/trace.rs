//! Specification vocabulary for the published event history.
//!
//! The coordinator's correctness statements — one `JobStarted`, then any
//! number of `JobProgress`, then exactly one terminal event per job, and
//! first-in-first-out ordering across jobs — are phrased over the sequence
//! of all events ever published on the bus.  This module gives the
//! predicates that pick one job's events out of that history, a counting
//! function, an ordering relation, and the lemmas that carry them through
//! one publication.

use vstd::prelude::*;

use crate::event::ClientEvent;
use crate::report::JobReport;
use crate::report::JobStatus;

verus! {

/// `e` is the `JobStarted` event of the runner named `id`.
pub open spec fn ev_started_for(e: ClientEvent, id: Seq<char>) -> bool {
    match e {
        ClientEvent::JobStarted(u) => u.runner_id@ == id,
        _ => false,
    }
}

/// `e` is a `JobProgress` event of the runner named `id`.
pub open spec fn ev_progress_for(e: ClientEvent, id: Seq<char>) -> bool {
    match e {
        ClientEvent::JobProgress(u) => u.runner_id@ == id,
        _ => false,
    }
}

/// `e` is the `JobComplete` event of the runner named `id`.
pub open spec fn ev_complete_for(e: ClientEvent, id: Seq<char>) -> bool {
    match e {
        ClientEvent::JobComplete(r) => r@ == id,
        _ => false,
    }
}

/// `e` is the `JobFailed` event of the runner named `id`.
pub open spec fn ev_failed_for(e: ClientEvent, id: Seq<char>) -> bool {
    match e {
        ClientEvent::JobFailed(f) => f.runner_id@ == id,
        _ => false,
    }
}

/// `e` ends the lifecycle of the runner named `id`.
pub open spec fn ev_terminal_for(e: ClientEvent, id: Seq<char>) -> bool {
    ev_complete_for(e, id) || ev_failed_for(e, id)
}

/// The runner a job-lifecycle event speaks of; `None` for domain
/// notifications.
pub open spec fn ev_job_id(e: ClientEvent) -> Option<Seq<char>> {
    match e {
        ClientEvent::JobStarted(u) => Some(u.runner_id@),
        ClientEvent::JobProgress(u) => Some(u.runner_id@),
        ClientEvent::JobComplete(r) => Some(r@),
        ClientEvent::JobFailed(f) => Some(f.runner_id@),
        ClientEvent::CreatedMedia(_) => None,
        ClientEvent::CreatedSeries(_) => None,
    }
}

/// How many events of `log` satisfy `p`.
pub open spec fn count_matching(log: Seq<ClientEvent>, p: spec_fn(ClientEvent) -> bool) -> nat
    decreases log.len(),
{
    if log.len() == 0 {
        0
    } else {
        count_matching(log.drop_last(), p) + if p(log.last()) {
            1nat
        } else {
            0nat
        }
    }
}

/// Every event satisfying `p` stands strictly before every event
/// satisfying `q`.
pub open spec fn precedes(
    log: Seq<ClientEvent>,
    p: spec_fn(ClientEvent) -> bool,
    q: spec_fn(ClientEvent) -> bool,
) -> bool {
    forall|k1: int, k2: int|
        0 <= k1 < log.len() && 0 <= k2 < log.len() && #[trigger] p(log[k1]) && #[trigger] q(
            log[k2],
        ) ==> k1 < k2
}

pub proof fn lemma_count_push(log: Seq<ClientEvent>, p: spec_fn(ClientEvent) -> bool, e: ClientEvent)
    ensures
        count_matching(log.push(e), p) == count_matching(log, p) + if p(e) {
            1nat
        } else {
            0nat
        },
{
    assert(log.push(e).drop_last() =~= log);
    assert(log.push(e).last() == e);
}

pub proof fn lemma_count_zero(log: Seq<ClientEvent>, p: spec_fn(ClientEvent) -> bool)
    requires
        count_matching(log, p) == 0,
    ensures
        forall|k: int| 0 <= k < log.len() ==> !#[trigger] p(log[k]),
    decreases log.len(),
{
    if log.len() > 0 {
        lemma_count_zero(log.drop_last(), p);
        assert forall|k: int| 0 <= k < log.len() implies !#[trigger] p(log[k]) by {
            if k < log.len() - 1 {
                assert(log.drop_last()[k] == log[k]);
            } else {
                assert(log[k] == log.last());
            }
        }
    }
}

pub proof fn lemma_count_from_none(log: Seq<ClientEvent>, p: spec_fn(ClientEvent) -> bool)
    requires
        forall|k: int| 0 <= k < log.len() ==> !#[trigger] p(log[k]),
    ensures
        count_matching(log, p) == 0,
    decreases log.len(),
{
    if log.len() > 0 {
        assert forall|k: int| 0 <= k < log.len() - 1 implies !#[trigger] p(log.drop_last()[k]) by {
            assert(log.drop_last()[k] == log[k]);
        }
        lemma_count_from_none(log.drop_last(), p);
        assert(!p(log.last()));
    }
}

pub proof fn lemma_count_pos(log: Seq<ClientEvent>, p: spec_fn(ClientEvent) -> bool) -> (k: int)
    requires
        count_matching(log, p) >= 1,
    ensures
        0 <= k < log.len(),
        p(log[k]),
    decreases log.len(),
{
    if p(log.last()) {
        log.len() - 1
    } else {
        let k = lemma_count_pos(log.drop_last(), p);
        assert(log.drop_last()[k] == log[k]);
        k
    }
}

/// Pushing `e` keeps `p`-before-`q` ordering, provided `e` is no
/// `p`-event, or no `q`-event exists anywhere (including `e` itself).
pub proof fn lemma_precedes_push(
    log: Seq<ClientEvent>,
    p: spec_fn(ClientEvent) -> bool,
    q: spec_fn(ClientEvent) -> bool,
    e: ClientEvent,
)
    requires
        precedes(log, p, q),
        p(e) ==> count_matching(log, q) == 0 && !q(e),
    ensures
        precedes(log.push(e), p, q),
{
    let log2 = log.push(e);
    if p(e) {
        lemma_count_zero(log, q);
    }
    assert forall|k1: int, k2: int|
        0 <= k1 < log2.len() && 0 <= k2 < log2.len() && #[trigger] p(log2[k1]) && #[trigger] q(
            log2[k2],
        ) implies k1 < k2 by {
        if k1 < log.len() && k2 < log.len() {
            assert(log2[k1] == log[k1]);
            assert(log2[k2] == log[k2]);
        } else if k1 == log.len() {
            assert(log2[k1] == e);
            if k2 < log.len() {
                assert(log2[k2] == log[k2]);
            }
            assert(false);
        } else {
            assert(log2[k2] == e);
            assert(k2 == log.len());
            assert(k1 < k2);
        }
    }
}

/// The predicate "is the `JobStarted` event of `id`", as a value.
pub open spec fn started_p(id: Seq<char>) -> spec_fn(ClientEvent) -> bool {
    |e: ClientEvent| ev_started_for(e, id)
}

pub open spec fn progress_p(id: Seq<char>) -> spec_fn(ClientEvent) -> bool {
    |e: ClientEvent| ev_progress_for(e, id)
}

pub open spec fn complete_p(id: Seq<char>) -> spec_fn(ClientEvent) -> bool {
    |e: ClientEvent| ev_complete_for(e, id)
}

pub open spec fn failed_p(id: Seq<char>) -> spec_fn(ClientEvent) -> bool {
    |e: ClientEvent| ev_failed_for(e, id)
}

pub open spec fn terminal_p(id: Seq<char>) -> spec_fn(ClientEvent) -> bool {
    |e: ClientEvent| ev_terminal_for(e, id)
}

/// The published history agrees with one report: a queued job has no
/// events yet; a running job has exactly its `JobStarted`; a finished job
/// has exactly one terminal event, of the kind its status names; and the
/// events stand in lifecycle order `Started`, then `Progress`, then the
/// terminal event.
pub open spec fn report_log_ok(log: Seq<ClientEvent>, r: JobReport) -> bool {
    let id = r.runner_id@;
    &&& count_matching(log, started_p(id)) == if r.status == JobStatus::Queued {
        0nat
    } else {
        1nat
    }
    &&& count_matching(log, complete_p(id)) == if r.status == JobStatus::Completed {
        1nat
    } else {
        0nat
    }
    &&& count_matching(log, failed_p(id)) == if r.status == JobStatus::Failed {
        1nat
    } else {
        0nat
    }
    &&& r.status == JobStatus::Queued ==> count_matching(log, progress_p(id)) == 0
    &&& precedes(log, started_p(id), progress_p(id))
    &&& precedes(log, started_p(id), terminal_p(id))
    &&& precedes(log, progress_p(id), terminal_p(id))
}

/// No event of `log` belongs to the runner named `id`.
pub open spec fn no_events_for(log: Seq<ClientEvent>, id: Seq<char>) -> bool {
    forall|k: int| 0 <= k < log.len() ==> #[trigger] ev_job_id(log[k]) != Some(id)
}

pub proof fn lemma_count_terminal_split(log: Seq<ClientEvent>, id: Seq<char>)
    ensures
        count_matching(log, terminal_p(id)) == count_matching(log, complete_p(id))
            + count_matching(log, failed_p(id)),
    decreases log.len(),
{
    if log.len() > 0 {
        lemma_count_terminal_split(log.drop_last(), id);
    }
}

/// A history with no events of `id` satisfies the protocol of a freshly
/// queued report with that id.
pub proof fn lemma_no_events_protocol(log: Seq<ClientEvent>, id: Seq<char>)
    requires
        no_events_for(log, id),
    ensures
        count_matching(log, started_p(id)) == 0,
        count_matching(log, progress_p(id)) == 0,
        count_matching(log, complete_p(id)) == 0,
        count_matching(log, failed_p(id)) == 0,
        precedes(log, started_p(id), progress_p(id)),
        precedes(log, started_p(id), terminal_p(id)),
        precedes(log, progress_p(id), terminal_p(id)),
{
    assert forall|k: int| 0 <= k < log.len() implies !#[trigger] started_p(id)(log[k]) by {
        assert(ev_job_id(log[k]) != Some(id));
    }
    assert forall|k: int| 0 <= k < log.len() implies !#[trigger] progress_p(id)(log[k]) by {
        assert(ev_job_id(log[k]) != Some(id));
    }
    assert forall|k: int| 0 <= k < log.len() implies !#[trigger] complete_p(id)(log[k]) by {
        assert(ev_job_id(log[k]) != Some(id));
    }
    assert forall|k: int| 0 <= k < log.len() implies !#[trigger] failed_p(id)(log[k]) by {
        assert(ev_job_id(log[k]) != Some(id));
    }
    lemma_count_from_none(log, started_p(id));
    lemma_count_from_none(log, progress_p(id));
    lemma_count_from_none(log, complete_p(id));
    lemma_count_from_none(log, failed_p(id));
}

/// Publishing an event of a different runner leaves a report's protocol
/// intact.
pub proof fn lemma_report_log_ok_push_other(log: Seq<ClientEvent>, r: JobReport, e: ClientEvent)
    requires
        report_log_ok(log, r),
        ev_job_id(e) != Some(r.runner_id@),
    ensures
        report_log_ok(log.push(e), r),
{
    let id = r.runner_id@;
    lemma_count_push(log, started_p(id), e);
    lemma_count_push(log, progress_p(id), e);
    lemma_count_push(log, complete_p(id), e);
    lemma_count_push(log, failed_p(id), e);
    lemma_precedes_push(log, started_p(id), progress_p(id), e);
    lemma_precedes_push(log, started_p(id), terminal_p(id), e);
    lemma_precedes_push(log, progress_p(id), terminal_p(id), e);
}

/// Publishing the `JobStarted` event moves a report's protocol from
/// `Queued` to `Running`.
pub proof fn lemma_report_log_ok_push_started(
    log: Seq<ClientEvent>,
    r0: JobReport,
    r1: JobReport,
    e: ClientEvent,
)
    requires
        report_log_ok(log, r0),
        r0.status == JobStatus::Queued,
        r1.status == JobStatus::Running,
        r1.runner_id@ == r0.runner_id@,
        ev_started_for(e, r0.runner_id@),
    ensures
        report_log_ok(log.push(e), r1),
{
    let id = r0.runner_id@;
    lemma_count_push(log, started_p(id), e);
    lemma_count_push(log, complete_p(id), e);
    lemma_count_push(log, failed_p(id), e);
    lemma_count_terminal_split(log, id);
    lemma_precedes_push(log, started_p(id), progress_p(id), e);
    lemma_precedes_push(log, started_p(id), terminal_p(id), e);
    lemma_precedes_push(log, progress_p(id), terminal_p(id), e);
}

/// Publishing a `JobProgress` event keeps a running report's protocol.
pub proof fn lemma_report_log_ok_push_progress(
    log: Seq<ClientEvent>,
    r0: JobReport,
    r1: JobReport,
    e: ClientEvent,
)
    requires
        report_log_ok(log, r0),
        r0.status == JobStatus::Running,
        r1.status == JobStatus::Running,
        r1.runner_id@ == r0.runner_id@,
        ev_progress_for(e, r0.runner_id@),
    ensures
        report_log_ok(log.push(e), r1),
{
    let id = r0.runner_id@;
    lemma_count_push(log, started_p(id), e);
    lemma_count_push(log, complete_p(id), e);
    lemma_count_push(log, failed_p(id), e);
    lemma_count_terminal_split(log, id);
    lemma_precedes_push(log, started_p(id), progress_p(id), e);
    lemma_precedes_push(log, started_p(id), terminal_p(id), e);
    lemma_precedes_push(log, progress_p(id), terminal_p(id), e);
}

/// Publishing the terminal event moves a running report's protocol to its
/// terminal status.
pub proof fn lemma_report_log_ok_push_terminal(
    log: Seq<ClientEvent>,
    r0: JobReport,
    r1: JobReport,
    e: ClientEvent,
)
    requires
        report_log_ok(log, r0),
        r0.status == JobStatus::Running,
        r1.status.is_terminal(),
        r1.runner_id@ == r0.runner_id@,
        r1.status == JobStatus::Completed ==> ev_complete_for(e, r0.runner_id@) && !ev_failed_for(
            e,
            r0.runner_id@,
        ),
        r1.status == JobStatus::Failed ==> ev_failed_for(e, r0.runner_id@) && !ev_complete_for(
            e,
            r0.runner_id@,
        ),
    ensures
        report_log_ok(log.push(e), r1),
{
    let id = r0.runner_id@;
    lemma_count_push(log, started_p(id), e);
    lemma_count_push(log, complete_p(id), e);
    lemma_count_push(log, failed_p(id), e);
    lemma_precedes_push(log, started_p(id), progress_p(id), e);
    lemma_precedes_push(log, started_p(id), terminal_p(id), e);
    lemma_precedes_push(log, progress_p(id), terminal_p(id), e);
}

/// Cross-job first-in-first-out ordering: every `JobStarted` of runner
/// `id_b` comes after some terminal event of runner `id_a`.
pub open spec fn started_after_terminal(
    log: Seq<ClientEvent>,
    id_a: Seq<char>,
    id_b: Seq<char>,
) -> bool {
    forall|k2: int|
        0 <= k2 < log.len() && #[trigger] ev_started_for(log[k2], id_b) ==> exists|k1: int|
            0 <= k1 < k2 && #[trigger] ev_terminal_for(log[k1], id_a)
}

/// With no `JobStarted` of `id_b` anywhere, the ordering holds vacuously.
pub proof fn lemma_sat_vacuous(log: Seq<ClientEvent>, id_a: Seq<char>, id_b: Seq<char>)
    requires
        count_matching(log, started_p(id_b)) == 0,
    ensures
        started_after_terminal(log, id_a, id_b),
{
    lemma_count_zero(log, started_p(id_b));
    assert forall|k2: int|
        0 <= k2 < log.len() && #[trigger] ev_started_for(log[k2], id_b) implies exists|k1: int|
        0 <= k1 < k2 && #[trigger] ev_terminal_for(log[k1], id_a) by {
        assert(!started_p(id_b)(log[k2]));
        assert(false);
    }
}

pub proof fn lemma_sat_push_other(
    log: Seq<ClientEvent>,
    id_a: Seq<char>,
    id_b: Seq<char>,
    e: ClientEvent,
)
    requires
        started_after_terminal(log, id_a, id_b),
        !ev_started_for(e, id_b),
    ensures
        started_after_terminal(log.push(e), id_a, id_b),
{
    let log2 = log.push(e);
    assert forall|k2: int|
        0 <= k2 < log2.len() && #[trigger] ev_started_for(log2[k2], id_b) implies exists|k1: int|
        0 <= k1 < k2 && #[trigger] ev_terminal_for(log2[k1], id_a) by {
        assert(k2 < log.len());
        assert(log2[k2] == log[k2]);
        let k1 = choose|k1: int| 0 <= k1 < k2 && #[trigger] ev_terminal_for(log[k1], id_a);
        assert(log2[k1] == log[k1]);
        assert(ev_terminal_for(log2[k1], id_a));
    }
}

} // verus!
