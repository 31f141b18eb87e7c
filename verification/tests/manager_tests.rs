use jobcore::event::ClientEvent;
use jobcore::event::ClientRequest;
use jobcore::event::ClientResponse;
use jobcore::job::Job;
use jobcore::manager::EventManager;
use jobcore::report::JobStatus;

fn job(name: &str, tasks: u64) -> Job {
    Job::new(name.to_string(), tasks)
}

#[test]
fn reports_empty_before_any_job() {
    let m = EventManager::new();
    assert_eq!(m.get_job_reports().len(), 0);
}

#[test]
fn reports_count_matches_queued_jobs() {
    let mut m = EventManager::new();
    m.queue_job(job("a", 2), 1);
    m.queue_job(job("b", 5), 2);
    m.queue_job(job("c", 1), 3);
    let reports = m.get_job_reports();
    assert_eq!(reports.len(), 3);
    // one running, the rest still queued, in queueing order
    assert_eq!(reports[0].status, JobStatus::Running);
    assert_eq!(reports[1].status, JobStatus::Queued);
    assert_eq!(reports[2].status, JobStatus::Queued);
    assert_eq!(reports[0].name, "a");
    assert_eq!(reports[1].name, "b");
    assert_eq!(reports[2].name, "c");
    assert_ne!(reports[0].runner_id, reports[1].runner_id);
    assert_ne!(reports[1].runner_id, reports[2].runner_id);
}

#[test]
fn scan_library_scenario_completes() {
    let mut m = EventManager::new();
    let sub = m.subscribe();
    m.queue_job(job("scan-library-1", 3), 10);
    m.on_job_progress(1, None);
    m.on_job_progress(2, None);
    m.on_job_finished(Ok("scanned".to_string()), 20);
    let evs = m.take_events(sub);
    assert_eq!(evs.len(), 4);
    let runner = match &evs[0] {
        ClientEvent::JobStarted(u) => {
            assert_eq!(u.current_task, 0);
            assert_eq!(u.task_count, 3);
            assert_eq!(u.status, Some(JobStatus::Running));
            u.runner_id.clone()
        }
        other => panic!("expected JobStarted, got {:?}", other),
    };
    match &evs[1] {
        ClientEvent::JobProgress(u) => {
            assert_eq!(u.runner_id, runner);
            assert_eq!(u.current_task, 1);
            assert_eq!(u.task_count, 3);
        }
        other => panic!("expected JobProgress, got {:?}", other),
    }
    match &evs[2] {
        ClientEvent::JobProgress(u) => {
            assert_eq!(u.current_task, 2);
        }
        other => panic!("expected JobProgress, got {:?}", other),
    }
    match &evs[3] {
        ClientEvent::JobComplete(id) => assert_eq!(*id, runner),
        other => panic!("expected JobComplete, got {:?}", other),
    }
    let reports = m.get_job_reports();
    assert_eq!(reports.len(), 1);
    assert_eq!(reports[0].status, JobStatus::Completed);
    assert_eq!(reports[0].current_task, 3);
    assert_eq!(reports[0].created_at, 10);
    assert_eq!(reports[0].completed_at, Some(20));
}

#[test]
fn failing_job_scenario() {
    let mut m = EventManager::new();
    let sub = m.subscribe();
    m.queue_job(job("scan", 3), 1);
    m.on_job_progress(1, None);
    m.on_job_finished(Err("disk vanished".to_string()), 2);
    let evs = m.take_events(sub);
    assert_eq!(evs.len(), 3);
    assert!(matches!(&evs[0], ClientEvent::JobStarted(_)));
    match &evs[1] {
        ClientEvent::JobProgress(u) => assert_eq!((u.current_task, u.task_count), (1, 3)),
        other => panic!("expected JobProgress, got {:?}", other),
    }
    match &evs[2] {
        ClientEvent::JobFailed(f) => assert_eq!(f.message, "disk vanished"),
        other => panic!("expected JobFailed, got {:?}", other),
    }
    let reports = m.get_job_reports();
    assert_eq!(reports[0].status, JobStatus::Failed);
    // not advanced past the failure point
    assert_eq!(reports[0].current_task, 1);
    assert_eq!(reports[0].message.as_deref(), Some("disk vanished"));
}

#[test]
fn coordinator_survives_failure() {
    let mut m = EventManager::new();
    m.queue_job(job("bad", 1), 1);
    m.on_job_finished(Err("panic: boom".to_string()), 2);
    // the mailbox stays responsive: a later job runs to completion
    let sub = m.subscribe();
    m.queue_job(job("good", 1), 3);
    m.on_job_finished(Ok("fine".to_string()), 4);
    let evs = m.take_events(sub);
    assert_eq!(evs.len(), 2);
    assert!(matches!(&evs[0], ClientEvent::JobStarted(_)));
    assert!(matches!(&evs[1], ClientEvent::JobComplete(_)));
    let reports = m.get_job_reports();
    assert_eq!(reports[0].status, JobStatus::Failed);
    assert_eq!(reports[1].status, JobStatus::Completed);
}

#[test]
fn fifo_second_job_starts_after_first_terminal() {
    let mut m = EventManager::new();
    let sub = m.subscribe();
    m.queue_job(job("a", 2), 1);
    m.queue_job(job("b", 1), 2);
    // b is only queued: no JobStarted for it yet
    let evs = m.take_events(sub);
    assert_eq!(evs.len(), 1);
    let a_id = match &evs[0] {
        ClientEvent::JobStarted(u) => u.runner_id.clone(),
        other => panic!("expected JobStarted, got {:?}", other),
    };
    m.on_job_finished(Ok("done".to_string()), 3);
    let evs = m.take_events(sub);
    // a's terminal comes strictly before b's start
    assert_eq!(evs.len(), 2);
    match &evs[0] {
        ClientEvent::JobComplete(id) => assert_eq!(*id, a_id),
        other => panic!("expected JobComplete, got {:?}", other),
    }
    match &evs[1] {
        ClientEvent::JobStarted(u) => assert_ne!(u.runner_id, a_id),
        other => panic!("expected JobStarted, got {:?}", other),
    }
    m.on_job_finished(Ok("done".to_string()), 4);
    let reports = m.get_job_reports();
    assert_eq!(reports[0].status, JobStatus::Completed);
    assert_eq!(reports[1].status, JobStatus::Completed);
}

#[test]
fn late_subscribers_see_no_backlog() {
    let mut m = EventManager::new();
    m.queue_job(job("early", 1), 1);
    m.on_job_finished(Ok("done".to_string()), 2);
    // both subscribe after the job completed
    let s1 = m.subscribe();
    let s2 = m.subscribe();
    assert_eq!(m.take_events(s1).len(), 0);
    assert_eq!(m.take_events(s2).len(), 0);
    m.queue_job(job("late", 1), 3);
    let e1 = m.take_events(s1);
    let e2 = m.take_events(s2);
    assert_eq!(e1.len(), 1);
    assert_eq!(e2.len(), 1);
    assert!(matches!(&e1[0], ClientEvent::JobStarted(_)));
    assert!(matches!(&e2[0], ClientEvent::JobStarted(_)));
}

#[test]
fn events_delivered_at_most_once() {
    let mut m = EventManager::new();
    let sub = m.subscribe();
    m.queue_job(job("a", 1), 1);
    assert_eq!(m.take_events(sub).len(), 1);
    assert_eq!(m.take_events(sub).len(), 0);
}

#[test]
fn regressing_progress_is_ignored() {
    let mut m = EventManager::new();
    let sub = m.subscribe();
    m.queue_job(job("a", 3), 1);
    m.on_job_progress(2, None);
    m.on_job_progress(1, None); // would regress: ignored
    m.on_job_progress(9, None); // past task_count: ignored
    let reports = m.get_job_reports();
    assert_eq!(reports[0].current_task, 2);
    let evs = m.take_events(sub);
    assert_eq!(evs.len(), 2); // only the start and the one valid progress
}

#[test]
fn signals_without_running_job_are_ignored() {
    let mut m = EventManager::new();
    let sub = m.subscribe();
    m.on_job_progress(1, None);
    m.on_job_finished(Ok("ghost".to_string()), 1);
    assert_eq!(m.take_events(sub).len(), 0);
    assert_eq!(m.get_job_reports().len(), 0);
}

#[test]
fn handle_request_queue_and_query() {
    let mut m = EventManager::new();
    let none = m.handle_request(ClientRequest::QueueJob(job("a", 2)), 1);
    assert!(none.is_none());
    match m.handle_request(ClientRequest::GetJobReports, 2) {
        Some(ClientResponse::GetJobReports(reports)) => {
            assert_eq!(reports.len(), 1);
            assert_eq!(reports[0].status, JobStatus::Running);
        }
        None => panic!("expected a reports snapshot"),
    }
}

#[test]
fn domain_notifications_share_the_bus() {
    let mut m = EventManager::new();
    let sub = m.subscribe();
    m.notify_media_created("vol-1.cbz".to_string());
    m.notify_series_created("series-9".to_string());
    let evs = m.take_events(sub);
    assert_eq!(evs.len(), 2);
    match &evs[0] {
        ClientEvent::CreatedMedia(n) => assert_eq!(n, "vol-1.cbz"),
        other => panic!("expected CreatedMedia, got {:?}", other),
    }
    match &evs[1] {
        ClientEvent::CreatedSeries(n) => assert_eq!(n, "series-9"),
        other => panic!("expected CreatedSeries, got {:?}", other),
    }
    // job bookkeeping untouched
    assert_eq!(m.get_job_reports().len(), 0);
}

#[test]
fn unsubscribe_leaves_others_running() {
    let mut m = EventManager::new();
    let s1 = m.subscribe();
    let s2 = m.subscribe();
    m.unsubscribe(s1);
    m.queue_job(job("a", 1), 1);
    assert_eq!(m.take_events(s1).len(), 0);
    assert_eq!(m.take_events(s2).len(), 1);
}

#[test]
fn running_job_reflects_active_slot() {
    let mut m = EventManager::new();
    assert!(m.running_job().is_none());
    m.queue_job(job("a", 2), 1);
    let r = m.running_job().expect("a job should be running");
    assert_eq!(r.name, "a");
    assert_eq!(r.task_count, 2);
    m.on_job_finished(Ok("done".to_string()), 2);
    assert!(m.running_job().is_none());
}
