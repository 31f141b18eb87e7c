use jobcore::event::ClientEvent;
use jobcore::report::JobStatus;
use jobcore::runner_id::u64_to_dec_string;

#[test]
fn job_started_snapshot_fields() {
    let e = ClientEvent::job_started("7".to_string(), 0, 3, Some("warming up".to_string()));
    match e {
        ClientEvent::JobStarted(u) => {
            assert_eq!(u.runner_id, "7");
            assert_eq!(u.current_task, 0);
            assert_eq!(u.task_count, 3);
            assert_eq!(u.message.as_deref(), Some("warming up"));
            assert_eq!(u.status, Some(JobStatus::Running));
        }
        other => panic!("expected JobStarted, got {:?}", other),
    }
}

#[test]
fn job_progress_snapshot_fields() {
    let e = ClientEvent::job_progress("9".to_string(), 2, 5, None);
    match e {
        ClientEvent::JobProgress(u) => {
            assert_eq!(u.runner_id, "9");
            assert_eq!(u.current_task, 2);
            assert_eq!(u.task_count, 5);
            assert_eq!(u.message, None);
            assert_eq!(u.status, Some(JobStatus::Running));
        }
        other => panic!("expected JobProgress, got {:?}", other),
    }
}

#[test]
fn event_duplicate_is_exact() {
    let e = ClientEvent::job_progress("3".to_string(), 1, 4, Some("copying".to_string()));
    match (e.duplicate(), e) {
        (ClientEvent::JobProgress(a), ClientEvent::JobProgress(b)) => {
            assert_eq!(a.runner_id, b.runner_id);
            assert_eq!(a.current_task, b.current_task);
            assert_eq!(a.task_count, b.task_count);
            assert_eq!(a.message, b.message);
        }
        _ => panic!("duplicate changed the variant"),
    }
}

#[test]
fn runner_ids_render_in_decimal() {
    assert_eq!(u64_to_dec_string(0), "0");
    assert_eq!(u64_to_dec_string(7), "7");
    assert_eq!(u64_to_dec_string(42), "42");
    assert_eq!(u64_to_dec_string(1234567890), "1234567890");
    assert_eq!(u64_to_dec_string(u64::MAX), "18446744073709551615");
}
