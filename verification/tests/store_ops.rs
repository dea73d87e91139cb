use relay::models::{
    CompleteJobRequest, Job, JobAttempt, JobStatus, Lease, Priority, RenewLeaseRequest, ResourceRequirements,
    SubmitJobRequest, Worker, WorkerCapacity, WorkerPollRequest, WorkerRegisterRequest, WorkerStatus,
};
use relay::scheduler::{Scheduler, SchedulerConfig};
use relay::store::{CompleteJobOutcome, Store, StoreError};
use relay::string_map::StringMap;

const T0: i64 = 1_700_000_000_000;

fn job(id: &str, priority: Priority, status: JobStatus, created_at: i64) -> Job {
    Job {
        id: id.to_string(),
        name: None,
        command: "true".to_string(),
        args: vec![],
        cwd: None,
        env: StringMap::new(),
        priority,
        status,
        max_retries: 3,
        retry_count: 0,
        timeout_seconds: None,
        resources: ResourceRequirements::default(),
        depends_on: vec![],
        worker_id: None,
        current_attempt_id: None,
        created_at,
        started_at: None,
        completed_at: None,
        lease_expires_at: None,
        next_retry_at: None,
        exit_code: None,
        stdout: None,
        stderr: None,
        runtime_ms: None,
    }
}

fn worker(id: &str, last_heartbeat: i64) -> Worker {
    Worker {
        id: id.to_string(),
        cpus: 4,
        memory_mb: 4096,
        labels: StringMap::new(),
        status: WorkerStatus::Active,
        active_jobs: 0,
        last_heartbeat,
        registered_at: last_heartbeat,
    }
}

fn cap(cpus: u32, memory_mb: u64) -> WorkerCapacity {
    WorkerCapacity { cpus, memory_mb, labels: StringMap::new() }
}

fn is_hex_id(id: &str, prefix: &str) -> bool {
    id.len() == prefix.len() + 32
        && id.starts_with(prefix)
        && id[prefix.len()..].chars().all(|c| c.is_ascii_digit() || ('a'..='f').contains(&c))
}

#[test]
fn submitted_jobs_get_fresh_ids_and_the_clock() {
    let mut s = Scheduler::new(Store::new(), SchedulerConfig::default());
    let before = chrono::Utc::now().timestamp_millis();
    let resp = s
        .submit_job(SubmitJobRequest {
            command: "echo hi".to_string(),
            args: vec!["a".to_string()],
            cwd: None,
            env: StringMap::new(),
            priority: Priority::High,
            max_retries: 2,
            timeout_seconds: Some(7),
            resources: ResourceRequirements::default(),
            depends_on: vec![],
            name: Some("n".to_string()),
        })
        .unwrap();
    let after = chrono::Utc::now().timestamp_millis();
    assert!(is_hex_id(&resp.job_id, "job-"));
    assert_eq!(resp.status, JobStatus::Queued);
    let j = s.store().get_job(&resp.job_id).unwrap().unwrap();
    assert!(before <= j.created_at && j.created_at <= after);
    assert_eq!(j.priority, Priority::High);
    assert_eq!(j.retry_count, 0);
    assert_eq!(j.args, vec!["a".to_string()]);
}

#[test]
fn batch_submission_returns_ids_in_order() {
    let mut s = Scheduler::new(Store::new(), SchedulerConfig::default());
    let reqs = relay::cli::batch_requests("echo $RELAY_ARRAY_INDEX", 3, "HIGH");
    let resp = s.submit_batch(relay::models::BatchSubmitRequest { jobs: reqs }).unwrap();
    assert_eq!(resp.count, 3);
    assert_eq!(resp.job_ids.len(), 3);
    for (i, id) in resp.job_ids.iter().enumerate() {
        let j = s.store().get_job(id).unwrap().unwrap();
        assert_eq!(j.name, Some(format!("batch-3-job-{}", i)));
        assert_eq!(j.priority, Priority::High);
        assert_eq!(j.env.get("RELAY_ARRAY_INDEX"), Some(&i.to_string()));
    }
}

#[test]
fn claim_prefers_aged_jobs() {
    // A low-priority job that has waited five minutes outranks a fresh
    // high-priority one.
    let mut store = Store::new();
    store.save_job(&job("job-fresh-high", Priority::High, JobStatus::Queued, T0)).unwrap();
    store.save_job(&job("job-old-low", Priority::Low, JobStatus::Queued, T0 - 301_000)).unwrap();
    let claimed = store.claim_jobs_at(T0, "w", &cap(1, 512), 1, 1000).unwrap();
    assert_eq!(claimed.len(), 1);
    assert_eq!(claimed[0].0.id, "job-old-low");

    // Without the wait, priority decides.
    let mut store = Store::new();
    store.save_job(&job("job-low", Priority::Low, JobStatus::Queued, T0)).unwrap();
    store.save_job(&job("job-high", Priority::High, JobStatus::Queued, T0)).unwrap();
    let claimed = store.claim_jobs_at(T0, "w", &cap(1, 512), 1, 1000).unwrap();
    assert_eq!(claimed[0].0.id, "job-high");
}

#[test]
fn claim_records_attempt_and_lease() {
    let mut store = Store::new();
    store.register_worker(&worker("w", T0)).unwrap();
    store.save_job(&job("job-1", Priority::Normal, JobStatus::Queued, T0)).unwrap();
    let claimed = store.claim_jobs_at(T0 + 5, "w", &cap(2, 1024), 3, 30_000).unwrap();
    assert_eq!(claimed.len(), 1);
    let (j, a) = &claimed[0];
    assert_eq!(j.status, JobStatus::Assigned);
    assert_eq!(j.worker_id.as_deref(), Some("w"));
    assert_eq!(j.started_at, Some(T0 + 5));
    assert_eq!(j.lease_expires_at, Some(T0 + 5 + 30_000));
    assert!(is_hex_id(&a.id, "att-"));
    assert_eq!(a.attempt_number, 1);
    assert_eq!(a.status, "RUNNING");
    assert_eq!(store.leases().len(), 1);
    assert_eq!(store.leases()[0].attempt_id, a.id);
    assert_eq!(store.leases()[0].expires_at, T0 + 5 + 30_000);
    assert_eq!(store.get_worker("w").unwrap().unwrap().active_jobs, 1);
    // Nothing is claimable any more.
    assert!(store.claim_jobs_at(T0 + 6, "w", &cap(2, 1024), 3, 30_000).unwrap().is_empty());
}

#[test]
fn claim_respects_labels_and_max_jobs() {
    let mut store = Store::new();
    let mut gpu_job = job("job-gpu", Priority::Normal, JobStatus::Queued, T0);
    gpu_job.resources.labels.insert("gpu".to_string(), "true".to_string());
    store.save_job(&gpu_job).unwrap();
    store.save_job(&job("job-a", Priority::Normal, JobStatus::Queued, T0 + 1)).unwrap();
    store.save_job(&job("job-b", Priority::Normal, JobStatus::Queued, T0 + 2)).unwrap();
    let claimed = store.claim_jobs_at(T0 + 10, "w", &cap(8, 8192), 1, 1000).unwrap();
    assert_eq!(claimed.len(), 1);
    assert_eq!(claimed[0].0.id, "job-a");
    let blocked = store.get_job("job-gpu").unwrap().unwrap();
    assert_eq!(blocked.status, JobStatus::Queued);
}

#[test]
fn retries_back_off_exponentially() {
    let mut store = Store::new();
    let mut j = job("job-r", Priority::Normal, JobStatus::Queued, T0);
    j.max_retries = 3;
    store.save_job(&j).unwrap();

    let a1 = store.claim_jobs_at(T0, "w", &cap(1, 512), 1, 60_000).unwrap()[0].1.id.clone();
    let out = store.complete_job_at(T0 + 100, "job-r", &a1, 2, "", "boom", 10).unwrap();
    match out {
        CompleteJobOutcome::Retrying(j) => {
            assert_eq!(j.retry_count, 1);
            assert_eq!(j.next_retry_at, Some(T0 + 100 + 2_000));
        }
        other => panic!("unexpected outcome {:?}", other),
    }
    // Not claimable before the backoff has passed.
    assert!(store.claim_jobs_at(T0 + 2_099, "w", &cap(1, 512), 1, 60_000).unwrap().is_empty());
    let a2 = store.claim_jobs_at(T0 + 2_100, "w", &cap(1, 512), 1, 60_000).unwrap()[0].1.clone();
    assert_eq!(a2.attempt_number, 2);
    let out = store.complete_job_at(T0 + 3_000, "job-r", &a2.id, 2, "", "boom", 10).unwrap();
    match out {
        CompleteJobOutcome::Retrying(j) => {
            assert_eq!(j.retry_count, 2);
            assert_eq!(j.next_retry_at, Some(T0 + 3_000 + 4_000));
        }
        other => panic!("unexpected outcome {:?}", other),
    }
}

#[test]
fn success_records_output_and_releases_worker() {
    let mut store = Store::new();
    store.register_worker(&worker("w", T0)).unwrap();
    store.save_job(&job("job-s", Priority::Normal, JobStatus::Queued, T0)).unwrap();
    let a = store.claim_jobs_at(T0, "w", &cap(1, 512), 1, 60_000).unwrap()[0].1.id.clone();
    let out = store.complete_job_at(T0 + 500, "job-s", &a, 0, "out", "err", 42).unwrap();
    match out {
        CompleteJobOutcome::Accepted(j) => {
            assert_eq!(j.status, JobStatus::Succeeded);
            assert_eq!(j.exit_code, Some(0));
            assert_eq!(j.stdout.as_deref(), Some("out"));
            assert_eq!(j.completed_at, Some(T0 + 500));
        }
        other => panic!("unexpected outcome {:?}", other),
    }
    assert!(store.leases().is_empty());
    assert_eq!(store.get_worker("w").unwrap().unwrap().active_jobs, 0);
    let attempt = &store.attempts()[0];
    assert_eq!(attempt.status, "SUCCEEDED");
    assert_eq!(attempt.exit_code, Some(0));
    assert_eq!(attempt.runtime_ms, Some(42));
    // A second report of the same attempt is stale.
    let again = store.complete_job_at(T0 + 600, "job-s", &a, 1, "", "", 1).unwrap();
    assert!(matches!(again, CompleteJobOutcome::StaleAttemptIgnored));
    assert_eq!(store.get_job("job-s").unwrap().unwrap().status, JobStatus::Succeeded);
}

#[test]
fn final_failure_cancels_blocked_dependents() {
    let mut store = Store::new();
    let mut parent = job("job-p", Priority::Normal, JobStatus::Queued, T0);
    parent.max_retries = 0;
    store.save_job(&parent).unwrap();
    let mut child = job("job-c", Priority::Normal, JobStatus::Blocked, T0);
    child.depends_on = vec!["job-p".to_string()];
    store.save_job(&child).unwrap();
    let a = store.claim_jobs_at(T0, "w", &cap(1, 512), 5, 60_000).unwrap();
    assert_eq!(a.len(), 1);
    let out = store.complete_job_at(T0 + 1, "job-p", &a[0].1.id, 3, "", "", 1).unwrap();
    assert!(matches!(out, CompleteJobOutcome::Accepted(_)));
    assert_eq!(store.get_job("job-p").unwrap().unwrap().status, JobStatus::Failed);
    assert_eq!(store.get_job("job-c").unwrap().unwrap().status, JobStatus::Cancelled);
}

#[test]
fn cancel_of_finished_job_changes_nothing() {
    let mut store = Store::new();
    store.save_job(&job("job-done", Priority::Normal, JobStatus::Succeeded, T0)).unwrap();
    let j = store.cancel_job_at(T0 + 1, "job-done").unwrap();
    assert_eq!(j.status, JobStatus::Succeeded);
    assert_eq!(store.get_job("job-done").unwrap().unwrap().completed_at, None);
}

#[test]
fn unknown_jobs_are_errors() {
    let mut store = Store::new();
    match store.cancel_job_at(T0, "job-missing") {
        Err(StoreError::JobNotFound(id)) => assert_eq!(id, "job-missing"),
        other => panic!("unexpected {:?}", other),
    }
    match store.complete_job_at(T0, "job-missing", "att-x", 0, "", "", 0) {
        Err(e @ StoreError::JobNotFound(_)) => assert_eq!(e.message(), "Job not found: job-missing"),
        other => panic!("unexpected {:?}", other),
    }
}

#[test]
fn renewal_by_holder_extends_and_others_are_refused() {
    let mut store = Store::new();
    store.save_job(&job("job-l", Priority::Normal, JobStatus::Queued, T0)).unwrap();
    let a = store.claim_jobs_at(T0, "w", &cap(1, 512), 1, 1_000).unwrap()[0].1.id.clone();
    assert_eq!(store.renew_lease_at(T0 + 500, "job-l", &a, 2_000).unwrap(), T0 + 2_500);
    let j = store.get_job("job-l").unwrap().unwrap();
    assert_eq!(j.status, JobStatus::Running);
    assert_eq!(j.lease_expires_at, Some(T0 + 2_500));
    // The renewed lease survives a reaping pass before its new deadline.
    assert!(store.reap_expired_leases_at(T0 + 2_000).unwrap().is_empty());
    match store.renew_lease_at(T0 + 600, "job-l", "att-other", 2_000) {
        Err(e @ StoreError::InvalidTransition(_)) => assert_eq!(
            e.message(),
            "Invalid state transition: Cannot renew lease: lease for job job-l with attempt att-other not found or expired"
        ),
        other => panic!("unexpected {:?}", other),
    }
}

#[test]
fn reaping_requeues_or_fails_expired_jobs() {
    let mut store = Store::new();
    store.register_worker(&worker("w", T0)).unwrap();
    store.save_job(&job("job-retry", Priority::Normal, JobStatus::Queued, T0)).unwrap();
    let mut last = job("job-last", Priority::Normal, JobStatus::Queued, T0 + 1);
    last.max_retries = 0;
    store.save_job(&last).unwrap();
    let claimed = store.claim_jobs_at(T0, "w", &cap(2, 1024), 2, 1_000).unwrap();
    assert_eq!(claimed.len(), 2);
    assert_eq!(store.get_worker("w").unwrap().unwrap().active_jobs, 2);

    let report = store.reap_expired_leases_at(T0 + 1_001).unwrap();
    assert_eq!(report.len(), 2);
    assert!(store.leases().is_empty());
    let r = store.get_job("job-retry").unwrap().unwrap();
    assert_eq!(r.status, JobStatus::Retrying);
    assert_eq!(r.retry_count, 1);
    assert_eq!(r.worker_id, None);
    assert_eq!(r.next_retry_at, Some(T0 + 1_001 + 2_000));
    let f = store.get_job("job-last").unwrap().unwrap();
    assert_eq!(f.status, JobStatus::Failed);
    assert!(store.attempts().iter().all(|a| a.status == "LOST"));
    assert_eq!(store.get_worker("w").unwrap().unwrap().active_jobs, 0);
}

#[test]
fn silent_workers_are_marked_unavailable() {
    let mut store = Store::new();
    store.register_worker(&worker("quiet", T0)).unwrap();
    store.register_worker(&worker("chatty", T0)).unwrap();
    assert_eq!(store.worker_heartbeat_at(T0 + 10_000, "chatty").unwrap(), true);
    assert_eq!(store.worker_heartbeat_at(T0 + 10_000, "nobody").unwrap(), false);
    let dead = store.reap_dead_workers_at(T0 + 16_000, 15_000).unwrap();
    assert_eq!(dead, vec!["quiet".to_string()]);
    assert_eq!(store.get_worker("quiet").unwrap().unwrap().status, WorkerStatus::Unavailable);
    assert_eq!(store.get_worker("chatty").unwrap().unwrap().status, WorkerStatus::Active);
    // A heartbeat brings the worker back.
    store.worker_heartbeat_at(T0 + 17_000, "quiet").unwrap();
    assert_eq!(store.get_worker("quiet").unwrap().unwrap().status, WorkerStatus::Active);
}

#[test]
fn reregistration_keeps_registration_time() {
    let mut store = Store::new();
    store.register_worker(&worker("w", T0)).unwrap();
    let mut again = worker("w", T0 + 50);
    again.registered_at = T0 + 50;
    again.cpus = 16;
    store.register_worker(&again).unwrap();
    let w = store.get_worker("w").unwrap().unwrap();
    assert_eq!(w.cpus, 16);
    assert_eq!(w.registered_at, T0);
    assert_eq!(w.last_heartbeat, T0 + 50);
    assert_eq!(store.workers().len(), 1);
}

#[test]
fn listing_is_newest_first_and_filtered() {
    let mut store = Store::new();
    store.save_job(&job("job-1", Priority::Normal, JobStatus::Queued, T0)).unwrap();
    store.save_job(&job("job-2", Priority::Normal, JobStatus::Failed, T0 + 1)).unwrap();
    store.save_job(&job("job-3", Priority::Normal, JobStatus::Queued, T0 + 2)).unwrap();
    let all: Vec<String> = store.list_jobs(None, 10).unwrap().into_iter().map(|j| j.id).collect();
    assert_eq!(all, vec!["job-3", "job-2", "job-1"]);
    let queued: Vec<String> =
        store.list_jobs(Some(JobStatus::Queued), 1).unwrap().into_iter().map(|j| j.id).collect();
    assert_eq!(queued, vec!["job-3"]);
    store.register_worker(&worker("late", T0 + 5)).unwrap();
    store.register_worker(&worker("early", T0)).unwrap();
    let ws: Vec<String> = store.list_workers().unwrap().into_iter().map(|w| w.id).collect();
    assert_eq!(ws, vec!["early", "late"]);
}

#[test]
fn metrics_count_every_job_once() {
    let mut store = Store::new();
    store.save_job(&job("job-q", Priority::Normal, JobStatus::Queued, T0)).unwrap();
    store.save_job(&job("job-b", Priority::Normal, JobStatus::Blocked, T0)).unwrap();
    store.save_job(&job("job-f", Priority::Normal, JobStatus::Failed, T0)).unwrap();
    store.register_worker(&worker("w", T0)).unwrap();
    let m = store.get_metrics().unwrap();
    assert_eq!(m.jobs_queued, 1);
    assert_eq!(m.jobs_blocked, 1);
    assert_eq!(m.jobs_failed, 1);
    assert_eq!(m.total_jobs, 3);
    assert_eq!(
        m.jobs_queued + m.jobs_assigned + m.jobs_running + m.jobs_retrying + m.jobs_succeeded + m.jobs_failed
            + m.jobs_cancelled + m.jobs_blocked,
        m.total_jobs
    );
    assert_eq!(m.workers_active, 1);
    assert_eq!(m.workers_total, 1);
    assert_eq!(m.active_leases, 0);
}

#[test]
fn tables_with_duplicate_keys_are_refused() {
    let jobs = vec![job("job-x", Priority::Normal, JobStatus::Queued, T0), job("job-x", Priority::Low, JobStatus::Queued, T0)];
    assert!(Store::from_tables(jobs, vec![], vec![], vec![]).is_none());
    let leases = vec![
        Lease { job_id: "j".to_string(), attempt_id: "a".to_string(), worker_id: "w".to_string(), expires_at: T0 },
        Lease { job_id: "j".to_string(), attempt_id: "b".to_string(), worker_id: "w".to_string(), expires_at: T0 },
    ];
    assert!(Store::from_tables(vec![], vec![], vec![], leases).is_none());
    let attempts: Vec<JobAttempt> = vec![];
    assert!(Store::from_tables(vec![], attempts, vec![worker("w", T0)], vec![]).is_some());
}

#[test]
fn poll_hands_out_jobs_with_lease_seconds() {
    let mut s = Scheduler::new(
        Store::new(),
        SchedulerConfig { heartbeat_timeout_ms: 15_000, default_lease_duration_ms: 30_500, reap_interval_ms: 1_000 },
    );
    s.register_worker(WorkerRegisterRequest { worker_id: "w".to_string(), cpus: 2, memory_mb: 1024, labels: StringMap::new() })
        .unwrap();
    s.store_mut().save_job(&job("job-p", Priority::Normal, JobStatus::Queued, T0)).unwrap();
    let resp = s
        .poll_work("w", WorkerPollRequest { available_cpus: 2, available_memory_mb: 1024, labels: StringMap::new(), max_jobs: 4 })
        .unwrap();
    assert_eq!(resp.jobs.len(), 1);
    assert_eq!(resp.jobs[0].job.id, "job-p");
    assert_eq!(resp.jobs[0].lease_duration_seconds, 30);
    assert_eq!(Some(resp.jobs[0].attempt_id.clone()), resp.jobs[0].job.current_attempt_id);

    let renewed = s
        .renew_lease("job-p", RenewLeaseRequest { attempt_id: resp.jobs[0].attempt_id.clone(), duration_seconds: Some(60) })
        .unwrap();
    assert_eq!(renewed.status, "renewed");
    let too_long = s.renew_lease(
        "job-p",
        RenewLeaseRequest { attempt_id: resp.jobs[0].attempt_id.clone(), duration_seconds: Some(u64::MAX) },
    );
    assert!(matches!(too_long, Err(StoreError::InvalidTransition(_))));

    let done = s
        .complete_job(
            "job-p",
            CompleteJobRequest {
                attempt_id: resp.jobs[0].attempt_id.clone(),
                exit_code: 0,
                stdout: String::new(),
                stderr: String::new(),
                runtime_ms: 1,
            },
        )
        .unwrap();
    assert_eq!(done.status, "accepted");
    assert_eq!(done.message, None);
}

#[test]
fn stopping_the_scheduler() {
    let mut s = Scheduler::new(Store::new(), SchedulerConfig::default());
    assert!(s.is_running());
    assert_eq!(s.config().heartbeat_timeout_ms, 15_000);
    assert_eq!(s.config().default_lease_duration_ms, 30_000);
    assert_eq!(s.config().reap_interval_ms, 1_000);
    s.stop();
    assert!(!s.is_running());
    let (dead, reaped) = s.reap_once();
    assert!(dead.unwrap().is_empty());
    assert!(reaped.unwrap().is_empty());
}

#[test]
fn reaping_reports_failed_jobs_with_their_last_holder() {
    let mut store = Store::new();
    store.register_worker(&worker("w", T0)).unwrap();
    let mut last = job("job-last", Priority::Normal, JobStatus::Queued, T0);
    last.max_retries = 0;
    store.save_job(&last).unwrap();
    store.save_job(&job("job-retry", Priority::Normal, JobStatus::Queued, T0 + 1)).unwrap();
    let claimed = store.claim_jobs_at(T0, "w", &cap(2, 1024), 2, 1_000).unwrap();
    assert_eq!(claimed.len(), 2);
    let attempt_of_last = claimed.iter().find(|(j, _)| j.id == "job-last").unwrap().1.id.clone();

    let report = store.reap_expired_leases_at(T0 + 1_001).unwrap();
    assert_eq!(report.len(), 2);
    let (failed, holder) = report.iter().find(|(j, _)| j.id == "job-last").unwrap();
    assert_eq!(holder, "w");
    assert_eq!(failed.status, JobStatus::Failed);
    assert_eq!(failed.completed_at, Some(T0 + 1_001));
    // The report keeps what the job held; the stored job is freed.
    assert_eq!(failed.worker_id.as_deref(), Some("w"));
    assert_eq!(failed.current_attempt_id.as_deref(), Some(attempt_of_last.as_str()));
    assert_eq!(failed.lease_expires_at, Some(T0 + 1_000));
    let stored = store.get_job("job-last").unwrap().unwrap();
    assert_eq!(stored.worker_id, None);
    assert_eq!(stored.current_attempt_id, None);
    assert_eq!(stored.lease_expires_at, None);
    let (retried, _) = report.iter().find(|(j, _)| j.id == "job-retry").unwrap();
    assert_eq!(retried.status, JobStatus::Retrying);
    assert_eq!(retried.worker_id, None);
    assert_eq!(retried.current_attempt_id, None);
    assert_eq!(retried.next_retry_at, Some(T0 + 1_001 + 2_000));
    // A second pass at the same time finds nothing more to do.
    assert!(store.reap_expired_leases_at(T0 + 1_001).unwrap().is_empty());
    assert_eq!(format!("{:?}", store.get_job("job-last").unwrap().unwrap()), format!("{:?}", stored));
}

#[test]
fn selection_names_the_jobs_a_claim_takes() {
    let mut store = Store::new();
    store.save_job(&job("job-a", Priority::Normal, JobStatus::Queued, T0)).unwrap();
    store.save_job(&job("job-b", Priority::High, JobStatus::Queued, T0)).unwrap();
    store.save_job(&job("job-c", Priority::Normal, JobStatus::Succeeded, T0)).unwrap();
    let sel = store.select_claims(T0, &cap(8, 8192), 4);
    assert_eq!(sel, vec![1, 0]);
    assert_eq!(store.select_claims(T0, &cap(8, 8192), 1), vec![1]);
    assert!(store.select_claims(T0, &cap(8, 8192), 0).is_empty());
}

#[test]
fn claim_with_given_ids_uses_them_in_order() {
    let mut store = Store::new();
    store.register_worker(&worker("w", T0)).unwrap();
    store.save_job(&job("job-a", Priority::Normal, JobStatus::Queued, T0)).unwrap();
    store.save_job(&job("job-b", Priority::High, JobStatus::Queued, T0)).unwrap();
    let ids = vec!["att-first".to_string(), "att-second".to_string()];
    let claimed = store.claim_jobs_with_ids(T0, "w", &cap(8, 8192), 4, 5_000, ids).unwrap();
    assert_eq!(claimed.len(), 2);
    assert_eq!(claimed[0].0.id, "job-b");
    assert_eq!(claimed[0].1.id, "att-first");
    assert_eq!(claimed[1].0.id, "job-a");
    assert_eq!(claimed[1].1.id, "att-second");
    assert_eq!(claimed[1].0.current_attempt_id.as_deref(), Some("att-second"));
    assert_eq!(store.leases().len(), 2);
    assert_eq!(store.attempts().len(), 2);
}

#[test]
fn claim_with_a_taken_id_fails_and_changes_nothing() {
    let mut store = Store::new();
    store.register_worker(&worker("w", T0)).unwrap();
    store.save_job(&job("job-a", Priority::Normal, JobStatus::Queued, T0)).unwrap();
    let first = store.claim_jobs_with_ids(T0, "w", &cap(8, 8192), 1, 5_000, vec!["att-x".to_string()]).unwrap();
    assert_eq!(first.len(), 1);
    store.save_job(&job("job-b", Priority::Normal, JobStatus::Queued, T0)).unwrap();
    let jobs_before = format!("{:?}", store.jobs());
    let r = store.claim_jobs_with_ids(T0, "w", &cap(8, 8192), 1, 5_000, vec!["att-x".to_string()]);
    match r {
        Err(StoreError::Database(m)) => assert_eq!(m, "UNIQUE constraint failed: job_attempts.id"),
        other => panic!("unexpected {:?}", other),
    }
    assert_eq!(format!("{:?}", store.jobs()), jobs_before);
    assert_eq!(store.attempts().len(), 1);
    assert_eq!(store.leases().len(), 1);
}

#[test]
fn claim_with_a_repeated_id_fails() {
    let mut store = Store::new();
    store.save_job(&job("job-a", Priority::Normal, JobStatus::Queued, T0)).unwrap();
    store.save_job(&job("job-b", Priority::Normal, JobStatus::Queued, T0 + 1)).unwrap();
    let ids = vec!["att-same".to_string(), "att-same".to_string()];
    let r = store.claim_jobs_with_ids(T0, "w", &cap(8, 8192), 4, 5_000, ids);
    assert!(matches!(r, Err(StoreError::Database(_))));
    assert!(store.attempts().is_empty());
    assert_eq!(store.get_job("job-a").unwrap().unwrap().status, JobStatus::Queued);
}

fn leases_follow_jobs(store: &Store) -> bool {
    store.leases().iter().all(|l| {
        store.jobs().iter().any(|j| {
            j.id == l.job_id
                && (j.status == JobStatus::Assigned || j.status == JobStatus::Running)
                && j.current_attempt_id.as_deref() == Some(l.attempt_id.as_str())
                && j.worker_id.as_deref() == Some(l.worker_id.as_str())
        })
    })
}

fn jobs_out(store: &Store) -> usize {
    store.jobs().iter().filter(|j| j.status == JobStatus::Assigned || j.status == JobStatus::Running).count()
}

#[test]
fn leases_follow_their_jobs_through_a_run() {
    let mut store = Store::new();
    store.register_worker(&worker("w", T0)).unwrap();
    for (k, id) in ["job-a", "job-b", "job-c"].iter().enumerate() {
        store.save_job(&job(id, Priority::Normal, JobStatus::Queued, T0 + k as i64)).unwrap();
    }
    let claimed = store.claim_jobs_at(T0 + 10, "w", &cap(8, 8192), 3, 1_000).unwrap();
    assert_eq!(claimed.len(), 3);
    assert!(leases_follow_jobs(&store));
    assert_eq!(store.leases().len(), 3);
    assert!(store.leases().len() <= jobs_out(&store));

    let (a, att_a) = (&claimed[0].0.id, &claimed[0].1.id);
    assert_eq!(store.renew_lease_at(T0 + 20, a, att_a, 5_000).unwrap(), T0 + 5_020);
    assert_eq!(store.get_job(a).unwrap().unwrap().status, JobStatus::Running);
    assert!(leases_follow_jobs(&store));

    let (b, att_b) = (&claimed[1].0.id, &claimed[1].1.id);
    store.complete_job_at(T0 + 30, b, att_b, 0, "ok", "", 20).unwrap();
    assert!(leases_follow_jobs(&store));
    assert_eq!(store.leases().len(), 2);

    let c = &claimed[2].0.id;
    store.cancel_job_at(T0 + 40, c).unwrap();
    assert!(leases_follow_jobs(&store));
    assert_eq!(store.leases().len(), 1);

    // Only the renewed lease outlives the reaping.
    store.reap_expired_leases_at(T0 + 2_000).unwrap();
    assert!(leases_follow_jobs(&store));
    assert_eq!(store.leases().len(), 1);
    assert_eq!(store.leases()[0].job_id, *a);
    assert!(store.leases().len() <= jobs_out(&store));
}

#[test]
fn listing_puts_the_later_of_equal_times_first() {
    let mut store = Store::new();
    store.save_job(&job("job-first", Priority::Normal, JobStatus::Queued, T0)).unwrap();
    store.save_job(&job("job-second", Priority::Normal, JobStatus::Queued, T0)).unwrap();
    store.save_job(&job("job-older", Priority::Normal, JobStatus::Queued, T0 - 1)).unwrap();
    let all: Vec<String> = store.list_jobs(None, 10).unwrap().into_iter().map(|j| j.id).collect();
    assert_eq!(all, vec!["job-second", "job-first", "job-older"]);
}

#[test]
fn a_claimed_job_is_not_claimed_again_until_requeued() {
    let mut store = Store::new();
    store.register_worker(&worker("w", T0)).unwrap();
    store.save_job(&job("job-a", Priority::Normal, JobStatus::Queued, T0)).unwrap();
    let first = store.claim_jobs_at(T0, "w", &cap(4, 4096), 4, 1_000).unwrap();
    assert_eq!(first.len(), 1);
    assert_eq!(store.get_job("job-a").unwrap().unwrap().status, JobStatus::Assigned);
    assert!(store.claim_jobs_at(T0 + 1, "w", &cap(4, 4096), 4, 1_000).unwrap().is_empty());
    assert!(store.claim_jobs_at(T0 + 2, "v", &cap(4, 4096), 4, 1_000).unwrap().is_empty());
    // The lease runs out: the job waits for its retry, then is claimable again.
    store.reap_expired_leases_at(T0 + 1_001).unwrap();
    assert!(store.claim_jobs_at(T0 + 1_002, "v", &cap(4, 4096), 4, 1_000).unwrap().is_empty());
    let again = store.claim_jobs_at(T0 + 1_001 + 2_000, "v", &cap(4, 4096), 4, 1_000).unwrap();
    assert_eq!(again.len(), 1);
    assert_eq!(again[0].0.id, "job-a");
    assert_eq!(again[0].1.attempt_number, 2);
}

#[test]
fn saving_again_replaces_in_place() {
    let mut store = Store::new();
    store.save_job(&job("job-a", Priority::Normal, JobStatus::Queued, T0)).unwrap();
    let mut changed = job("job-a", Priority::High, JobStatus::Blocked, T0 + 50);
    changed.command = "false".to_string();
    store.save_job(&changed).unwrap();
    store.save_job(&changed).unwrap();
    assert_eq!(store.jobs().len(), 1);
    let j = store.get_job("job-a").unwrap().unwrap();
    assert_eq!(j.priority, Priority::High);
    assert_eq!(j.status, JobStatus::Blocked);
    assert_eq!(j.command, "false");
    assert_eq!(j.created_at, T0);
}
