use relay::models::{
    CompleteJobRequest, JobStatus, Priority, ResourceRequirements, SubmitJobRequest, WorkerCapacity,
    WorkerRegisterRequest,
};
use relay::scheduler::{Scheduler, SchedulerConfig};
use relay::store::{CompleteJobOutcome, Store};
use relay::string_map::StringMap;

/// The wall clock in milliseconds, as the scheduler reads it.
fn now_ms() -> i64 {
    chrono::Utc::now().timestamp_millis()
}

fn request(command: &str, name: &str, max_retries: u32, timeout: Option<u64>) -> SubmitJobRequest {
    SubmitJobRequest {
        command: command.to_string(),
        args: vec![],
        cwd: None,
        env: StringMap::new(),
        priority: Priority::Normal,
        max_retries,
        timeout_seconds: timeout,
        resources: ResourceRequirements::default(),
        depends_on: vec![],
        name: Some(name.to_string()),
    }
}

fn capacity(cpus: u32, memory_mb: u64) -> WorkerCapacity {
    WorkerCapacity { cpus, memory_mb, labels: StringMap::new() }
}

fn register(scheduler: &mut Scheduler, id: &str) {
    scheduler
        .register_worker(WorkerRegisterRequest {
            worker_id: id.to_string(),
            cpus: 4,
            memory_mb: 4096,
            labels: StringMap::new(),
        })
        .unwrap();
}

#[test]
fn test_cancellation_race_condition() {
    let mut scheduler = Scheduler::new(
        Store::new(),
        SchedulerConfig { heartbeat_timeout_ms: 5_000, default_lease_duration_ms: 10_000, reap_interval_ms: 1_000 },
    );

    let submit_resp = scheduler.submit_job(request("sleep 10", "test-cancel-race", 3, Some(30))).unwrap();
    let job_id = submit_resp.job_id;

    let claimed = scheduler.store_mut().claim_jobs("worker-1", &capacity(4, 4096), 1, 10_000).unwrap();
    assert_eq!(claimed.len(), 1);
    let (claimed_job, attempt) = &claimed[0];
    assert_eq!(claimed_job.id, job_id);
    let attempt_id = attempt.id.clone();

    let job_before_cancel = scheduler.store().get_job(&job_id).unwrap().unwrap();
    assert_eq!(job_before_cancel.status, JobStatus::Assigned);
    assert_eq!(job_before_cancel.current_attempt_id.as_deref(), Some(attempt_id.as_str()));

    let cancelled_job = scheduler.store_mut().cancel_job(&job_id).unwrap();
    assert_eq!(cancelled_job.status, JobStatus::Cancelled);
    assert_eq!(cancelled_job.current_attempt_id, None);
    assert_eq!(cancelled_job.worker_id, None);

    let job_after_cancel = scheduler.store().get_job(&job_id).unwrap().unwrap();
    assert_eq!(job_after_cancel.status, JobStatus::Cancelled);
    assert_eq!(job_after_cancel.current_attempt_id, None);

    let outcome = scheduler
        .store_mut()
        .complete_job(&job_id, &attempt_id, 0, "finished late", "", 5000)
        .unwrap();

    assert!(matches!(outcome, CompleteJobOutcome::StaleAttemptIgnored));

    let final_job = scheduler.store().get_job(&job_id).unwrap().unwrap();
    assert_eq!(final_job.status, JobStatus::Cancelled);
    assert!(final_job.completed_at.is_some());
}

#[test]
fn test_dag_dependency_resolution() {
    let mut scheduler = Scheduler::new(Store::new(), SchedulerConfig::default());

    let job_a = scheduler.submit_job(request("echo 'step a'", "job-a", 1, None)).unwrap();
    let job_b = scheduler.submit_job(request("echo 'step b'", "job-b", 1, None)).unwrap();
    let mut req_c = request("echo 'step c'", "job-c", 1, None);
    req_c.priority = Priority::High;
    req_c.depends_on = vec![job_a.job_id.clone(), job_b.job_id.clone()];
    let job_c = scheduler.submit_job(req_c).unwrap();

    assert_eq!(job_a.status, JobStatus::Queued);
    assert_eq!(job_b.status, JobStatus::Queued);
    assert_eq!(job_c.status, JobStatus::Blocked);

    let cap = capacity(4, 4096);

    let claimed_a = scheduler.store_mut().claim_jobs("worker-01", &cap, 1, 30_000).unwrap();
    scheduler
        .complete_job(
            &job_a.job_id,
            CompleteJobRequest {
                attempt_id: claimed_a[0].1.id.clone(),
                exit_code: 0,
                stdout: "done a".to_string(),
                stderr: String::new(),
                runtime_ms: 100,
            },
        )
        .unwrap();

    let c_state = scheduler.store().get_job(&job_c.job_id).unwrap().unwrap();
    assert_eq!(c_state.status, JobStatus::Blocked);

    let claimed_b = scheduler.store_mut().claim_jobs("worker-01", &cap, 1, 30_000).unwrap();
    scheduler
        .complete_job(
            &job_b.job_id,
            CompleteJobRequest {
                attempt_id: claimed_b[0].1.id.clone(),
                exit_code: 0,
                stdout: "done b".to_string(),
                stderr: String::new(),
                runtime_ms: 100,
            },
        )
        .unwrap();

    let c_state_unblocked = scheduler.store().get_job(&job_c.job_id).unwrap().unwrap();
    assert_eq!(c_state_unblocked.status, JobStatus::Queued);
}

#[test]
fn test_lease_expiration_and_reassignment() {
    let mut scheduler = Scheduler::new(
        Store::new(),
        SchedulerConfig { heartbeat_timeout_ms: 500, default_lease_duration_ms: 800, reap_interval_ms: 100 },
    );

    register(&mut scheduler, "worker-a");
    register(&mut scheduler, "worker-b");

    let sub = scheduler.submit_job(request("echo 'lease test'", "lease-job", 3, Some(10))).unwrap();

    // Worker A claims the job with a 600 ms lease.
    let cap = capacity(4, 4096);
    let t0 = now_ms();
    let claimed_a = scheduler.store_mut().claim_jobs_at(t0, "worker-a", &cap, 1, 600).unwrap();
    assert_eq!(claimed_a.len(), 1);
    let (job_a, att_a) = &claimed_a[0];
    assert_eq!(job_a.id, sub.job_id);
    assert_eq!(att_a.attempt_number, 1);

    // Worker A stops renewing; 900 ms later the reaper finds the lease expired.
    scheduler.store_mut().reap_expired_leases_at(t0 + 900).unwrap();

    let job_reaped = scheduler.store().get_job(&sub.job_id).unwrap().unwrap();
    assert_eq!(job_reaped.status, JobStatus::Retrying);
    assert_eq!(job_reaped.retry_count, 1);

    // Once the backoff (2^1 = 2 seconds) has passed, worker B claims it.
    let claimed_b = scheduler
        .store_mut()
        .claim_jobs_at(t0 + 900 + 2200, "worker-b", &cap, 1, 10_000)
        .unwrap();
    assert_eq!(claimed_b.len(), 1);
    let (job_b, att_b) = &claimed_b[0];
    assert_eq!(job_b.id, sub.job_id);
    assert_eq!(att_b.attempt_number, 2);
    assert_eq!(job_b.worker_id.as_deref(), Some("worker-b"));
}

#[test]
fn test_scheduler_crash_recovery() {
    let job_id_1;
    let job_id_2;
    let tables;

    // Scheduler 1 runs, claims job 1 with a short lease, and stops.
    {
        let mut sched = Scheduler::new(Store::new(), SchedulerConfig::default());
        job_id_1 = sched.submit_job(request("echo 'job 1'", "recovery-job-1", 3, None)).unwrap().job_id;
        job_id_2 = sched.submit_job(request("echo 'job 2'", "recovery-job-2", 3, None)).unwrap().job_id;

        // The claim happened 400 ms before the restart, with a 200 ms lease.
        let _ = sched
            .store_mut()
            .claim_jobs_at(now_ms() - 400, "worker-crash", &capacity(2, 2048), 1, 200)
            .unwrap();

        let store = sched.store();
        tables = (store.jobs().clone(), store.attempts().clone(), store.workers().clone(), store.leases().clone());
    }

    // Scheduler 2 restarts on the same tables.
    let store2 = Store::from_tables(tables.0, tables.1, tables.2, tables.3).unwrap();
    let mut sched2 = Scheduler::new(store2, SchedulerConfig::default());
    sched2.recover_state().unwrap();

    let state_j1 = sched2.store().get_job(&job_id_1).unwrap().unwrap();
    assert_eq!(state_j1.status, JobStatus::Retrying);
    assert_eq!(state_j1.retry_count, 1);

    let state_j2 = sched2.store().get_job(&job_id_2).unwrap().unwrap();
    assert_eq!(state_j2.status, JobStatus::Queued);
}

#[test]
fn test_batch_single_large_job_saturation() {
    let mut scheduler = Scheduler::new(
        Store::new(),
        SchedulerConfig { heartbeat_timeout_ms: 5_000, default_lease_duration_ms: 10_000, reap_interval_ms: 1_000 },
    );

    for i in 0..3 {
        let mut req = request(&format!("echo job-{}", i), &format!("res-job-{}", i), 3, Some(30));
        req.resources = ResourceRequirements { cpus: 4, memory_mb: 2048, labels: StringMap::new() };
        scheduler.submit_job(req).unwrap();
    }

    let claimed = scheduler.store_mut().claim_jobs("worker-4cpu", &capacity(4, 4096), 4, 10_000).unwrap();
    assert_eq!(claimed.len(), 1, "A 4-CPU worker must not be assigned multiple 4-CPU jobs in a single batch");
}

#[test]
fn test_batch_multiple_fitting_jobs() {
    let mut scheduler = Scheduler::new(
        Store::new(),
        SchedulerConfig { heartbeat_timeout_ms: 5_000, default_lease_duration_ms: 10_000, reap_interval_ms: 1_000 },
    );

    let mut r1 = request("echo job-2cpu-1", "res-2cpu-1", 3, Some(30));
    r1.resources = ResourceRequirements { cpus: 2, memory_mb: 1024, labels: StringMap::new() };
    let j1 = scheduler.submit_job(r1).unwrap();

    let mut r2 = request("echo job-2cpu-2", "res-2cpu-2", 3, Some(30));
    r2.resources = ResourceRequirements { cpus: 2, memory_mb: 1024, labels: StringMap::new() };
    let j2 = scheduler.submit_job(r2).unwrap();

    let mut r3 = request("echo job-extra-4cpu", "res-extra", 3, Some(30));
    r3.resources = ResourceRequirements { cpus: 4, memory_mb: 1024, labels: StringMap::new() };
    let _j3 = scheduler.submit_job(r3).unwrap();

    let claimed_2cpu = scheduler.store_mut().claim_jobs("worker-4cpu", &capacity(4, 4096), 4, 10_000).unwrap();
    let claimed_ids: Vec<String> = claimed_2cpu.iter().map(|(j, _)| j.id.clone()).collect();

    assert_eq!(claimed_2cpu.len(), 2);
    assert!(claimed_ids.contains(&j1.job_id));
    assert!(claimed_ids.contains(&j2.job_id));
}

#[test]
fn test_max_retries_and_failure() {
    let mut scheduler = Scheduler::new(Store::new(), SchedulerConfig::default());

    // max_retries = 1: one retry, two attempts in all.
    let sub = scheduler.submit_job(request("exit 1", "retry-job", 1, None)).unwrap();
    let cap = capacity(1, 512);

    // Attempt 1
    let claimed_1 = scheduler.store_mut().claim_jobs("worker-1", &cap, 1, 10_000).unwrap();
    assert_eq!(claimed_1.len(), 1);
    let att_1_id = claimed_1[0].1.id.clone();

    let res_1 = scheduler
        .complete_job(
            &sub.job_id,
            CompleteJobRequest {
                attempt_id: att_1_id,
                exit_code: 1,
                stdout: String::new(),
                stderr: "crash 1".to_string(),
                runtime_ms: 50,
            },
        )
        .unwrap();

    assert_eq!(res_1.status, "retrying");
    let job_after_1 = scheduler.store().get_job(&sub.job_id).unwrap().unwrap();
    assert_eq!(job_after_1.status, JobStatus::Retrying);
    assert_eq!(job_after_1.retry_count, 1);

    // Attempt 2, once the backoff (2^1 = 2 seconds) has passed.
    let later = now_ms() + 2100;
    let claimed_2 = scheduler.store_mut().claim_jobs_at(later, "worker-1", &cap, 1, 10_000).unwrap();
    assert_eq!(claimed_2.len(), 1);
    let att_2_id = claimed_2[0].1.id.clone();

    let res_2 = scheduler
        .complete_job(
            &sub.job_id,
            CompleteJobRequest {
                attempt_id: att_2_id,
                exit_code: 1,
                stdout: String::new(),
                stderr: "crash 2".to_string(),
                runtime_ms: 50,
            },
        )
        .unwrap();

    assert_eq!(res_2.status, "accepted");

    // max_retries (1) is used up: the job has failed for good.
    let job_final = scheduler.store().get_job(&sub.job_id).unwrap().unwrap();
    assert_eq!(job_final.status, JobStatus::Failed);
    assert_eq!(job_final.exit_code, Some(1));
}

#[test]
fn test_stale_attempt_rejection() {
    let mut scheduler = Scheduler::new(
        Store::new(),
        SchedulerConfig { heartbeat_timeout_ms: 500, default_lease_duration_ms: 600, reap_interval_ms: 100 },
    );

    register(&mut scheduler, "worker-a");
    register(&mut scheduler, "worker-b");

    let sub = scheduler.submit_job(request("echo 'stale test'", "stale-job", 3, Some(10))).unwrap();
    let cap = capacity(4, 4096);

    // Worker A claims attempt 1 with a 500 ms lease.
    let t0 = now_ms();
    let claimed_a = scheduler.store_mut().claim_jobs_at(t0, "worker-a", &cap, 1, 500).unwrap();
    let (_job_a, att_a) = &claimed_a[0];
    let attempt_1_id = att_a.id.clone();

    // The lease expires and is reaped 800 ms later; then the backoff
    // (2^1 = 2 seconds) is waited out.
    scheduler.store_mut().reap_expired_leases_at(t0 + 800).unwrap();
    let t1 = t0 + 800 + 2200;

    // Worker B claims attempt 2.
    let claimed_b = scheduler.store_mut().claim_jobs_at(t1, "worker-b", &cap, 1, 10_000).unwrap();
    let (_, att_b) = &claimed_b[0];
    let attempt_2_id = att_b.id.clone();
    assert_ne!(attempt_1_id, attempt_2_id);

    // Worker A wakes up and reports attempt 1.
    let resp_a = scheduler
        .complete_job(
            &sub.job_id,
            CompleteJobRequest {
                attempt_id: attempt_1_id,
                exit_code: 0,
                stdout: "worker-a late output".to_string(),
                stderr: String::new(),
                runtime_ms: 1000,
            },
        )
        .unwrap();

    assert_eq!(resp_a.status, "stale_ignored");

    // The job still belongs to worker B.
    let job_mid = scheduler.store().get_job(&sub.job_id).unwrap().unwrap();
    assert_eq!(job_mid.status, JobStatus::Assigned);
    assert_eq!(job_mid.worker_id.as_deref(), Some("worker-b"));

    // Worker B reports attempt 2.
    let resp_b = scheduler
        .complete_job(
            &sub.job_id,
            CompleteJobRequest {
                attempt_id: attempt_2_id,
                exit_code: 0,
                stdout: "worker-b valid output".to_string(),
                stderr: String::new(),
                runtime_ms: 500,
            },
        )
        .unwrap();

    assert_eq!(resp_b.status, "accepted");
    let job_final = scheduler.store().get_job(&sub.job_id).unwrap().unwrap();
    assert_eq!(job_final.status, JobStatus::Succeeded);
    assert!(job_final.stdout.unwrap().contains("worker-b valid output"));
}
