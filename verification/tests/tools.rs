use relay::api::{job_not_found, list_limit, status_filter};
use relay::benchmark::{all_jobs_finished, bench_job_request, bench_scheduler_config, bench_worker_config, BenchmarkConfig};
use relay::chaos::{chaos_job_request, chaos_scheduler_config, chaos_worker_config, chaos_worker_id, pick_victim, ChaosConfig, ChaosReport};
use relay::cli::{priority_or_normal, secs_in_ms, submit_request, ServerArgs, WorkerArgs};
use relay::models::{JobStatus, MetricsResponse, Priority, ResourceRequirements};
use relay::rows::{
    assemble_job, encode_attempt, encode_job, encode_lease, encode_worker, decode_attempt, decode_job, decode_lease, decode_worker, AttemptRow, JobColumns, JobRow, LeaseRow, WorkerRow,
};
use relay::store::StoreError;
use relay::text::{decimal2_string, decimal_string, decimal_u64, signed_decimal_string};
use relay::worker::{completion_report, log_head, log_tail, HeldResources, RunOutcome, WorkerConfig};

fn metrics(succeeded: usize, failed: usize) -> MetricsResponse {
    MetricsResponse {
        jobs_queued: 0,
        jobs_assigned: 0,
        jobs_running: 0,
        jobs_retrying: 0,
        jobs_succeeded: succeeded,
        jobs_failed: failed,
        jobs_cancelled: 0,
        jobs_blocked: 0,
        total_jobs: 0,
        workers_active: 0,
        workers_unavailable: 0,
        workers_total: 0,
        active_leases: 0,
    }
}

#[test]
fn numbers_in_decimal() {
    assert_eq!(decimal_string(0), "0");
    assert_eq!(decimal_string(7), "7");
    assert_eq!(decimal_string(10), "10");
    assert_eq!(decimal_string(1234567890), "1234567890");
    assert_eq!(decimal2_string(3), "03");
    assert_eq!(decimal2_string(12), "12");
    assert_eq!(decimal2_string(100), "100");
}

#[test]
fn worker_defaults_for_a_host() {
    let c = WorkerConfig::for_host(0, 100 * 1024 * 1024, "abcdef01");
    assert_eq!(c.worker_id, "worker-abcdef01");
    assert_eq!(c.cpus, 1);
    assert_eq!(c.memory_mb, 512);
    assert_eq!(c.scheduler_url, "http://127.0.0.1:8000");
    assert_eq!(c.poll_interval_ms, 100);
    assert_eq!(c.heartbeat_interval_ms, 3_000);
    assert_eq!(c.renew_interval_ms, 5_000);
    assert_eq!(c.output_dir, "o");
    assert!(!c.oneshot);
    assert_eq!(c.max_concurrent_jobs, 4);

    let big = WorkerConfig::for_host(16, 8 * 1024 * 1024 * 1024, "00000000");
    assert_eq!(big.cpus, 16);
    assert_eq!(big.memory_mb, 8192);

    let here = WorkerConfig::default();
    assert_eq!(here.worker_id.len(), 15);
    assert!(here.worker_id.starts_with("worker-"));
    assert!(here.memory_mb >= 512);
}

#[test]
fn worker_requests() {
    let mut c = WorkerConfig::for_host(8, 1 << 33, "12345678");
    c.labels.insert("zone".to_string(), "eu".to_string());
    assert!(c.poll_request(0, 0, 0).is_none());
    let r = c.poll_request(2, 0, 0).unwrap();
    assert_eq!(r.max_jobs, 2);
    assert_eq!(r.available_cpus, 8);
    assert_eq!(r.labels.get("zone"), Some(&"eu".to_string()));
    assert_eq!(c.poll_request(9, 0, 0).unwrap().max_jobs, 4);
    // Only the unallocated capacity is offered.
    let busy = c.poll_request(1, 3, 1024).unwrap();
    assert_eq!(busy.available_cpus, 5);
    assert_eq!(busy.available_memory_mb, 8192 - 1024);
    let over = c.poll_request(1, 20, 1 << 40).unwrap();
    assert_eq!(over.available_cpus, 0);
    assert_eq!(over.available_memory_mb, 0);
    let reg = c.registration();
    assert_eq!(reg.worker_id, "worker-12345678");
    assert_eq!(reg.memory_mb, 8192);
}

#[test]
fn command_line_settings() {
    assert_eq!(secs_in_ms(15), 15_000);
    assert_eq!(secs_in_ms(u64::MAX), u64::MAX);
    let server = ServerArgs {
        port: 8000,
        host: "127.0.0.1".to_string(),
        db: "relay.db".to_string(),
        heartbeat_timeout_secs: 15,
        lease_duration_secs: 30,
    };
    let sc = server.scheduler_config();
    assert_eq!(sc.heartbeat_timeout_ms, 15_000);
    assert_eq!(sc.default_lease_duration_ms, 30_000);
    assert_eq!(sc.reap_interval_ms, 1_000);

    let args = WorkerArgs {
        server: "http://sched:9000".to_string(),
        id: Some("worker-01".to_string()),
        cpus: None,
        ram: Some(2048),
        output_dir: "out".to_string(),
        oneshot: true,
        max_concurrency: 2,
    };
    let cfg = args.apply(WorkerConfig::for_host(4, 1 << 32, "aaaaaaaa"));
    assert_eq!(cfg.scheduler_url, "http://sched:9000");
    assert_eq!(cfg.worker_id, "worker-01");
    assert_eq!(cfg.cpus, 4);
    assert_eq!(cfg.memory_mb, 2048);
    assert_eq!(cfg.output_dir, "out");
    assert!(cfg.oneshot);
    assert_eq!(cfg.max_concurrent_jobs, 2);
}

#[test]
fn command_line_requests() {
    assert_eq!(priority_or_normal("Critical"), Priority::Critical);
    assert_eq!(priority_or_normal("bogus"), Priority::Normal);
    let r = submit_request("ls".to_string(), Some("n".to_string()), "low", 5, Some(9), 2, 1024, vec!["job-a".to_string()]);
    assert_eq!(r.command, "ls");
    assert_eq!(r.priority, Priority::Low);
    assert_eq!(r.max_retries, 5);
    assert_eq!(r.timeout_seconds, Some(9));
    assert_eq!(r.resources.cpus, 2);
    assert_eq!(r.resources.memory_mb, 1024);
    assert_eq!(r.depends_on, vec!["job-a".to_string()]);
    assert_eq!(r.name, Some("n".to_string()));
    let batch = relay::cli::batch_requests("echo", 12, "normal");
    assert_eq!(batch.len(), 12);
    assert_eq!(batch[11].name, Some("batch-12-job-11".to_string()));
    assert_eq!(batch[11].env.get("RELAY_ARRAY_INDEX"), Some(&"11".to_string()));
    assert_eq!(batch[0].max_retries, 3);
}

#[test]
fn benchmark_settings() {
    let c = BenchmarkConfig::default();
    assert_eq!(c.num_jobs, 1000);
    assert_eq!(c.num_workers, 8);
    let s = bench_scheduler_config();
    assert_eq!((s.heartbeat_timeout_ms, s.default_lease_duration_ms, s.reap_interval_ms), (10_000, 15_000, 500));
    let j = bench_job_request(42);
    assert_eq!(j.command, "true");
    assert_eq!(j.name, Some("bench-job-42".to_string()));
    assert_eq!(j.timeout_seconds, Some(5));
    let w = bench_worker_config(0, "http://x", WorkerConfig::for_host(2, 1 << 30, "bbbbbbbb"));
    assert_eq!(w.worker_id, "bench-worker-01");
    assert_eq!(w.poll_interval_ms, 5);
    assert_eq!(w.max_concurrent_jobs, 16);
    assert!(all_jobs_finished(&metrics(3, 2), 5));
    assert!(!all_jobs_finished(&metrics(3, 1), 5));
    assert!(all_jobs_finished(&metrics(usize::MAX, usize::MAX), 10));
}

#[test]
fn chaos_settings_and_report() {
    let c = ChaosConfig::default();
    assert_eq!((c.num_jobs, c.num_workers, c.duration_secs, c.kill_interval_secs), (50, 4, 30, 4));
    let s = chaos_scheduler_config();
    assert_eq!((s.heartbeat_timeout_ms, s.default_lease_duration_ms, s.reap_interval_ms), (1_500, 2_500, 500));
    let j = chaos_job_request(7);
    assert_eq!(j.command, "echo 'chaos job 7' && sleep 0.3");
    assert_eq!(j.name, Some("chaos-job-7".to_string()));
    assert_eq!(j.max_retries, 5);
    assert_eq!(chaos_worker_id(9), "chaos-worker-10");
    let w = chaos_worker_config("chaos-worker-01".to_string(), "http://y", WorkerConfig::for_host(2, 1 << 30, "cccccccc"));
    assert_eq!((w.heartbeat_interval_ms, w.renew_interval_ms, w.poll_interval_ms), (500, 800, 200));

    let lost = ChaosReport::from_metrics(&c, &metrics(40, 5), 3, 12_345);
    assert_eq!(lost.jobs_lost, 5);
    assert!(!lost.success);
    assert_eq!(lost.workers_killed, 3);
    assert_eq!(lost.total_duration_ms, 12_345);
    let clean = ChaosReport::from_metrics(&c, &metrics(45, 5), 0, 1);
    assert_eq!(clean.jobs_lost, 0);
    assert!(clean.success);

    for _ in 0..20 {
        assert!(pick_victim(3) < 3);
    }
    assert_eq!(pick_victim(1), 0);
}

#[test]
fn api_decisions() {
    assert_eq!(status_filter(Some("retrying".to_string())), Some(JobStatus::Retrying));
    assert_eq!(status_filter(Some("nonsense".to_string())), None);
    assert_eq!(status_filter(None), None);
    assert_eq!(list_limit(None), 100);
    assert_eq!(list_limit(Some(5)), 5);
    assert_eq!(job_not_found("job-9"), "Job job-9 not found");
    assert_eq!(StoreError::InvalidTransition("x".to_string()).message(), "Invalid state transition: x");
    assert_eq!(StoreError::Database("d".to_string()).message(), "Database error: d");
    assert_eq!(StoreError::WorkerNotFound("w".to_string()).message(), "Worker not found: w");
    assert_eq!(StoreError::Serialization("s".to_string()).message(), "Serialization error: s");
    assert_eq!(Priority::High.name_str(), "high");
}

fn job_row() -> JobRow {
    JobRow {
        id: "job-1".to_string(),
        name: Some("one".to_string()),
        command: "echo".to_string(),
        args: "[\"a\",\"b\"]".to_string(),
        cwd: None,
        env: "{\"K\":\"V\",\"A\":\"B\"}".to_string(),
        priority: 3,
        status: "RETRYING".to_string(),
        max_retries: 4,
        retry_count: 1,
        timeout_seconds: Some(30),
        depends_on: "not json".to_string(),
        worker_id: None,
        current_attempt_id: None,
        created_at: "2024-01-01T00:00:00Z".to_string(),
        started_at: Some("2024-01-01T00:00:01.500+00:00".to_string()),
        completed_at: Some("yesterday".to_string()),
        lease_expires_at: None,
        next_retry_at: None,
        exit_code: Some(2),
        stdout: None,
        stderr: None,
        runtime_ms: Some(7),
    }
}

#[test]
fn rows_are_read_back() {
    let j = decode_job(job_row(), ResourceRequirements::default(), 99);
    assert_eq!(j.args, vec!["a".to_string(), "b".to_string()]);
    assert_eq!(j.env.get("K"), Some(&"V".to_string()));
    assert_eq!(j.env.get("A"), Some(&"B".to_string()));
    assert_eq!(j.priority, Priority::High);
    assert_eq!(j.status, JobStatus::Retrying);
    assert_eq!(j.max_retries, 4);
    assert!(j.depends_on.is_empty());
    assert_eq!(j.created_at, 1_704_067_200_000);
    assert_eq!(j.started_at, Some(1_704_067_201_500));
    assert_eq!(j.completed_at, None);
    assert_eq!(j.runtime_ms, Some(7));

    let mut bad = job_row();
    bad.status = "weird".to_string();
    bad.priority = 9;
    bad.created_at = "".to_string();
    let j = decode_job(bad, ResourceRequirements::default(), 99);
    assert_eq!(j.status, JobStatus::Queued);
    assert_eq!(j.priority, Priority::Normal);
    assert_eq!(j.created_at, 99);

    let w = decode_worker(
        WorkerRow {
            id: "w".to_string(),
            cpus: 4,
            memory_mb: 2048,
            labels: "{}".to_string(),
            status: "GONE".to_string(),
            active_jobs: 1,
            last_heartbeat: "2024-01-01T00:00:00Z".to_string(),
            registered_at: "?".to_string(),
        },
        5,
    );
    assert_eq!(w.status, relay::models::WorkerStatus::Dead);
    assert_eq!(w.last_heartbeat, 1_704_067_200_000);
    assert_eq!(w.registered_at, 5);

    let a = decode_attempt(
        AttemptRow {
            id: "att-1".to_string(),
            job_id: "job-1".to_string(),
            attempt_number: 2,
            worker_id: "w".to_string(),
            status: "LOST".to_string(),
            started_at: "2024-01-01T00:00:00Z".to_string(),
            completed_at: None,
            exit_code: None,
            runtime_ms: None,
            error: None,
        },
        0,
    );
    assert_eq!(a.attempt_number, 2);
    assert_eq!(a.started_at, 1_704_067_200_000);

    let l = decode_lease(
        LeaseRow {
            job_id: "job-1".to_string(),
            attempt_id: "att-1".to_string(),
            worker_id: "w".to_string(),
            expires_at: "2024-01-01T00:00:30Z".to_string(),
        },
        0,
    );
    assert_eq!(l.expires_at, 1_704_067_230_000);
}

#[test]
fn signed_and_wide_numbers() {
    assert_eq!(signed_decimal_string(-1), "-1");
    assert_eq!(signed_decimal_string(0), "0");
    assert_eq!(signed_decimal_string(i32::MIN), "-2147483648");
    assert_eq!(decimal_u64(u64::MAX), "18446744073709551615");
}

#[test]
fn run_reports_and_logs() {
    let ok = completion_report(
        "att-1".to_string(),
        RunOutcome::Exited { code: Some(0), stdout: "hi\n".to_string(), stderr: String::new() },
        12,
    );
    assert_eq!(ok.exit_code, 0);
    assert_eq!(ok.stdout, "hi\n");
    let killed = completion_report(
        "att-2".to_string(),
        RunOutcome::Exited { code: None, stdout: String::new(), stderr: String::new() },
        5,
    );
    assert_eq!(killed.exit_code, -1);
    let failed = completion_report("att-3".to_string(), RunOutcome::Failed { error: "timed out".to_string() }, 7);
    assert_eq!(failed.exit_code, -1);
    assert_eq!(failed.stdout, "");
    assert_eq!(failed.stderr, "Execution error: timed out");
    assert_eq!(failed.runtime_ms, 7);

    assert_eq!(log_head("job-1", "att-1"), "=== Job ID: job-1 (Attempt: att-1) ===\n--- LIVE OUTPUT ---\n");
    assert_eq!(log_tail(&ok), "\n=== Exit Code: 0 ===\n=== Runtime: 12ms ===\n");
    assert!(log_tail(&failed).contains("=== Exit Code: -1 ==="));
}

#[test]
fn held_resources_grow_and_shrink_with_jobs() {
    let none = HeldResources::none();
    assert_eq!(none, HeldResources { cpus: 0, memory_mb: 0 });
    let one = none.started(2, 1024);
    assert_eq!(one, HeldResources { cpus: 2, memory_mb: 1024 });
    let two = one.started(1, 512);
    assert_eq!(two, HeldResources { cpus: 3, memory_mb: 1536 });
    assert_eq!(two.finished(1, 512), one);
    assert_eq!(one.finished(4, 4096), none);
    assert_eq!(HeldResources { cpus: u32::MAX - 1, memory_mb: u64::MAX }.started(5, 1).cpus, u32::MAX);
    let cfg = WorkerConfig::for_host(4, 8 * 1024 * 1024 * 1024, "abcd1234");
    let req = cfg.poll_request(4, two.cpus, two.memory_mb).unwrap();
    assert_eq!(req.available_cpus, 1);
    assert_eq!(req.available_memory_mb, 8192 - 1536);
}

#[test]
fn job_is_assembled_from_parsed_columns() {
    let cols = JobColumns {
        status_upper: "PAUSED".to_string(),
        args: None,
        env: Some(vec![("K".to_string(), "1".to_string()), ("K".to_string(), "2".to_string())]),
        depends_on: Some(vec!["job-0".to_string()]),
        created_at: None,
        started_at: Some(5),
        completed_at: None,
        lease_expires_at: Some(9),
        next_retry_at: None,
    };
    let j = assemble_job(job_row(), ResourceRequirements::default(), cols, 77);
    // An unknown status is queued, an unreadable creation time is the time of reading.
    assert_eq!(j.status, JobStatus::Queued);
    assert_eq!(j.created_at, 77);
    assert!(j.args.is_empty());
    assert_eq!(j.env.get("K"), Some(&"2".to_string()));
    assert_eq!(j.depends_on, vec!["job-0".to_string()]);
    assert_eq!(j.started_at, Some(5));
    assert_eq!(j.lease_expires_at, Some(9));
    assert_eq!(j.id, "job-1");

    let cols = JobColumns {
        status_upper: "RUNNING".to_string(),
        args: Some(vec![]),
        env: None,
        depends_on: None,
        created_at: Some(12),
        started_at: None,
        completed_at: None,
        lease_expires_at: None,
        next_retry_at: None,
    };
    let j = assemble_job(job_row(), ResourceRequirements::default(), cols, 77);
    assert_eq!(j.status, JobStatus::Running);
    assert_eq!(j.created_at, 12);
    assert!(j.env.entries().is_empty());
}

#[test]
fn rows_written_read_back() {
    let mut env = relay::string_map::StringMap::new();
    env.insert("B".to_string(), "2".to_string());
    env.insert("A".to_string(), "1 \"quoted\"".to_string());
    let job = relay::models::Job {
        id: "job-9".to_string(),
        name: None,
        command: "echo hi".to_string(),
        args: vec!["x".to_string(), "y z".to_string()],
        cwd: Some("/tmp".to_string()),
        env,
        priority: Priority::Critical,
        status: JobStatus::Running,
        max_retries: 5,
        retry_count: 2,
        timeout_seconds: Some(u64::MAX),
        resources: ResourceRequirements::default(),
        depends_on: vec!["job-1".to_string()],
        worker_id: Some("w".to_string()),
        current_attempt_id: Some("att-1".to_string()),
        created_at: 1_704_067_200_123,
        started_at: Some(1_704_067_201_500),
        completed_at: None,
        lease_expires_at: Some(-86_400_000),
        next_retry_at: None,
        exit_code: None,
        stdout: Some("out".to_string()),
        stderr: None,
        runtime_ms: Some(12),
    };
    let row = encode_job(&job);
    assert_eq!(row.status, "RUNNING");
    assert_eq!(row.priority, 4);
    assert_eq!(row.args, "[\"x\",\"y z\"]");
    assert_eq!(row.env, "{\"A\":\"1 \\\"quoted\\\"\",\"B\":\"2\"}");
    assert_eq!(row.timeout_seconds, Some(-1));
    let back = decode_job(row, ResourceRequirements::default(), 0);
    assert_eq!(format!("{:?}", back.args), format!("{:?}", job.args));
    assert_eq!(back.env.get("A"), job.env.get("A"));
    assert_eq!(back.env.get("B"), Some(&"2".to_string()));
    assert_eq!(back.priority, Priority::Critical);
    assert_eq!(back.status, JobStatus::Running);
    assert_eq!(back.timeout_seconds, Some(u64::MAX));
    assert_eq!(back.created_at, job.created_at);
    assert_eq!(back.started_at, job.started_at);
    assert_eq!(back.lease_expires_at, Some(-86_400_000));
    assert_eq!(back.completed_at, None);
    assert_eq!(back.runtime_ms, Some(12));
    assert_eq!(back.cwd, job.cwd);

    let w = relay::models::Worker {
        id: "w".to_string(),
        cpus: 8,
        memory_mb: 1 << 40,
        labels: relay::string_map::StringMap::new(),
        status: relay::models::WorkerStatus::Unavailable,
        active_jobs: 3,
        last_heartbeat: 1_704_067_200_000,
        registered_at: 1_704_067_100_000,
    };
    let back = decode_worker(encode_worker(&w), 0);
    assert_eq!(back.status, relay::models::WorkerStatus::Unavailable);
    assert_eq!(back.memory_mb, 1 << 40);
    assert_eq!(back.registered_at, 1_704_067_100_000);

    let l = relay::models::Lease {
        job_id: "job-9".to_string(),
        attempt_id: "att-1".to_string(),
        worker_id: "w".to_string(),
        expires_at: 1_704_067_230_000,
    };
    let row = encode_lease(&l);
    assert_eq!(row.expires_at, "2024-01-01T00:00:30+00:00");
    assert_eq!(decode_lease(row, 0).expires_at, l.expires_at);

    let a = relay::models::JobAttempt {
        id: "att-1".to_string(),
        job_id: "job-9".to_string(),
        attempt_number: 2,
        worker_id: "w".to_string(),
        status: "FAILED".to_string(),
        started_at: 1_704_067_200_000,
        completed_at: Some(1_704_067_200_250),
        exit_code: Some(1),
        runtime_ms: Some(250),
        error: None,
    };
    let back = decode_attempt(encode_attempt(&a), 0);
    assert_eq!(back.completed_at, Some(1_704_067_200_250));
    assert_eq!(back.attempt_number, 2);
    assert_eq!(back.status, "FAILED");
}
