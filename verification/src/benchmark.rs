//! Settings of the throughput benchmark, and the test that ends its wait.
use vstd::prelude::*;
use crate::models::{MetricsResponse, Priority, ResourceRequirements, ResourcesView, SubmitJobRequest};
use crate::scheduler::SchedulerConfig;
use crate::string_map::StringMap;
use crate::text::{decimal, decimal2, decimal_string, decimal2_string};
use crate::worker::WorkerConfig;

verus! {

/// How many jobs the benchmark submits and how many workers run them.
#[derive(Clone, Copy, Debug)]
pub struct BenchmarkConfig {
    pub num_jobs: usize,
    pub num_workers: usize,
}

impl Default for BenchmarkConfig {
    fn default() -> (r: BenchmarkConfig)
        ensures
            r.num_jobs == 1000,
            r.num_workers == 8,
    {
        BenchmarkConfig { num_jobs: 1000, num_workers: 8 }
    }
}

/// Whether `num_jobs` jobs have finished, counting those that succeeded and
/// those that failed for good.
pub fn all_jobs_finished(metrics: &MetricsResponse, num_jobs: usize) -> (r: bool)
    ensures
        r == (metrics.jobs_succeeded + metrics.jobs_failed >= num_jobs),
{
    metrics.jobs_succeeded >= num_jobs || metrics.jobs_failed >= num_jobs - metrics.jobs_succeeded
}

/// The scheduler settings of a benchmark run: a 10 s heartbeat timeout,
/// 15 s leases and a reaper pass every 500 ms.
pub fn bench_scheduler_config() -> (r: SchedulerConfig)
    ensures
        r.heartbeat_timeout_ms == 10_000,
        r.default_lease_duration_ms == 15_000,
        r.reap_interval_ms == 500,
{
    SchedulerConfig { heartbeat_timeout_ms: 10_000, default_lease_duration_ms: 15_000, reap_interval_ms: 500 }
}

/// Job `i` of a benchmark run: `true`, named `bench-job-<i>`, at normal
/// priority with three retries, a 5 s timeout and the default resources.
pub fn bench_job_request(i: usize) -> (r: SubmitJobRequest)
    ensures
        r.command@ == "true"@,
        r.name.deep_view() == Some("bench-job-"@ + decimal(i as nat)),
        r.args@.len() == 0,
        r.cwd is None,
        r.env@ == Map::<Seq<char>, Seq<char>>::empty(),
        r.priority == Priority::Normal,
        r.max_retries == 3,
        r.timeout_seconds == Some(5u64),
        r.resources@ == (ResourcesView { cpus: 1, memory_mb: 512, labels: Map::empty() }),
        r.depends_on@.len() == 0,
{
    let r = SubmitJobRequest {
        command: String::from_str("true"),
        args: Vec::new(),
        cwd: None,
        env: StringMap::new(),
        priority: Priority::Normal,
        max_retries: 3,
        timeout_seconds: Some(5),
        resources: ResourceRequirements::default(),
        depends_on: Vec::new(),
        name: Some(String::from_str("bench-job-").concat(decimal_string(i).as_str())),
    };
    assert(r.resources@ =~= ResourcesView { cpus: 1, memory_mb: 512, labels: Map::empty() });
    r
}

/// The settings of worker `i` of a benchmark run: `base`, named
/// `bench-worker-` and its number from one in two digits or more, talking to
/// `server_url`, polling every 5 ms, sending heartbeats and renewals every
/// 5 s, and running up to 16 jobs at a time.
pub fn bench_worker_config(i: usize, server_url: &str, base: WorkerConfig) -> (r: WorkerConfig)
    requires
        i < usize::MAX,
    ensures
        r.worker_id@ == "bench-worker-"@ + decimal2(i as nat + 1),
        r.scheduler_url@ == server_url@,
        r.poll_interval_ms == 5,
        r.heartbeat_interval_ms == 5_000,
        r.renew_interval_ms == 5_000,
        r.max_concurrent_jobs == 16,
        r.cpus == base.cpus,
        r.memory_mb == base.memory_mb,
        r.labels@ == base.labels@,
        r.output_dir@ == base.output_dir@,
        r.oneshot == base.oneshot,
{
    let mut cfg = base;
    cfg.worker_id = String::from_str("bench-worker-").concat(decimal2_string(i + 1).as_str());
    cfg.scheduler_url = String::from_str(server_url);
    cfg.poll_interval_ms = 5;
    cfg.heartbeat_interval_ms = 5_000;
    cfg.renew_interval_ms = 5_000;
    cfg.max_concurrent_jobs = 16;
    cfg
}

} // verus!
