//! The failure-injection test: its settings, how a victim is picked, and
//! the report it ends with.
use vstd::prelude::*;
use crate::models::{MetricsResponse, Priority, ResourceRequirements, ResourcesView, SubmitJobRequest};
use crate::scheduler::SchedulerConfig;
use crate::string_map::StringMap;
use crate::text::{decimal, decimal2, decimal_string, decimal2_string};
use crate::worker::WorkerConfig;
use crate::wrappers::random_below;

verus! {

/// How many jobs and workers the chaos test runs with, how long it injects
/// failures, and how long it waits between two kills (both in seconds).
#[derive(Clone, Copy, Debug)]
pub struct ChaosConfig {
    pub num_jobs: usize,
    pub num_workers: usize,
    pub duration_secs: u64,
    pub kill_interval_secs: u64,
}

impl Default for ChaosConfig {
    fn default() -> (r: ChaosConfig)
        ensures
            r.num_jobs == 50,
            r.num_workers == 4,
            r.duration_secs == 30,
            r.kill_interval_secs == 4,
    {
        ChaosConfig { num_jobs: 50, num_workers: 4, duration_secs: 30, kill_interval_secs: 4 }
    }
}

/// What the chaos test found: a job is lost when it neither succeeded nor
/// failed for good by the end, and the test succeeds when none is lost.
#[derive(Clone, Copy, Debug)]
pub struct ChaosReport {
    pub jobs_submitted: usize,
    pub jobs_succeeded: usize,
    pub jobs_failed: usize,
    pub jobs_lost: usize,
    pub workers_killed: usize,
    pub total_duration_ms: u64,
    pub success: bool,
}

/// The jobs of `submitted` that did not finish, as the metrics count them.
pub open spec fn lost_jobs(submitted: usize, metrics: MetricsResponse) -> int {
    let finished = metrics.jobs_succeeded + metrics.jobs_failed;
    if finished >= submitted {
        0
    } else {
        submitted - finished
    }
}

impl ChaosReport {
    /// The report for a run of `config` that killed `workers_killed` workers,
    /// took `total_duration_ms` and ended with `metrics`.
    pub fn from_metrics(
        config: &ChaosConfig,
        metrics: &MetricsResponse,
        workers_killed: usize,
        total_duration_ms: u64,
    ) -> (r: ChaosReport)
        ensures
            r.jobs_submitted == config.num_jobs,
            r.jobs_succeeded == metrics.jobs_succeeded,
            r.jobs_failed == metrics.jobs_failed,
            r.jobs_lost == lost_jobs(config.num_jobs, *metrics),
            r.workers_killed == workers_killed,
            r.total_duration_ms == total_duration_ms,
            r.success == (lost_jobs(config.num_jobs, *metrics) == 0),
    {
        let n = config.num_jobs;
        let lost: usize = if metrics.jobs_succeeded >= n {
            0
        } else if metrics.jobs_failed >= n - metrics.jobs_succeeded {
            0
        } else {
            n - metrics.jobs_succeeded - metrics.jobs_failed
        };
        ChaosReport {
            jobs_submitted: n,
            jobs_succeeded: metrics.jobs_succeeded,
            jobs_failed: metrics.jobs_failed,
            jobs_lost: lost,
            workers_killed,
            total_duration_ms,
            success: lost == 0,
        }
    }
}

/// The index of the next worker to kill, picked at random among
/// `num_workers`.
pub fn pick_victim(num_workers: usize) -> (r: usize)
    requires
        num_workers > 0,
    ensures
        r < num_workers,
{
    random_below(num_workers)
}

/// The scheduler settings of a chaos run: a 1.5 s heartbeat timeout, 2.5 s
/// leases and a reaper pass every 500 ms, so that killed workers are noticed
/// quickly.
pub fn chaos_scheduler_config() -> (r: SchedulerConfig)
    ensures
        r.heartbeat_timeout_ms == 1_500,
        r.default_lease_duration_ms == 2_500,
        r.reap_interval_ms == 500,
{
    SchedulerConfig { heartbeat_timeout_ms: 1_500, default_lease_duration_ms: 2_500, reap_interval_ms: 500 }
}

/// Job `i` of a chaos run: it echoes its number and sleeps 0.3 s; it is
/// named `chaos-job-<i>`, at normal priority with five retries, a 10 s
/// timeout and the default resources.
pub fn chaos_job_request(i: usize) -> (r: SubmitJobRequest)
    ensures
        r.command@ == "echo 'chaos job "@ + decimal(i as nat) + "' && sleep 0.3"@,
        r.name.deep_view() == Some("chaos-job-"@ + decimal(i as nat)),
        r.args@.len() == 0,
        r.cwd is None,
        r.env@ == Map::<Seq<char>, Seq<char>>::empty(),
        r.priority == Priority::Normal,
        r.max_retries == 5,
        r.timeout_seconds == Some(10u64),
        r.resources@ == (ResourcesView { cpus: 1, memory_mb: 512, labels: Map::empty() }),
        r.depends_on@.len() == 0,
{
    let number = decimal_string(i);
    let r = SubmitJobRequest {
        command: String::from_str("echo 'chaos job ").concat(number.as_str()).concat("' && sleep 0.3"),
        args: Vec::new(),
        cwd: None,
        env: StringMap::new(),
        priority: Priority::Normal,
        max_retries: 5,
        timeout_seconds: Some(10),
        resources: ResourceRequirements::default(),
        depends_on: Vec::new(),
        name: Some(String::from_str("chaos-job-").concat(number.as_str())),
    };
    assert(r.resources@ =~= ResourcesView { cpus: 1, memory_mb: 512, labels: Map::empty() });
    r
}

/// The id of worker `i` of a chaos run: `chaos-worker-` and its number from
/// one in two digits or more.
pub fn chaos_worker_id(i: usize) -> (r: String)
    requires
        i < usize::MAX,
    ensures
        r@ == "chaos-worker-"@ + decimal2(i as nat + 1),
{
    String::from_str("chaos-worker-").concat(decimal2_string(i + 1).as_str())
}

/// The settings of a chaos worker with id `worker_id`: `base` talking to
/// `server_url`, sending heartbeats every 500 ms, renewing leases every
/// 800 ms and polling every 200 ms.
pub fn chaos_worker_config(worker_id: String, server_url: &str, base: WorkerConfig) -> (r: WorkerConfig)
    ensures
        r.worker_id@ == worker_id@,
        r.scheduler_url@ == server_url@,
        r.heartbeat_interval_ms == 500,
        r.renew_interval_ms == 800,
        r.poll_interval_ms == 200,
        r.max_concurrent_jobs == base.max_concurrent_jobs,
        r.cpus == base.cpus,
        r.memory_mb == base.memory_mb,
        r.labels@ == base.labels@,
        r.output_dir@ == base.output_dir@,
        r.oneshot == base.oneshot,
{
    let mut cfg = base;
    cfg.worker_id = worker_id;
    cfg.scheduler_url = String::from_str(server_url);
    cfg.heartbeat_interval_ms = 500;
    cfg.renew_interval_ms = 800;
    cfg.poll_interval_ms = 200;
    cfg
}

} // verus!
