//! The command-line settings of the server and worker daemons, and the
//! daemon settings they stand for.
use vstd::prelude::*;
use crate::models::{Priority, ResourceRequirements, ResourcesView, SubmitJobRequest};
use crate::scheduler::SchedulerConfig;
use crate::string_map::StringMap;
use crate::text::{decimal, decimal_string};
use crate::worker::WorkerConfig;
use crate::wrappers::str_to_lowercase;

verus! {

/// The server daemon's command line.
#[derive(Debug)]
pub struct ServerArgs {
    pub port: u16,
    pub host: String,
    pub db: String,
    pub heartbeat_timeout_secs: u64,
    pub lease_duration_secs: u64,
}

/// A number of seconds in milliseconds, the largest `u64` when it does not
/// fit.
pub open spec fn secs_to_ms(secs: u64) -> u64 {
    if secs * 1000 <= u64::MAX {
        (secs * 1000) as u64
    } else {
        u64::MAX
    }
}

/// A number of seconds in milliseconds (see `secs_to_ms`).
pub fn secs_in_ms(secs: u64) -> (r: u64)
    ensures
        r == secs_to_ms(secs),
{
    match secs.checked_mul(1000) {
        Some(ms) => ms,
        None => u64::MAX,
    }
}

impl ServerArgs {
    /// The scheduler settings the server runs with: the heartbeat timeout
    /// and lease length from the command line, and a reaper pass every
    /// second.
    pub fn scheduler_config(&self) -> (r: SchedulerConfig)
        ensures
            r.heartbeat_timeout_ms == secs_to_ms(self.heartbeat_timeout_secs),
            r.default_lease_duration_ms == secs_to_ms(self.lease_duration_secs),
            r.reap_interval_ms == 1000,
    {
        SchedulerConfig {
            heartbeat_timeout_ms: secs_in_ms(self.heartbeat_timeout_secs),
            default_lease_duration_ms: secs_in_ms(self.lease_duration_secs),
            reap_interval_ms: 1000,
        }
    }
}

/// The worker daemon's command line.
#[derive(Debug)]
pub struct WorkerArgs {
    pub server: String,
    pub id: Option<String>,
    pub cpus: Option<u32>,
    pub ram: Option<u64>,
    pub output_dir: String,
    pub oneshot: bool,
    pub max_concurrency: usize,
}

impl WorkerArgs {
    /// The worker settings: `base` with the scheduler's address, the output
    /// directory, the one-shot flag and the concurrency from the command
    /// line, and with its id, CPUs and memory where the command line names
    /// them.
    pub fn apply(self, base: WorkerConfig) -> (r: WorkerConfig)
        ensures
            r.scheduler_url@ == self.server@,
            r.output_dir@ == self.output_dir@,
            r.oneshot == self.oneshot,
            r.max_concurrent_jobs == self.max_concurrency,
            r.worker_id@ == (match self.id {
                Some(id) => id@,
                None => base.worker_id@,
            }),
            r.cpus == (match self.cpus {
                Some(c) => c,
                None => base.cpus,
            }),
            r.memory_mb == (match self.ram {
                Some(m) => m,
                None => base.memory_mb,
            }),
            r.labels@ == base.labels@,
            r.poll_interval_ms == base.poll_interval_ms,
            r.heartbeat_interval_ms == base.heartbeat_interval_ms,
            r.renew_interval_ms == base.renew_interval_ms,
    {
        let mut cfg = base;
        cfg.scheduler_url = self.server;
        cfg.output_dir = self.output_dir;
        cfg.oneshot = self.oneshot;
        cfg.max_concurrent_jobs = self.max_concurrency;
        match self.id {
            Some(id) => {
                cfg.worker_id = id;
            },
            None => {},
        }
        match self.cpus {
            Some(c) => {
                cfg.cpus = c;
            },
            None => {},
        }
        match self.ram {
            Some(m) => {
                cfg.memory_mb = m;
            },
            None => {},
        }
        cfg
    }
}

/// The priority a command line names, in any letter case; Normal when it
/// names none that exists.
pub open spec fn named_priority(name: Seq<char>) -> Priority {
    match Priority::from_name(str_to_lowercase(name)) {
        Some(p) => p,
        None => Priority::Normal,
    }
}

/// The priority a command line names (see `named_priority`).
pub fn priority_or_normal(name: &str) -> (r: Priority)
    ensures
        r == named_priority(name@),
        forall|p: Priority| #[trigger] p.display_name() == name@ ==> r == p,
{
    match Priority::parse(name) {
        Ok(p) => p,
        Err(_) => Priority::Normal,
    }
}

/// A job with the given fields and otherwise bare: no arguments, no working
/// directory and no environment.
pub open spec fn bare_request(
    r: SubmitJobRequest,
    command: Seq<char>,
    name: Option<Seq<char>>,
    priority: Priority,
    max_retries: u32,
    timeout_seconds: Option<u64>,
    resources: ResourcesView,
) -> bool {
    &&& r.command@ == command
    &&& r.args@.len() == 0
    &&& r.cwd is None
    &&& r.priority == priority
    &&& r.max_retries == max_retries
    &&& r.timeout_seconds == timeout_seconds
    &&& r.resources@ == resources
    &&& r.name.deep_view() == name
}

/// The request the `submit` command sends: the command with the name,
/// priority, retries, timeout, CPUs, memory and dependencies it was given,
/// no labels and no environment.
pub fn submit_request(
    command: String,
    name: Option<String>,
    priority: &str,
    max_retries: u32,
    timeout: Option<u64>,
    cpus: u32,
    ram: u64,
    depends_on: Vec<String>,
) -> (r: SubmitJobRequest)
    ensures
        bare_request(
            r,
            command@,
            name.deep_view(),
            named_priority(priority@),
            max_retries,
            timeout,
            ResourcesView { cpus, memory_mb: ram, labels: Map::empty() },
        ),
        r.env@ == Map::<Seq<char>, Seq<char>>::empty(),
        r.depends_on@ == depends_on@,
{
    let r = SubmitJobRequest {
        command,
        args: Vec::new(),
        cwd: None,
        env: StringMap::new(),
        priority: priority_or_normal(priority),
        max_retries,
        timeout_seconds: timeout,
        resources: ResourceRequirements { cpus, memory_mb: ram, labels: StringMap::new() },
        depends_on,
        name,
    };
    assert(r.resources@ =~= ResourcesView { cpus, memory_mb: ram, labels: Map::empty() });
    r
}

/// The name of job `i` of a batch of `count`.
pub open spec fn batch_job_name(count: nat, i: nat) -> Seq<char> {
    "batch-"@ + decimal(count) + "-job-"@ + decimal(i)
}

/// The requests the `batch` command sends: `count` copies of the command,
/// the i-th named after its place and told it through `RELAY_ARRAY_INDEX`,
/// each with three retries and the default resources.
pub fn batch_requests(command: &str, count: usize, priority: &str) -> (r: Vec<SubmitJobRequest>)
    ensures
        r@.len() == count,
        forall|i: int|
            0 <= i < count ==> {
                &&& bare_request(
                    #[trigger] r@[i],
                    command@,
                    Some(batch_job_name(count as nat, i as nat)),
                    named_priority(priority@),
                    3,
                    None,
                    ResourcesView { cpus: 1, memory_mb: 512, labels: Map::empty() },
                )
                &&& r@[i].env@ == map!["RELAY_ARRAY_INDEX"@ => decimal(i as nat)]
                &&& r@[i].depends_on@.len() == 0
            },
{
    let prio = priority_or_normal(priority);
    let count_text = decimal_string(count);
    let mut jobs: Vec<SubmitJobRequest> = Vec::new();
    let mut i: usize = 0;
    while i < count
        invariant
            i <= count,
            jobs@.len() == i,
            prio == named_priority(priority@),
            count_text@ == decimal(count as nat),
            forall|k: int|
                0 <= k < i ==> {
                    &&& bare_request(
                        #[trigger] jobs@[k],
                        command@,
                        Some(batch_job_name(count as nat, k as nat)),
                        named_priority(priority@),
                        3,
                        None,
                        ResourcesView { cpus: 1, memory_mb: 512, labels: Map::empty() },
                    )
                    &&& jobs@[k].env@ == map!["RELAY_ARRAY_INDEX"@ => decimal(k as nat)]
                    &&& jobs@[k].depends_on@.len() == 0
                },
        decreases count - i,
    {
        let index_text = decimal_string(i);
        let mut env = StringMap::new();
        env.insert(String::from_str("RELAY_ARRAY_INDEX"), index_text.clone());
        let name = String::from_str("batch-").concat(count_text.as_str()).concat("-job-").concat(
            index_text.as_str(),
        );
        let req = SubmitJobRequest {
            command: String::from_str(command),
            args: Vec::new(),
            cwd: None,
            env,
            priority: prio,
            max_retries: 3,
            timeout_seconds: None,
            resources: ResourceRequirements::default(),
            depends_on: Vec::new(),
            name: Some(name),
        };
        assert(req.resources@ =~= ResourcesView { cpus: 1, memory_mb: 512, labels: Map::empty() });
        assert(req.env@ =~= map!["RELAY_ARRAY_INDEX"@ => decimal(i as nat)]);
        jobs.push(req);
        i = i + 1;
    }
    jobs
}

} // verus!
