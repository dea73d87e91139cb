//! The settings of a worker daemon and the requests it sends: how it sizes
//! itself from the host, how it registers, and what it asks for when it
//! polls for work.
use vstd::prelude::*;
use crate::models::{CompleteJobRequest, WorkerPollRequest, WorkerRegisterRequest};
use crate::text::{decimal, decimal_u64, signed_decimal, signed_decimal_string};
use crate::string_map::StringMap;
use crate::wrappers::{host_resources, is_lower_hex, new_uuid_simple};

verus! {

/// How a worker daemon runs; intervals are in milliseconds.
#[derive(Debug)]
pub struct WorkerConfig {
    pub worker_id: String,
    pub scheduler_url: String,
    pub cpus: u32,
    pub memory_mb: u64,
    pub labels: StringMap,
    pub poll_interval_ms: u64,
    pub heartbeat_interval_ms: u64,
    pub renew_interval_ms: u64,
    pub output_dir: String,
    pub oneshot: bool,
    pub max_concurrent_jobs: usize,
}

/// The CPUs a worker advertises on a host with `cpu_count` CPUs: at least
/// one, cut to 32 bits.
pub open spec fn advertised_cpus(cpu_count: usize) -> u32 {
    (if cpu_count < 1 {
        1
    } else {
        cpu_count
    }) as u32
}

/// A worker advertises at least one CPU on any host that reports fewer than
/// 2^32 of them.
pub proof fn law_at_least_one_cpu(cpu_count: usize)
    requires
        cpu_count < 4294967296,
    ensures
        advertised_cpus(cpu_count) >= 1,
{
}

/// The memory, in MiB, a worker advertises on a host with
/// `total_memory_bytes`: the whole MiB, at least 512.
pub open spec fn advertised_memory_mb(total_memory_bytes: u64) -> u64 {
    let mb = total_memory_bytes / 1048576u64;
    if mb < 512 {
        512
    } else {
        mb as u64
    }
}

/// A worker id as a daemon picks it for itself: `worker-` and 8 lowercase
/// hexadecimal digits.
pub open spec fn is_worker_id(id: Seq<char>) -> bool {
    &&& id.len() == 15
    &&& id.subrange(0, 7) == "worker-"@
    &&& forall|i: int| 7 <= i < 15 ==> is_lower_hex(#[trigger] id[i])
}

/// The default settings, with the given id, CPUs and memory: the local
/// scheduler, no labels, polls every 100 ms, heartbeats every 3 s, lease
/// renewals every 5 s, output under `o`, not one-shot, at most 4 jobs at a
/// time.
pub open spec fn host_defaults(c: WorkerConfig, id: Seq<char>, cpus: u32, memory_mb: u64) -> bool {
    &&& c.worker_id@ == id
    &&& c.scheduler_url@ == "http://127.0.0.1:8000"@
    &&& c.cpus == cpus
    &&& c.memory_mb == memory_mb
    &&& c.labels@ == Map::<Seq<char>, Seq<char>>::empty()
    &&& c.poll_interval_ms == 100
    &&& c.heartbeat_interval_ms == 3000
    &&& c.renew_interval_ms == 5000
    &&& c.output_dir@ == "o"@
    &&& !c.oneshot
    &&& c.max_concurrent_jobs == 4
}

/// What is left of `total` once `used` is allocated, never below zero.
pub open spec fn unallocated(total: int, used: int) -> int {
    if used <= total {
        total - used
    } else {
        0
    }
}

/// `a + b`, stopping at `max`.
pub open spec fn grown(a: int, b: int, max: int) -> int {
    if a + b <= max {
        a + b
    } else {
        max
    }
}

/// The CPUs and memory held by the jobs a worker runs.
#[derive(Clone, Copy, Debug, PartialEq, Eq, Structural)]
pub struct HeldResources {
    pub cpus: u32,
    pub memory_mb: u64,
}

impl HeldResources {
    /// Nothing held: no job runs.
    pub fn none() -> (r: HeldResources)
        ensures
            r.cpus == 0,
            r.memory_mb == 0,
    {
        HeldResources { cpus: 0, memory_mb: 0 }
    }

    /// What is held once a job needing `cpus` CPUs and `memory_mb` of
    /// memory starts: each grows by the job's need, stopping at its largest
    /// value.
    pub fn started(self, cpus: u32, memory_mb: u64) -> (r: HeldResources)
        ensures
            r.cpus == grown(self.cpus as int, cpus as int, u32::MAX as int),
            r.memory_mb == grown(self.memory_mb as int, memory_mb as int, u64::MAX as int),
    {
        HeldResources {
            cpus: if cpus <= u32::MAX - self.cpus {
                self.cpus + cpus
            } else {
                u32::MAX
            },
            memory_mb: if memory_mb <= u64::MAX - self.memory_mb {
                self.memory_mb + memory_mb
            } else {
                u64::MAX
            },
        }
    }

    /// What is held once a job needing `cpus` CPUs and `memory_mb` of
    /// memory ends: each shrinks by the job's need, never below zero (see
    /// `unallocated`).
    pub fn finished(self, cpus: u32, memory_mb: u64) -> (r: HeldResources)
        ensures
            r.cpus == unallocated(self.cpus as int, cpus as int),
            r.memory_mb == unallocated(self.memory_mb as int, memory_mb as int),
    {
        HeldResources {
            cpus: if cpus <= self.cpus {
                self.cpus - cpus
            } else {
                0
            },
            memory_mb: if memory_mb <= self.memory_mb {
                self.memory_mb - memory_mb
            } else {
                0
            },
        }
    }
}

/// A job that starts and then ends gives back what it took, as long as
/// nothing held reached its largest value.
pub proof fn law_finished_undoes_started(held: HeldResources, cpus: u32, memory_mb: u64)
    requires
        held.cpus + cpus <= u32::MAX,
        held.memory_mb + memory_mb <= u64::MAX,
    ensures
        ({
            let after = HeldResources {
                cpus: grown(held.cpus as int, cpus as int, u32::MAX as int) as u32,
                memory_mb: grown(held.memory_mb as int, memory_mb as int, u64::MAX as int) as u64,
            };
            unallocated(after.cpus as int, cpus as int) == held.cpus && unallocated(
                after.memory_mb as int,
                memory_mb as int,
            ) == held.memory_mb
        }),
{
}

/// How many jobs a poll asks for with `available_permits` free slots: as
/// many, but at most 4.
pub open spec fn poll_batch(available_permits: usize) -> usize {
    if available_permits < 4 {
        available_permits
    } else {
        4
    }
}

impl WorkerConfig {
    /// The default settings for a host with `cpu_count` CPUs and
    /// `total_memory_bytes` of memory, under the id `worker-` followed by
    /// `id_suffix` (see `host_defaults`).
    pub fn for_host(cpu_count: usize, total_memory_bytes: u64, id_suffix: &str) -> (r: WorkerConfig)
        ensures
            host_defaults(
                r,
                "worker-"@ + id_suffix@,
                advertised_cpus(cpu_count),
                advertised_memory_mb(total_memory_bytes),
            ),
    {
        let count: usize = if cpu_count < 1 {
            1
        } else {
            cpu_count
        };
        let mb: u64 = total_memory_bytes / (1024 * 1024);
        let memory_mb: u64 = if mb < 512 {
            512
        } else {
            mb
        };
        WorkerConfig {
            worker_id: String::from_str("worker-").concat(id_suffix),
            scheduler_url: String::from_str("http://127.0.0.1:8000"),
            cpus: count as u32,
            memory_mb,
            labels: StringMap::new(),
            poll_interval_ms: 100,
            heartbeat_interval_ms: 3000,
            renew_interval_ms: 5000,
            output_dir: String::from_str("o"),
            oneshot: false,
            max_concurrent_jobs: 4,
        }
    }

    /// What the worker registers itself with.
    pub fn registration(&self) -> (r: WorkerRegisterRequest)
        ensures
            r.worker_id@ == self.worker_id@,
            r.cpus == self.cpus,
            r.memory_mb == self.memory_mb,
            r.labels@ == self.labels@,
    {
        WorkerRegisterRequest {
            worker_id: self.worker_id.clone(),
            cpus: self.cpus,
            memory_mb: self.memory_mb,
            labels: self.labels.clone(),
        }
    }

    /// What the worker asks for with `available_permits` free job slots,
    /// while the jobs it runs hold `used_cpus` CPUs and `used_memory_mb` of
    /// memory: nothing when no slot is free, otherwise the CPUs and memory
    /// not yet allocated (see `unallocated`), its labels, and at most
    /// `poll_batch` jobs.
    pub fn poll_request(&self, available_permits: usize, used_cpus: u32, used_memory_mb: u64) -> (r: Option<
        WorkerPollRequest,
    >)
        ensures
            available_permits == 0 <==> r is None,
            r matches Some(req) ==> {
                &&& req.available_cpus == unallocated(self.cpus as int, used_cpus as int)
                &&& req.available_memory_mb == unallocated(self.memory_mb as int, used_memory_mb as int)
                &&& req.labels@ == self.labels@
                &&& req.max_jobs == poll_batch(available_permits)
            },
    {
        if available_permits == 0 {
            return None;
        }
        let max_jobs: usize = if available_permits < 4 {
            available_permits
        } else {
            4
        };
        let free_cpus: u32 = if used_cpus <= self.cpus {
            self.cpus - used_cpus
        } else {
            0
        };
        let free_memory: u64 = if used_memory_mb <= self.memory_mb {
            self.memory_mb - used_memory_mb
        } else {
            0
        };
        Some(
            WorkerPollRequest {
                available_cpus: free_cpus,
                available_memory_mb: free_memory,
                labels: self.labels.clone(),
                max_jobs,
            },
        )
    }
}

impl Default for WorkerConfig {
    /// The defaults for this host (see `host_defaults`): the CPUs and memory
    /// come from sysinfo, and the id from a fresh UUID.
    fn default() -> (r: WorkerConfig)
        ensures
            is_worker_id(r.worker_id@),
            r.memory_mb >= 512,
            exists|cpu_count: usize, total_memory_bytes: u64|
                r.cpus == advertised_cpus(cpu_count) && r.memory_mb == advertised_memory_mb(
                    total_memory_bytes,
                ),
            host_defaults(r, r.worker_id@, r.cpus, r.memory_mb),
    {
        let (cpu_count, total_memory_bytes) = host_resources();
        let hex = new_uuid_simple();
        let suffix = hex.as_str().substring_char(0, 8);
        let r = WorkerConfig::for_host(cpu_count, total_memory_bytes, suffix);
        proof {
            reveal_strlit("worker-");
            assert(r.worker_id@.subrange(0, 7) =~= "worker-"@);
            assert forall|i: int| 7 <= i < 15 implies is_lower_hex(#[trigger] r.worker_id@[i]) by {
                assert(r.worker_id@[i] == hex@[i - 7]);
            }
        }
        r
    }
}

/// How a job's command ended, as the worker saw it.
#[derive(Debug)]
pub enum RunOutcome {
    /// The command ran to its end; the exit code is missing when a signal
    /// ended it.
    Exited { code: Option<i32>, stdout: String, stderr: String },
    /// The command could not be run, or ran past its timeout.
    Failed { error: String },
}

/// The report a worker sends for attempt `attempt_id` after `runtime_ms`:
/// the exit code (-1 when there is none) and the output, or, when the
/// command could not run, exit code -1 and the error as its error output.
pub fn completion_report(attempt_id: String, outcome: RunOutcome, runtime_ms: u64) -> (r: CompleteJobRequest)
    ensures
        r.attempt_id@ == attempt_id@,
        r.runtime_ms == runtime_ms,
        match outcome {
            RunOutcome::Exited { code, stdout, stderr } => {
                &&& r.exit_code == (match code {
                    Some(c) => c,
                    None => -1i32,
                })
                &&& r.stdout@ == stdout@
                &&& r.stderr@ == stderr@
            },
            RunOutcome::Failed { error } => {
                &&& r.exit_code == -1
                &&& r.stdout@.len() == 0
                &&& r.stderr@ == "Execution error: "@ + error@
            },
        },
{
    match outcome {
        RunOutcome::Exited { code, stdout, stderr } => {
            let exit_code: i32 = match code {
                Some(c) => c,
                None => -1,
            };
            CompleteJobRequest { attempt_id, exit_code, stdout, stderr, runtime_ms }
        },
        RunOutcome::Failed { error } => CompleteJobRequest {
            attempt_id,
            exit_code: -1,
            stdout: String::new(),
            stderr: String::from_str("Execution error: ").concat(error.as_str()),
            runtime_ms,
        },
    }
}

/// The head of a job's log file, written before its command starts: the
/// job and the attempt, then the mark under which the command's output
/// follows, line by line as it comes.
pub open spec fn head_of_log(job_id: Seq<char>, attempt_id: Seq<char>) -> Seq<char> {
    "=== Job ID: "@ + job_id + " (Attempt: "@ + attempt_id + ") ===\n--- LIVE OUTPUT ---\n"@
}

/// The head of a job's log file (see `head_of_log`).
pub fn log_head(job_id: &str, attempt_id: &str) -> (r: String)
    ensures
        r@ == head_of_log(job_id@, attempt_id@),
{
    let mut s = String::from_str("=== Job ID: ");
    s.append(job_id);
    s.append(" (Attempt: ");
    s.append(attempt_id);
    s.append(") ===\n--- LIVE OUTPUT ---\n");
    s
}

/// The tail of a job's log file, written once its command has ended: the
/// exit code and the run time of the report.
pub open spec fn tail_of_log(report: CompleteJobRequest) -> Seq<char> {
    "\n=== Exit Code: "@ + signed_decimal(report.exit_code as int) + " ===\n=== Runtime: "@ + decimal(
        report.runtime_ms as nat,
    ) + "ms ===\n"@
}

/// The tail of a job's log file (see `tail_of_log`).
pub fn log_tail(report: &CompleteJobRequest) -> (r: String)
    ensures
        r@ == tail_of_log(*report),
{
    let mut s = String::from_str("\n=== Exit Code: ");
    s.append(signed_decimal_string(report.exit_code).as_str());
    s.append(" ===\n=== Runtime: ");
    s.append(decimal_u64(report.runtime_ms).as_str());
    s.append("ms ===\n");
    s
}

} // verus!
