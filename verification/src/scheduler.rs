//! The scheduler: the operations the HTTP API offers, on top of the store.
//! It names new jobs, stamps them with the clock, turns a worker's poll into
//! a heartbeat and a claim, and turns the store's outcomes into answers.
use vstd::prelude::*;
use crate::models::{
    AssignedJob, BatchSubmitRequest, BatchSubmitResponse, CompleteJobRequest, CompleteJobResponse, Job,
    JobAttempt, JobStatus, JobView, MetricsResponse, RenewLeaseRequest, RenewLeaseResponse, ResourcesView,
    SubmitJobRequest, SubmitJobResponse, Worker, WorkerCapacity, WorkerPollRequest, WorkerPollResponse,
    WorkerRegisterRequest, WorkerStatus, WorkerView,
};
use crate::store::{
    cancel_happened, claim_attempted, completion_attempted, heartbeat_happened, metrics_of, reap_fits,
    reap_leases_attempted, reap_state, reap_workers_attempted, renew_attempted, upsert_job, upsert_worker,
    mark_unavailable, CompleteJobOutcome, Store, StoreError, StoreView,
};
use crate::holding::{leases_match_jobs, law_heartbeat_keeps_leases_matched};
use crate::wrappers::{is_lower_hex, new_uuid_simple, now_millis, valid_timestamp, MIN_TIMESTAMP_MS};

verus! {

/// The scheduler's timing, in milliseconds.
#[derive(Clone, Copy, Debug)]
pub struct SchedulerConfig {
    /// How long a worker may stay silent before it is marked unavailable.
    pub heartbeat_timeout_ms: u64,
    /// How long a lease lasts when nothing else is asked for.
    pub default_lease_duration_ms: u64,
    /// How long the background reaper waits between passes.
    pub reap_interval_ms: u64,
}

impl Default for SchedulerConfig {
    fn default() -> (r: SchedulerConfig)
        ensures
            r.heartbeat_timeout_ms == 15000,
            r.default_lease_duration_ms == 30000,
            r.reap_interval_ms == 1000,
    {
        SchedulerConfig { heartbeat_timeout_ms: 15000, default_lease_duration_ms: 30000, reap_interval_ms: 1000 }
    }
}

/// The scheduler as a value: its store, its settings, and whether its
/// background reaper should keep going.
pub struct SchedulerView {
    pub store: StoreView,
    pub config: SchedulerConfig,
    pub running: bool,
}

/// The scheduler: a store and the settings it is driven with.
pub struct Scheduler {
    store: Store,
    config: SchedulerConfig,
    running: bool,
}

impl View for Scheduler {
    type V = SchedulerView;

    closed spec fn view(&self) -> SchedulerView {
        SchedulerView { store: self.store@, config: self.config, running: self.running }
    }
}

/// A job id as the scheduler makes them: `job-` and 32 lowercase
/// hexadecimal digits.
pub open spec fn is_job_id(id: Seq<char>) -> bool {
    &&& id.len() == 36
    &&& id.subrange(0, 4) == "job-"@
    &&& forall|i: int| 4 <= i < 36 ==> is_lower_hex(#[trigger] id[i])
}

/// The state a submitted job starts in: queued, or blocked while it has
/// dependencies.
pub open spec fn submitted_status(req: SubmitJobRequest) -> JobStatus {
    if req.depends_on@.len() == 0 {
        JobStatus::Queued
    } else {
        JobStatus::Blocked
    }
}

/// The job a submission creates, under id `id` at time `now`.
pub open spec fn submitted_job(req: SubmitJobRequest, id: Seq<char>, now: i64) -> JobView {
    JobView {
        id,
        name: req.name.deep_view(),
        command: req.command@,
        args: req.args.deep_view(),
        cwd: req.cwd.deep_view(),
        env: req.env@,
        priority: req.priority,
        status: submitted_status(req),
        max_retries: req.max_retries,
        retry_count: 0,
        timeout_seconds: req.timeout_seconds,
        resources: req.resources@,
        depends_on: req.depends_on.deep_view(),
        worker_id: None,
        current_attempt_id: None,
        created_at: now,
        started_at: None,
        completed_at: None,
        lease_expires_at: None,
        next_retry_at: None,
        exit_code: None,
        stdout: None,
        stderr: None,
        runtime_ms: None,
    }
}

/// What submitting `req` at time `now` does: the job is written under the
/// id the answer gives, in its starting state.
pub open spec fn submit_happened(
    old: StoreView,
    new: StoreView,
    req: SubmitJobRequest,
    r: Result<SubmitJobResponse, StoreError>,
    now: i64,
) -> bool {
    &&& r matches Ok(resp) && {
        &&& is_job_id(resp.job_id@)
        &&& resp.status == submitted_status(req)
        &&& new == StoreView { jobs: upsert_job(old.jobs, submitted_job(req, resp.job_id@, now)), ..old }
    }
}

/// The store after the submissions `reqs` in order, the k-th under id
/// `ids[k]` at time `times[k]`.
pub open spec fn batch_state(
    s: StoreView,
    reqs: Seq<SubmitJobRequest>,
    ids: Seq<Seq<char>>,
    times: Seq<i64>,
) -> StoreView
    decreases reqs.len(),
{
    if reqs.len() == 0 {
        s
    } else {
        let p = batch_state(s, reqs.drop_last(), ids.drop_last(), times.drop_last());
        StoreView { jobs: upsert_job(p.jobs, submitted_job(reqs.last(), ids.last(), times.last())), ..p }
    }
}

/// The worker a registration describes, with its last heartbeat at
/// `heartbeat` and registered at `registered`.
pub open spec fn registered_worker(req: WorkerRegisterRequest, heartbeat: i64, registered: i64) -> WorkerView {
    WorkerView {
        id: req.worker_id@,
        cpus: req.cpus,
        memory_mb: req.memory_mb,
        labels: req.labels@,
        status: WorkerStatus::Active,
        active_jobs: 0,
        last_heartbeat: heartbeat,
        registered_at: registered,
    }
}

/// What a worker offers when it polls.
pub open spec fn poll_offer(req: WorkerPollRequest) -> ResourcesView {
    ResourcesView { cpus: req.available_cpus, memory_mb: req.available_memory_mb, labels: req.labels@ }
}

/// The assignments a poll hands out for the claimed pairs: each job with
/// its attempt's id and the lease's length in whole seconds.
pub open spec fn handed_out(claimed: Seq<(Job, JobAttempt)>, jobs: Seq<AssignedJob>, lease_secs: u64) -> bool {
    &&& jobs.len() == claimed.len()
    &&& forall|k: int|
        0 <= k < jobs.len() ==> {
            &&& (#[trigger] jobs[k]).job@ == claimed[k].0@
            &&& jobs[k].attempt_id@ == claimed[k].1.id@
            &&& jobs[k].lease_duration_seconds == lease_secs
        }
}

/// A poll by `worker_id`: a heartbeat at `t1` takes the store from `old` to
/// `mid` (its answer `hb` is not used), then a claim at `t2` with leases of
/// `lease_ms` takes it from `mid` to `new`; the poll hands out what was
/// claimed, or fails as the claim did.
pub open spec fn poll_happened(
    old: StoreView,
    mid: StoreView,
    new: StoreView,
    hb: Result<bool, StoreError>,
    claim: Result<Vec<(Job, JobAttempt)>, StoreError>,
    r: Result<WorkerPollResponse, StoreError>,
    t1: i64,
    t2: i64,
    worker_id: Seq<char>,
    req: WorkerPollRequest,
    lease_ms: u64,
) -> bool {
    &&& valid_timestamp(t1 as int)
    &&& valid_timestamp(t2 as int)
    &&& heartbeat_happened(old, mid, hb, t1, worker_id)
    &&& claim_attempted(mid, new, claim, t2, worker_id, poll_offer(req), req.max_jobs as int, lease_ms)
    &&& match claim {
        Ok(v) => r matches Ok(resp) && handed_out(v@, resp.jobs@, lease_ms / 1000),
        Err(e) => r == Err::<WorkerPollResponse, StoreError>(e),
    }
}

/// The length of lease a renewal asks for: the seconds it names, in
/// milliseconds, or the default when it names none; nothing when the
/// seconds do not fit in milliseconds.
pub open spec fn requested_lease_ms(asked: Option<u64>, default_ms: u64) -> Option<u64> {
    match asked {
        None => Some(default_ms),
        Some(secs) => if secs * 1000 <= u64::MAX {
            Some((secs * 1000) as u64)
        } else {
            None
        },
    }
}

/// The answer to a renewal whose store operation answered `rr`.
pub open spec fn renewal_answered(rr: Result<i64, StoreError>, r: Result<RenewLeaseResponse, StoreError>) -> bool {
    match rr {
        Ok(expires) => r matches Ok(resp) && resp.status@ == "renewed"@ && resp.new_expires_at == expires,
        Err(e) => r == Err::<RenewLeaseResponse, StoreError>(e),
    }
}

/// What a renewal asking for `asked_ms` does: when the length does not fit,
/// it is refused and nothing changes; otherwise see `renewed_for`.
pub open spec fn renewal_happened(
    old: StoreView,
    new: StoreView,
    r: Result<RenewLeaseResponse, StoreError>,
    job_id: Seq<char>,
    attempt_id: Seq<char>,
    asked_ms: Option<u64>,
) -> bool {
    match asked_ms {
        None => r matches Err(StoreError::InvalidTransition(m)) && m@ == "Cannot renew lease: duration out of range"@ && new == old,
        Some(ms) => renewed_for(old, new, r, job_id, attempt_id, ms),
    }
}

/// A renewal for `ms`: the store renews at some time `now` (see
/// `renew_attempted`), and the answer follows from the store's (see
/// `renewal_answered`).
pub open spec fn renewed_for(
    old: StoreView,
    new: StoreView,
    r: Result<RenewLeaseResponse, StoreError>,
    job_id: Seq<char>,
    attempt_id: Seq<char>,
    ms: u64,
) -> bool {
    exists|now: i64, rr: Result<i64, StoreError>|
        valid_timestamp(now as int) && #[trigger] renew_attempted(old, new, rr, now, job_id, attempt_id, ms)
            && renewal_answered(rr, r)
}

/// The answer to a report of an attempt's end whose store operation
/// answered `rr`.
pub open spec fn completion_answered(
    rr: Result<CompleteJobOutcome, StoreError>,
    r: Result<CompleteJobResponse, StoreError>,
) -> bool {
    match rr {
        Ok(CompleteJobOutcome::Accepted(_)) => r matches Ok(resp) && resp.status@ == "accepted"@
            && resp.message is None,
        Ok(CompleteJobOutcome::Retrying(_)) => r matches Ok(resp) && resp.status@ == "retrying"@
            && resp.message.deep_view() == Some("Job failed but scheduled for retry with backoff"@),
        Ok(CompleteJobOutcome::StaleAttemptIgnored) => r matches Ok(resp) && resp.status@ == "stale_ignored"@
            && resp.message.deep_view() == Some("Attempt ID does not match active lease. Ignored."@),
        Err(e) => r == Err::<CompleteJobResponse, StoreError>(e),
    }
}

/// What recovery on start-up does: the expired leases are reaped at `t1`
/// (see `reap_state`), then the workers silent for longer than
/// `timeout_ms` before `t2` are marked unavailable; either step can be
/// refused where a deadline falls outside what chrono can hold, and the
/// recovery stops there.
pub open spec fn recovery_happened(
    old: StoreView,
    new: StoreView,
    r: Result<(), StoreError>,
    t1: i64,
    t2: i64,
    timeout_ms: u64,
) -> bool {
    if !reap_fits(old, t1) {
        r matches Err(StoreError::InvalidTransition(m)) && m@ == "Cannot reap leases: retry deadline out of range"@ && new == old
    } else {
        let mid = reap_state(old, t1);
        if t2 - timeout_ms < MIN_TIMESTAMP_MS {
            r matches Err(StoreError::InvalidTransition(m)) && m@ == "Cannot reap workers: cutoff out of range"@ && new == mid
        } else {
            r is Ok && new == StoreView { workers: mark_unavailable(mid.workers, t2 - timeout_ms), ..mid }
        }
    }
}

/// One pass of the background reaper: silent workers are marked
/// unavailable at `t1` (store from `old` to `mid`), then expired leases are
/// reaped at `t2` (from `mid` to `new`); each step answers for itself.
pub open spec fn reap_pass_happened(
    old: StoreView,
    mid: StoreView,
    new: StoreView,
    r: (Result<Vec<String>, StoreError>, Result<Vec<(Job, String)>, StoreError>),
    t1: i64,
    t2: i64,
    timeout_ms: u64,
) -> bool {
    &&& valid_timestamp(t1 as int)
    &&& valid_timestamp(t2 as int)
    &&& reap_workers_attempted(old, mid, r.0, t1, timeout_ms)
    &&& reap_leases_attempted(mid, new, r.1, t2)
}

impl Scheduler {
    /// A running scheduler over `store`.
    pub fn new(store: Store, config: SchedulerConfig) -> (s: Scheduler)
        ensures
            s@ == (SchedulerView { store: store@, config, running: true }),
    {
        Scheduler { store, config, running: true }
    }

    /// The store.
    pub fn store(&self) -> (r: &Store)
        ensures
            r@ == self@.store,
    {
        &self.store
    }

    /// The store, to change it directly.
    pub fn store_mut(&mut self) -> (r: &mut Store)
        ensures
            r@ == old(self)@.store,
            final(self)@ == (SchedulerView { store: final(r)@, ..old(self)@ }),
    {
        &mut self.store
    }

    /// The settings.
    pub fn config(&self) -> (r: SchedulerConfig)
        ensures
            r == self@.config,
    {
        self.config
    }

    /// Whether the background reaper should keep going.
    pub fn is_running(&self) -> (r: bool)
        ensures
            r == self@.running,
    {
        self.running
    }

    /// Tells the background reaper to stop.
    pub fn stop(&mut self)
        ensures
            final(self)@ == (SchedulerView { running: false, ..old(self)@ }),
    {
        self.running = false;
    }

    /// Submits a job: it gets a fresh id and the current time, and starts
    /// queued, or blocked when it depends on other jobs (see
    /// `submit_happened`).
    pub fn submit_job(&mut self, req: SubmitJobRequest) -> (r: Result<SubmitJobResponse, StoreError>)
        requires
            old(self)@.store.inv(),
        ensures
            final(self)@.store.inv(),
            final(self)@.config == old(self)@.config,
            final(self)@.running == old(self)@.running,
            exists|now: i64|
                valid_timestamp(now as int) && submit_happened(old(self)@.store, final(self)@.store, req, r, now),
    {
        let ghost req0 = req;
        let hex = new_uuid_simple();
        let job_id = String::from_str("job-").concat(hex.as_str());
        proof {
            reveal_strlit("job-");
            assert(job_id@.subrange(0, 4) =~= "job-"@);
            assert forall|i: int| 4 <= i < 36 implies is_lower_hex(#[trigger] job_id@[i]) by {
                assert(job_id@[i] == hex@[i - 4]);
            }
        }
        let status = if req.depends_on.len() == 0 {
            JobStatus::Queued
        } else {
            JobStatus::Blocked
        };
        let now = now_millis();
        let job = Job {
            id: job_id.clone(),
            name: req.name,
            command: req.command,
            args: req.args,
            cwd: req.cwd,
            env: req.env,
            priority: req.priority,
            status,
            max_retries: req.max_retries,
            retry_count: 0,
            timeout_seconds: req.timeout_seconds,
            resources: req.resources,
            depends_on: req.depends_on,
            worker_id: None,
            current_attempt_id: None,
            created_at: now,
            started_at: None,
            completed_at: None,
            lease_expires_at: None,
            next_retry_at: None,
            exit_code: None,
            stdout: None,
            stderr: None,
            runtime_ms: None,
        };
        proof {
            assert(job@ =~= submitted_job(req0, job_id@, now));
        }
        match self.store.save_job(&job) {
            Ok(()) => {},
            Err(e) => {
                return Err(e);
            },
        }
        let r = Ok(SubmitJobResponse { job_id, status });
        assert(submit_happened(old(self)@.store, self@.store, req0, r, now));
        r
    }
    /// Submits the jobs in order, as `submit_job` does, and returns their
    /// ids (see `batch_state`).
    pub fn submit_batch(&mut self, req: BatchSubmitRequest) -> (r: Result<BatchSubmitResponse, StoreError>)
        requires
            old(self)@.store.inv(),
        ensures
            final(self)@.store.inv(),
            final(self)@.config == old(self)@.config,
            final(self)@.running == old(self)@.running,
            r matches Ok(resp) && {
                &&& resp.count == req.jobs@.len()
                &&& resp.job_ids@.len() == req.jobs@.len()
                &&& forall|k: int| 0 <= k < resp.job_ids@.len() ==> is_job_id(#[trigger] resp.job_ids@[k]@)
                &&& exists|times: Seq<i64>|
                    {
                        &&& times.len() == req.jobs@.len()
                        &&& forall|k: int| 0 <= k < times.len() ==> valid_timestamp(#[trigger] times[k] as int)
                        &&& final(self)@.store == batch_state(
                            old(self)@.store,
                            req.jobs@,
                            resp.job_ids.deep_view(),
                            times,
                        )
                    }
            },
    {
        let ghost reqs = req.jobs@;
        let ghost s0 = self@.store;
        let mut jobs = req.jobs;
        let mut job_ids: Vec<String> = Vec::new();
        let ghost mut times: Seq<i64> = Seq::empty();
        while jobs.len() > 0
            invariant
                self@.store.inv(),
                self@.config == old(self)@.config,
                self@.running == old(self)@.running,
                job_ids@.len() + jobs@.len() == reqs.len(),
                jobs@ == reqs.subrange(job_ids@.len() as int, reqs.len() as int),
                times.len() == job_ids@.len(),
                forall|k: int| 0 <= k < job_ids@.len() ==> is_job_id(#[trigger] job_ids@[k]@),
                forall|k: int| 0 <= k < times.len() ==> valid_timestamp(#[trigger] times[k] as int),
                self@.store == batch_state(s0, reqs.take(job_ids@.len() as int), job_ids.deep_view(), times),
            decreases jobs@.len(),
        {
            let ghost n = job_ids@.len() as int;
            let ghost before = self@.store;
            let job_req = jobs.remove(0);
            let ghost jr = job_req;
            assert(jr == reqs[n]);
            let res = self.submit_job(job_req);
            let resp = match res {
                Ok(resp) => resp,
                Err(e) => {
                    return Err(e);
                },
            };
            let ghost t = choose|t: i64|
                valid_timestamp(t as int) && self@.store == StoreView {
                    jobs: upsert_job(before.jobs, submitted_job(jr, resp.job_id@, t)),
                    ..before
                };
            let ghost ids_before = job_ids.deep_view();
            let ghost resp_id = resp.job_id@;
            job_ids.push(resp.job_id);
            proof {
                let times_before = times;
                times = times.push(t);
                assert(job_ids.deep_view() =~= ids_before.push(job_ids@[n]@));
                assert(reqs.take(n + 1).drop_last() =~= reqs.take(n));
                assert(job_ids.deep_view().drop_last() =~= ids_before);
                assert(times.drop_last() =~= times_before);
                assert(reqs.take(n + 1).last() == jr);
                assert(job_ids.deep_view().last() == resp_id);
                assert(jobs@ =~= reqs.subrange(n + 1, reqs.len() as int));
                assert(before == batch_state(s0, reqs.take(n), ids_before, times_before));
            }
        }
        proof {
            assert(reqs.take(reqs.len() as int) =~= reqs);
        }
        let count = job_ids.len();
        Ok(BatchSubmitResponse { job_ids, count })
    }

    /// Registers a worker, stamping its last heartbeat and its registration
    /// with the clock (see `upsert_worker`).
    pub fn register_worker(&mut self, req: WorkerRegisterRequest) -> (r: Result<(), StoreError>)
        requires
            old(self)@.store.inv(),
        ensures
            final(self)@.store.inv(),
            final(self)@.config == old(self)@.config,
            final(self)@.running == old(self)@.running,
            r is Ok,
            exists|heartbeat: i64, registered: i64|
                {
                    &&& valid_timestamp(heartbeat as int)
                    &&& valid_timestamp(registered as int)
                    &&& final(self)@.store == (StoreView {
                        workers: upsert_worker(
                            old(self)@.store.workers,
                            #[trigger] registered_worker(req, heartbeat, registered),
                        ),
                        ..old(self)@.store
                    })
                },
    {
        let ghost req0 = req;
        let heartbeat = now_millis();
        let registered = now_millis();
        let worker = Worker {
            id: req.worker_id,
            cpus: req.cpus,
            memory_mb: req.memory_mb,
            labels: req.labels,
            status: WorkerStatus::Active,
            active_jobs: 0,
            last_heartbeat: heartbeat,
            registered_at: registered,
        };
        assert(worker@ =~= registered_worker(req0, heartbeat, registered));
        self.store.register_worker(&worker)
    }

    /// Records a heartbeat from a worker (see `heartbeat_happened`).
    pub fn worker_heartbeat(&mut self, worker_id: &str) -> (r: Result<bool, StoreError>)
        requires
            old(self)@.store.inv(),
        ensures
            final(self)@.store.inv(),
            final(self)@.config == old(self)@.config,
            final(self)@.running == old(self)@.running,
            exists|now: i64|
                valid_timestamp(now as int) && heartbeat_happened(
                    old(self)@.store,
                    final(self)@.store,
                    r,
                    now,
                    worker_id@,
                ),
    {
        self.store.worker_heartbeat(worker_id)
    }

    /// Cancels a job (see `cancel_happened`).
    pub fn cancel_job(&mut self, job_id: &str) -> (r: Result<Job, StoreError>)
        requires
            old(self)@.store.inv(),
        ensures
            final(self)@.store.inv(),
            final(self)@.config == old(self)@.config,
            final(self)@.running == old(self)@.running,
            exists|now: i64|
                valid_timestamp(now as int) && cancel_happened(old(self)@.store, final(self)@.store, r, now, job_id@),
    {
        self.store.cancel_job(job_id)
    }

    /// The counts of jobs, workers and leases (see `metrics_of`).
    pub fn get_metrics(&self) -> (r: Result<MetricsResponse, StoreError>)
        ensures
            r matches Ok(m) && metrics_of(self@.store, m),
    {
        self.store.get_metrics()
    }
    /// Runs on start-up: reaps the leases that expired while the scheduler
    /// was down, then marks the silent workers unavailable (see
    /// `recovery_happened`).
    pub fn recover_state(&mut self) -> (r: Result<(), StoreError>)
        requires
            old(self)@.store.inv(),
        ensures
            final(self)@.store.inv(),
            final(self)@.config == old(self)@.config,
            final(self)@.running == old(self)@.running,
            exists|t1: i64, t2: i64|
                valid_timestamp(t1 as int) && valid_timestamp(t2 as int) && #[trigger] recovery_happened(
                    old(self)@.store,
                    final(self)@.store,
                    r,
                    t1,
                    t2,
                    old(self)@.config.heartbeat_timeout_ms,
                ),
    {
        let ghost s0 = self@.store;
        let timeout = self.config.heartbeat_timeout_ms;
        let reaped = self.store.reap_expired_leases();
        let ghost t1 = choose|t: i64| valid_timestamp(t as int) && reap_leases_attempted(s0, self@.store, reaped, t);
        match reaped {
            Ok(_) => {},
            Err(e) => {
                let r = Err(e);
                assert(recovery_happened(old(self)@.store, self@.store, r, t1, t1, old(self)@.config.heartbeat_timeout_ms));
                return r;
            },
        }
        let ghost s1 = self@.store;
        let dead = self.store.reap_dead_workers(timeout);
        let ghost t2 = choose|t: i64| valid_timestamp(t as int) && reap_workers_attempted(s1, self@.store, dead, t, timeout);
        match dead {
            Ok(_) => {
                let r = Ok(());
                assert(recovery_happened(old(self)@.store, self@.store, r, t1, t2, old(self)@.config.heartbeat_timeout_ms));
                r
            },
            Err(e) => {
                let r = Err(e);
                assert(recovery_happened(old(self)@.store, self@.store, r, t1, t2, old(self)@.config.heartbeat_timeout_ms));
                r
            },
        }
    }

    /// One pass of the background reaper (see `reap_pass_happened`); the
    /// caller reports what came back.
    pub fn reap_once(&mut self) -> (r: (Result<Vec<String>, StoreError>, Result<Vec<(Job, String)>, StoreError>))
        requires
            old(self)@.store.inv(),
        ensures
            final(self)@.store.inv(),
            final(self)@.config == old(self)@.config,
            final(self)@.running == old(self)@.running,
            exists|t1: i64, t2: i64, mid: StoreView|
                #[trigger] reap_pass_happened(
                    old(self)@.store,
                    mid,
                    final(self)@.store,
                    r,
                    t1,
                    t2,
                    old(self)@.config.heartbeat_timeout_ms,
                ),
    {
        let ghost s0 = self@.store;
        let timeout = self.config.heartbeat_timeout_ms;
        let dead = self.store.reap_dead_workers(timeout);
        let ghost mid = self@.store;
        let ghost t1 = choose|t: i64| valid_timestamp(t as int) && reap_workers_attempted(s0, mid, dead, t, timeout);
        let reaped = self.store.reap_expired_leases();
        let ghost t2 = choose|t: i64| valid_timestamp(t as int) && reap_leases_attempted(mid, self@.store, reaped, t);
        let r = (dead, reaped);
        assert(reap_pass_happened(old(self)@.store, mid, self@.store, r, t1, t2, old(self)@.config.heartbeat_timeout_ms));
        r
    }

    /// A worker asks for work: the poll counts as a heartbeat, then the
    /// worker claims what fits the resources it has free, under leases of
    /// the default length (see `poll_happened`).
    pub fn poll_work(&mut self, worker_id: &str, req: WorkerPollRequest) -> (r: Result<WorkerPollResponse, StoreError>)
        requires
            old(self)@.store.inv(),
        ensures
            final(self)@.store.inv(),
            final(self)@.config == old(self)@.config,
            final(self)@.running == old(self)@.running,
            exists|
                t1: i64,
                t2: i64,
                mid: StoreView,
                hb: Result<bool, StoreError>,
                claim: Result<Vec<(Job, JobAttempt)>, StoreError>,
            |
                #[trigger] poll_happened(
                    old(self)@.store,
                    mid,
                    final(self)@.store,
                    hb,
                    claim,
                    r,
                    t1,
                    t2,
                    worker_id@,
                    req,
                    old(self)@.config.default_lease_duration_ms,
                ),
            leases_match_jobs(old(self)@.store) ==> leases_match_jobs(final(self)@.store),
    {
        let ghost s0 = self@.store;
        let ghost req0 = req;
        let lease_ms = self.config.default_lease_duration_ms;
        let hb = self.store.worker_heartbeat(worker_id);
        let ghost mid = self@.store;
        let ghost t1 = choose|t: i64| valid_timestamp(t as int) && heartbeat_happened(s0, mid, hb, t, worker_id@);
        let capacity = WorkerCapacity {
            cpus: req.available_cpus,
            memory_mb: req.available_memory_mb,
            labels: req.labels,
        };
        assert(capacity@ == poll_offer(req0));
        proof {
            if leases_match_jobs(s0) {
                law_heartbeat_keeps_leases_matched(s0, mid, hb, t1, worker_id@);
            }
        }
        let claim = self.store.claim_jobs(worker_id, &capacity, req.max_jobs, lease_ms);
        let ghost claim0 = claim;
        let ghost t2 = choose|t: i64|
            valid_timestamp(t as int) && claim_attempted(
                mid,
                self@.store,
                claim0,
                t,
                worker_id@,
                poll_offer(req0),
                req0.max_jobs as int,
                lease_ms,
            );
        let claimed = match claim {
            Ok(v) => v,
            Err(e) => {
                let r = Err(e);
                assert(poll_happened(old(self)@.store, mid, self@.store, hb, claim0, r, t1, t2, worker_id@, req, old(self)@.config.default_lease_duration_ms));
                return r;
            },
        };
        let secs = lease_ms / 1000;
        let mut jobs: Vec<AssignedJob> = Vec::new();
        let mut k: usize = 0;
        while k < claimed.len()
            invariant
                k <= claimed@.len(),
                jobs@.len() == k,
                forall|m: int|
                    0 <= m < k ==> {
                        &&& (#[trigger] jobs@[m]).job@ == claimed@[m].0@
                        &&& jobs@[m].attempt_id@ == claimed@[m].1.id@
                        &&& jobs@[m].lease_duration_seconds == secs
                    },
            decreases claimed@.len() - k,
        {
            let job = claimed[k].0.clone();
            let attempt_id = claimed[k].1.id.clone();
            jobs.push(AssignedJob { job, attempt_id, lease_duration_seconds: secs });
            k = k + 1;
        }
        let r = Ok(WorkerPollResponse { jobs });
        assert(poll_happened(old(self)@.store, mid, self@.store, hb, claim0, r, t1, t2, worker_id@, req, old(self)@.config.default_lease_duration_ms));
        r
    }

    /// Renews the lease of an attempt, for the seconds the request names or
    /// the default length (see `requested_lease_ms` and `renew_attempted`).
    pub fn renew_lease(&mut self, job_id: &str, req: RenewLeaseRequest) -> (r: Result<RenewLeaseResponse, StoreError>)
        requires
            old(self)@.store.inv(),
        ensures
            final(self)@.store.inv(),
            final(self)@.config == old(self)@.config,
            final(self)@.running == old(self)@.running,
            renewal_happened(
                old(self)@.store,
                final(self)@.store,
                r,
                job_id@,
                req.attempt_id@,
                requested_lease_ms(req.duration_seconds, old(self)@.config.default_lease_duration_ms),
            ),
    {
        let ghost s0 = self@.store;
        let duration_ms = match req.duration_seconds {
            Some(secs) => match secs.checked_mul(1000) {
                Some(ms) => ms,
                None => {
                    return Err(
                        StoreError::InvalidTransition(String::from_str("Cannot renew lease: duration out of range")),
                    );
                },
            },
            None => self.config.default_lease_duration_ms,
        };
        let rr = self.store.renew_lease(job_id, req.attempt_id.as_str(), duration_ms);
        let ghost rr0 = rr;
        let ghost now = choose|t: i64|
            valid_timestamp(t as int) && renew_attempted(s0, self@.store, rr0, t, job_id@, req.attempt_id@, duration_ms);
        let r = match rr {
            Ok(new_expires_at) => Ok(RenewLeaseResponse { status: String::from_str("renewed"), new_expires_at }),
            Err(e) => Err(e),
        };
        assert(requested_lease_ms(req.duration_seconds, old(self)@.config.default_lease_duration_ms) == Some(
            duration_ms,
        ));
        assert(renew_attempted(old(self)@.store, self@.store, rr0, now, job_id@, req.attempt_id@, duration_ms));
        assert(renewal_answered(rr0, r));
        assert(renewed_for(old(self)@.store, self@.store, r, job_id@, req.attempt_id@, duration_ms));
        assert(renewal_happened(
            old(self)@.store,
            self@.store,
            r,
            job_id@,
            req.attempt_id@,
            requested_lease_ms(req.duration_seconds, old(self)@.config.default_lease_duration_ms),
        ));
        r
    }

    /// Takes a worker's report of how an attempt ended and answers
    /// accepted, retrying or ignored as stale (see `completion_attempted`
    /// and `completion_answered`).
    pub fn complete_job(&mut self, job_id: &str, req: CompleteJobRequest) -> (r: Result<CompleteJobResponse, StoreError>)
        requires
            old(self)@.store.inv(),
        ensures
            final(self)@.store.inv(),
            final(self)@.config == old(self)@.config,
            final(self)@.running == old(self)@.running,
            exists|now: i64, rr: Result<CompleteJobOutcome, StoreError>|
                valid_timestamp(now as int) && #[trigger] completion_attempted(
                    old(self)@.store,
                    final(self)@.store,
                    rr,
                    now,
                    job_id@,
                    req.attempt_id@,
                    req.exit_code,
                    req.stdout@,
                    req.stderr@,
                    req.runtime_ms,
                ) && completion_answered(rr, r),
    {
        let ghost s0 = self@.store;
        let rr = self.store.complete_job(
            job_id,
            req.attempt_id.as_str(),
            req.exit_code,
            req.stdout.as_str(),
            req.stderr.as_str(),
            req.runtime_ms,
        );
        let ghost rr0 = rr;
        let ghost now = choose|t: i64|
            valid_timestamp(t as int) && completion_attempted(
                s0,
                self@.store,
                rr0,
                t,
                job_id@,
                req.attempt_id@,
                req.exit_code,
                req.stdout@,
                req.stderr@,
                req.runtime_ms,
            );
        let r = match rr {
            Ok(CompleteJobOutcome::Accepted(_)) => Ok(CompleteJobResponse { status: String::from_str("accepted"), message: None }),
            Ok(CompleteJobOutcome::Retrying(_)) => Ok(
                CompleteJobResponse {
                    status: String::from_str("retrying"),
                    message: Some(String::from_str("Job failed but scheduled for retry with backoff")),
                },
            ),
            Ok(CompleteJobOutcome::StaleAttemptIgnored) => Ok(
                CompleteJobResponse {
                    status: String::from_str("stale_ignored"),
                    message: Some(String::from_str("Attempt ID does not match active lease. Ignored.")),
                },
            ),
            Err(e) => Err(e),
        };
        assert(completion_attempted(
            s0,
            self@.store,
            rr0,
            now,
            job_id@,
            req.attempt_id@,
            req.exit_code,
            req.stdout@,
            req.stderr@,
            req.runtime_ms,
        ));
        r
    }
}

} // verus!
