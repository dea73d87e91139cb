//! The scheduler's state: jobs, their attempts, workers and leases, with every
//! transition the scheduler makes on them. Each public operation states its
//! effect on the view of the store; the operations that read the clock come
//! in two forms, one that takes the time as an argument (`*_at`) and one that
//! reads it.
use vstd::prelude::*;
use crate::models::{clone_opt_string, Job, JobView, JobAttempt, AttemptView, Worker, WorkerView, WorkerStatus, Lease, LeaseView, JobStatus, Priority, WorkerCapacity, ResourcesView, MetricsResponse, covers};
use crate::string_map::StringMap;
use crate::holding::{leases_match_jobs, lemma_claim_keeps_leases_matched};
use crate::text::str_eq;
use crate::wrappers::{now_millis, new_uuid_simple, valid_timestamp, is_lower_hex, MAX_TIMESTAMP_MS, MIN_TIMESTAMP_MS};
use crate::sorting::{sort_rows, sorted_order, sorted_by};

verus! {

/// Why a store operation did not go through.
#[derive(Debug)]
pub enum StoreError {
    /// The record could not be written, e.g. an identifier was already taken.
    Database(String),
    /// A record could not be encoded or decoded.
    Serialization(String),
    JobNotFound(String),
    WorkerNotFound(String),
    InvalidTransition(String),
}

/// The text an error is shown with.
pub open spec fn error_text(e: StoreError) -> Seq<char> {
    match e {
        StoreError::Database(m) => "Database error: "@ + m@,
        StoreError::Serialization(m) => "Serialization error: "@ + m@,
        StoreError::JobNotFound(m) => "Job not found: "@ + m@,
        StoreError::WorkerNotFound(m) => "Worker not found: "@ + m@,
        StoreError::InvalidTransition(m) => "Invalid state transition: "@ + m@,
    }
}

impl StoreError {
    /// The text this error is shown with (see `error_text`).
    pub fn message(&self) -> (r: String)
        ensures
            r@ == error_text(*self),
    {
        match self {
            StoreError::Database(m) => String::from_str("Database error: ").concat(m.as_str()),
            StoreError::Serialization(m) => String::from_str("Serialization error: ").concat(m.as_str()),
            StoreError::JobNotFound(m) => String::from_str("Job not found: ").concat(m.as_str()),
            StoreError::WorkerNotFound(m) => String::from_str("Worker not found: ").concat(m.as_str()),
            StoreError::InvalidTransition(m) => String::from_str("Invalid state transition: ").concat(m.as_str()),
        }
    }
}

// ---------------------------------------------------------------------------
// The view of the store.
// ---------------------------------------------------------------------------

/// The four tables of the store.
#[verifier::ext_equal]
pub struct StoreView {
    pub jobs: Seq<JobView>,
    pub attempts: Seq<AttemptView>,
    pub workers: Seq<WorkerView>,
    pub leases: Seq<LeaseView>,
}

pub open spec fn job_ids_unique(jobs: Seq<JobView>) -> bool {
    forall|i: int, j: int| 0 <= i < j < jobs.len() ==> jobs[i].id != jobs[j].id
}

pub open spec fn attempt_ids_unique(attempts: Seq<AttemptView>) -> bool {
    forall|i: int, j: int| 0 <= i < j < attempts.len() ==> attempts[i].id != attempts[j].id
}

pub open spec fn worker_ids_unique(workers: Seq<WorkerView>) -> bool {
    forall|i: int, j: int| 0 <= i < j < workers.len() ==> workers[i].id != workers[j].id
}

/// No job holds two leases.
pub open spec fn lease_jobs_unique(leases: Seq<LeaseView>) -> bool {
    forall|i: int, j: int| 0 <= i < j < leases.len() ==> leases[i].job_id != leases[j].job_id
}

impl StoreView {
    /// Every table is keyed: jobs, attempts and workers by their ids, leases
    /// by the job they hold.
    pub open spec fn inv(self) -> bool {
        &&& job_ids_unique(self.jobs)
        &&& attempt_ids_unique(self.attempts)
        &&& worker_ids_unique(self.workers)
        &&& lease_jobs_unique(self.leases)
    }
}

/// The position of the job with this id, or -1.
pub open spec fn job_index(jobs: Seq<JobView>, id: Seq<char>) -> int {
    if exists|i: int| 0 <= i < jobs.len() && jobs[i].id == id {
        choose|i: int| 0 <= i < jobs.len() && jobs[i].id == id
    } else {
        -1
    }
}

/// The position of the attempt with this id, or -1.
pub open spec fn attempt_index(attempts: Seq<AttemptView>, id: Seq<char>) -> int {
    if exists|i: int| 0 <= i < attempts.len() && attempts[i].id == id {
        choose|i: int| 0 <= i < attempts.len() && attempts[i].id == id
    } else {
        -1
    }
}

/// The position of the worker with this id, or -1.
pub open spec fn worker_index(workers: Seq<WorkerView>, id: Seq<char>) -> int {
    if exists|i: int| 0 <= i < workers.len() && workers[i].id == id {
        choose|i: int| 0 <= i < workers.len() && workers[i].id == id
    } else {
        -1
    }
}

/// The position of the lease held for this job, or -1.
pub open spec fn lease_index(leases: Seq<LeaseView>, job_id: Seq<char>) -> int {
    if exists|i: int| 0 <= i < leases.len() && leases[i].job_id == job_id {
        choose|i: int| 0 <= i < leases.len() && leases[i].job_id == job_id
    } else {
        -1
    }
}

proof fn lemma_job_index(jobs: Seq<JobView>, i: int)
    requires
        job_ids_unique(jobs),
        0 <= i < jobs.len(),
    ensures
        job_index(jobs, jobs[i].id) == i,
{
}

proof fn lemma_attempt_index(attempts: Seq<AttemptView>, i: int)
    requires
        attempt_ids_unique(attempts),
        0 <= i < attempts.len(),
    ensures
        attempt_index(attempts, attempts[i].id) == i,
{
}

proof fn lemma_worker_index(workers: Seq<WorkerView>, i: int)
    requires
        worker_ids_unique(workers),
        0 <= i < workers.len(),
    ensures
        worker_index(workers, workers[i].id) == i,
{
}

proof fn lemma_lease_index(leases: Seq<LeaseView>, i: int)
    requires
        lease_jobs_unique(leases),
        0 <= i < leases.len(),
    ensures
        lease_index(leases, leases[i].job_id) == i,
{
}

/// Writes a job: a job with the same id is replaced, keeping its creation
/// time; otherwise the job is added at the end.
pub open spec fn upsert_job(jobs: Seq<JobView>, job: JobView) -> Seq<JobView> {
    let i = job_index(jobs, job.id);
    if i >= 0 {
        jobs.update(i, JobView { created_at: jobs[i].created_at, ..job })
    } else {
        jobs.push(job)
    }
}

/// Writes a worker registration: a known worker gets the new resources and
/// heartbeat and becomes active, keeping its job count and registration
/// time; an unknown worker is added as given.
pub open spec fn upsert_worker(workers: Seq<WorkerView>, w: WorkerView) -> Seq<WorkerView> {
    let i = worker_index(workers, w.id);
    if i >= 0 {
        workers.update(
            i,
            WorkerView {
                cpus: w.cpus,
                memory_mb: w.memory_mb,
                labels: w.labels,
                status: WorkerStatus::Active,
                last_heartbeat: w.last_heartbeat,
                ..workers[i]
            },
        )
    } else {
        workers.push(w)
    }
}


/// How a report of an attempt's end was taken.
pub enum OutcomeView {
    Accepted(JobView),
    Retrying(JobView),
    StaleAttemptIgnored,
}

/// How the store took a report of an attempt's end.
#[derive(Debug)]
pub enum CompleteJobOutcome {
    /// The job reached its final state, which it carries.
    Accepted(Job),
    /// The job failed and waits to be retried; it carries the job.
    Retrying(Job),
    /// The attempt is no longer the job's current one; nothing changed.
    StaleAttemptIgnored,
}

impl View for CompleteJobOutcome {
    type V = OutcomeView;

    open spec fn view(&self) -> OutcomeView {
        match self {
            CompleteJobOutcome::Accepted(j) => OutcomeView::Accepted(j@),
            CompleteJobOutcome::Retrying(j) => OutcomeView::Retrying(j@),
            CompleteJobOutcome::StaleAttemptIgnored => OutcomeView::StaleAttemptIgnored,
        }
    }
}

/// The status of the job with this id, if there is one.
pub open spec fn status_of(jobs: Seq<JobView>, id: Seq<char>) -> Option<JobStatus> {
    let i = job_index(jobs, id);
    if i >= 0 {
        Some(jobs[i].status)
    } else {
        None
    }
}

/// Every listed dependency is a job that has succeeded.
pub open spec fn deps_succeeded(jobs: Seq<JobView>, deps: Seq<Seq<char>>) -> bool {
    forall|d: int| 0 <= d < deps.len() ==> status_of(jobs, #[trigger] deps[d]) == Some(JobStatus::Succeeded)
}

/// After job `done` succeeds, every blocked job that depends on it and whose
/// dependencies have all succeeded is queued.
pub open spec fn unblock_dependents(jobs: Seq<JobView>, done: Seq<char>) -> Seq<JobView> {
    Seq::new(
        jobs.len(),
        |i: int|
            if jobs[i].status == JobStatus::Blocked && jobs[i].depends_on.contains(done) && deps_succeeded(
                jobs,
                jobs[i].depends_on,
            ) {
                JobView { status: JobStatus::Queued, ..jobs[i] }
            } else {
                jobs[i]
            },
    )
}

/// After job `failed` fails or is cancelled, every blocked job that depends
/// on it directly is cancelled.
pub open spec fn fail_dependents(jobs: Seq<JobView>, failed: Seq<char>) -> Seq<JobView> {
    Seq::new(
        jobs.len(),
        |i: int|
            if jobs[i].status == JobStatus::Blocked && jobs[i].depends_on.contains(failed) {
                JobView { status: JobStatus::Cancelled, ..jobs[i] }
            } else {
                jobs[i]
            },
    )
}

/// The attempts with this id end with `status` at `now`; when `result` is
/// given, it records their exit code and run time too.
pub open spec fn finish_attempts(
    attempts: Seq<AttemptView>,
    id: Seq<char>,
    status: Seq<char>,
    now: i64,
    result: Option<(i32, u64)>,
) -> Seq<AttemptView> {
    Seq::new(
        attempts.len(),
        |i: int|
            if attempts[i].id == id {
                match result {
                    Some(res) => AttemptView {
                        status,
                        completed_at: Some(now),
                        exit_code: Some(res.0),
                        runtime_ms: Some(res.1),
                        ..attempts[i]
                    },
                    None => AttemptView { status, completed_at: Some(now), ..attempts[i] },
                }
            } else {
                attempts[i]
            },
    )
}

/// One job fewer on a worker, never below zero.
pub open spec fn one_less(n: u32) -> u32 {
    if n > 0 {
        (n - 1) as u32
    } else {
        0
    }
}

/// The worker with this id has one active job fewer.
pub open spec fn release_worker(workers: Seq<WorkerView>, id: Seq<char>) -> Seq<WorkerView> {
    Seq::new(
        workers.len(),
        |i: int|
            if workers[i].id == id {
                WorkerView { active_jobs: one_less(workers[i].active_jobs), ..workers[i] }
            } else {
                workers[i]
            },
    )
}

/// The workers after a job held by `worker` (if any) lets go of it.
pub open spec fn release_holder(workers: Seq<WorkerView>, worker: Option<Seq<char>>) -> Seq<WorkerView> {
    match worker {
        Some(w) => release_worker(workers, w),
        None => workers,
    }
}

/// The leases without the one held for this job.
pub open spec fn drop_lease(leases: Seq<LeaseView>, job_id: Seq<char>) -> Seq<LeaseView> {
    let i = lease_index(leases, job_id);
    if i >= 0 {
        leases.remove(i)
    } else {
        leases
    }
}

/// The wait, in milliseconds, before retry number `n`: 2^n seconds.
pub open spec fn backoff_ms(n: nat) -> int
    decreases n,
{
    if n == 0 {
        1000
    } else {
        2 * backoff_ms((n - 1) as nat)
    }
}

/// A later retry never waits less.
pub proof fn lemma_backoff_grows(m: nat, n: nat)
    requires
        m <= n,
    ensures
        1000 <= backoff_ms(m) <= backoff_ms(n),
    decreases n,
{
    if n > m {
        lemma_backoff_grows(m, (n - 1) as nat);
    } else if n > 0 {
        lemma_backoff_grows(0, (n - 1) as nat);
    }
}

/// A report names a stale attempt when the job is finished, or when the
/// attempt is not the job's current one.
pub open spec fn is_stale(job: JobView, attempt_id: Seq<char>) -> bool {
    job.status.terminal() || job.status == JobStatus::Cancelled || job.current_attempt_id != Some(
        attempt_id,
    )
}

/// The job after a successful run.
pub open spec fn succeeded_job(
    job: JobView,
    now: i64,
    stdout: Seq<char>,
    stderr: Seq<char>,
    runtime_ms: u64,
) -> JobView {
    JobView {
        status: JobStatus::Succeeded,
        completed_at: Some(now),
        exit_code: Some(0),
        stdout: Some(stdout),
        stderr: Some(stderr),
        runtime_ms: Some(runtime_ms),
        ..job
    }
}

/// The job after a failed run that exhausted its retries.
pub open spec fn failed_job(
    job: JobView,
    now: i64,
    exit_code: i32,
    stdout: Seq<char>,
    stderr: Seq<char>,
    runtime_ms: u64,
) -> JobView {
    JobView {
        status: JobStatus::Failed,
        completed_at: Some(now),
        exit_code: Some(exit_code),
        stdout: Some(stdout),
        stderr: Some(stderr),
        runtime_ms: Some(runtime_ms),
        ..job
    }
}

/// The job put back for another try: one more retry counted, free of its
/// worker, attempt and lease, and not to be claimed before 2^retries seconds.
pub open spec fn retrying_job(job: JobView, now: i64) -> JobView {
    JobView {
        retry_count: (job.retry_count + 1) as u32,
        status: JobStatus::Retrying,
        next_retry_at: Some((now + backoff_ms((job.retry_count + 1) as nat)) as i64),
        worker_id: None,
        current_attempt_id: None,
        lease_expires_at: None,
        ..job
    }
}

/// Whether a failed run of this job is retried (rather than final).
pub open spec fn retries_left(job: JobView) -> bool {
    job.retry_count < job.max_retries
}

/// A retry of this job gets a deadline that chrono can hold.
pub open spec fn retry_fits(job: JobView, now: i64) -> bool {
    now + backoff_ms((job.retry_count + 1) as nat) <= MAX_TIMESTAMP_MS
}

/// The job as a report of its current attempt leaves it.
pub open spec fn completed_job(
    job: JobView,
    now: i64,
    exit_code: i32,
    stdout: Seq<char>,
    stderr: Seq<char>,
    runtime_ms: u64,
) -> JobView {
    if exit_code == 0 {
        succeeded_job(job, now, stdout, stderr, runtime_ms)
    } else if retries_left(job) {
        retrying_job(job, now)
    } else {
        failed_job(job, now, exit_code, stdout, stderr, runtime_ms)
    }
}

/// The store after the current attempt of job `i` reports its end: the
/// attempt is recorded, the job's lease is dropped, its worker has one job
/// fewer, and the job moves on (see `completed_job`), its lease deadline
/// cleared. A success queues the dependents that were waiting only for it;
/// a final failure cancels the blocked dependents.
pub open spec fn completion_state(
    s: StoreView,
    i: int,
    now: i64,
    attempt_id: Seq<char>,
    exit_code: i32,
    stdout: Seq<char>,
    stderr: Seq<char>,
    runtime_ms: u64,
) -> StoreView {
    let job = s.jobs[i];
    let done = JobView {
        lease_expires_at: None,
        ..completed_job(job, now, exit_code, stdout, stderr, runtime_ms)
    };
    let jobs = if exit_code == 0 {
        unblock_dependents(s.jobs.update(i, done), job.id)
    } else if retries_left(job) {
        s.jobs.update(i, done)
    } else {
        fail_dependents(s.jobs.update(i, done), job.id)
    };
    StoreView {
        jobs,
        attempts: finish_attempts(
            s.attempts,
            attempt_id,
            if exit_code == 0 {
                "SUCCEEDED"@
            } else {
                "FAILED"@
            },
            now,
            Some((exit_code, runtime_ms)),
        ),
        workers: release_holder(s.workers, job.worker_id),
        leases: drop_lease(s.leases, job.id),
    }
}

/// What a report of the current attempt of `job` answers: the job as it was
/// moved on (its lease deadline as it stood before), `Retrying` when it will
/// be retried.
pub open spec fn completion_outcome(
    job: JobView,
    now: i64,
    exit_code: i32,
    stdout: Seq<char>,
    stderr: Seq<char>,
    runtime_ms: u64,
) -> OutcomeView {
    if exit_code != 0 && retries_left(job) {
        OutcomeView::Retrying(retrying_job(job, now))
    } else {
        OutcomeView::Accepted(completed_job(job, now, exit_code, stdout, stderr, runtime_ms))
    }
}

/// The store after job `i`, not yet finished, is cancelled at `now`: the job
/// is cancelled and freed from its worker, attempt and lease; its lease is
/// dropped, its worker has one job fewer, its attempt is marked cancelled,
/// and the blocked jobs that depend on it are cancelled.
pub open spec fn cancellation_state(s: StoreView, i: int, now: i64) -> StoreView {
    let job = s.jobs[i];
    StoreView {
        jobs: fail_dependents(s.jobs.update(i, cancelled_job(job, now)), job.id),
        attempts: match job.current_attempt_id {
            Some(a) => finish_attempts(s.attempts, a, "CANCELLED"@, now, None),
            None => s.attempts,
        },
        workers: release_holder(s.workers, job.worker_id),
        leases: drop_lease(s.leases, job.id),
    }
}

/// The job cancelled at `now`.
pub open spec fn cancelled_job(job: JobView, now: i64) -> JobView {
    JobView {
        status: JobStatus::Cancelled,
        completed_at: Some(now),
        worker_id: None,
        current_attempt_id: None,
        lease_expires_at: None,
        ..job
    }
}

// ---------------------------------------------------------------------------
// Claiming work.
// ---------------------------------------------------------------------------

/// A job a worker may claim at `now`: queued, or waiting for a retry whose
/// time has come.
pub open spec fn claimable(job: JobView, now: i64) -> bool {
    ||| job.status == JobStatus::Queued
    ||| (job.status == JobStatus::Retrying && (job.next_retry_at is None || job.next_retry_at->0 <= now))
}

/// The keys jobs are ordered by when claimed at `now`: the aging score,
/// higher first, then the creation time, older first.
pub open spec fn claim_keys(jobs: Seq<JobView>, now: i64) -> Seq<(i64, i64)> {
    Seq::new(
        jobs.len(),
        |i: int| (jobs[i].priority.aging_score(jobs[i].created_at, now) as i64, jobs[i].created_at),
    )
}

/// The order in which jobs are considered for a claim at `now`.
pub open spec fn claim_order(jobs: Seq<JobView>, now: i64) -> Seq<usize> {
    sorted_order(claim_keys(jobs, now))
}

/// What is left of an offer once a job takes its CPUs and memory.
pub open spec fn after_taking(offer: ResourcesView, need: ResourcesView) -> ResourcesView {
    ResourcesView {
        cpus: (offer.cpus - need.cpus) as u32,
        memory_mb: (offer.memory_mb - need.memory_mb) as u64,
        labels: offer.labels,
    }
}

/// Going through `order`, each claimable job that still fits what is left of
/// the offer is taken, until `max_jobs` are taken.
pub open spec fn greedy_claims(
    jobs: Seq<JobView>,
    order: Seq<usize>,
    now: i64,
    offer: ResourcesView,
    max_jobs: int,
) -> Seq<usize>
    decreases order.len(),
{
    if order.len() == 0 || max_jobs <= 0 {
        Seq::empty()
    } else {
        let job = jobs[order[0] as int];
        if claimable(job, now) && covers(offer, job.resources) {
            seq![order[0]] + greedy_claims(
                jobs,
                order.drop_first(),
                now,
                after_taking(offer, job.resources),
                max_jobs - 1,
            )
        } else {
            greedy_claims(jobs, order.drop_first(), now, offer, max_jobs)
        }
    }
}

/// The positions of the jobs a worker offering `offer` claims at `now`, in
/// the order they are claimed.
pub open spec fn claim_selection(jobs: Seq<JobView>, now: i64, offer: ResourcesView, max_jobs: int) -> Seq<
    usize,
> {
    greedy_claims(jobs, claim_order(jobs, now), now, offer, max_jobs)
}

/// The job handed to `worker` under attempt `attempt_id` at `now`, its lease
/// running until `expires`.
pub open spec fn assigned_job(
    job: JobView,
    worker: Seq<char>,
    attempt_id: Seq<char>,
    now: i64,
    expires: i64,
) -> JobView {
    JobView {
        status: JobStatus::Assigned,
        worker_id: Some(worker),
        current_attempt_id: Some(attempt_id),
        started_at: Some(now),
        lease_expires_at: Some(expires),
        ..job
    }
}

/// How many attempts of this job there are.
pub open spec fn count_attempts(attempts: Seq<AttemptView>, job_id: Seq<char>) -> nat
    decreases attempts.len(),
{
    if attempts.len() == 0 {
        0
    } else {
        count_attempts(attempts.drop_last(), job_id) + if attempts.last().job_id == job_id {
            1nat
        } else {
            0nat
        }
    }
}

/// The attempt started when `worker` claims job `job_id` at `now`: it is
/// numbered one past the job's earlier attempts, and is running.
pub open spec fn new_attempt(
    attempts: Seq<AttemptView>,
    job_id: Seq<char>,
    attempt_id: Seq<char>,
    worker: Seq<char>,
    now: i64,
) -> AttemptView {
    AttemptView {
        id: attempt_id,
        job_id,
        attempt_number: (count_attempts(attempts, job_id) + 1) as u32,
        worker_id: worker,
        status: "RUNNING"@,
        started_at: now,
        completed_at: None,
        exit_code: None,
        runtime_ms: None,
        error: None,
    }
}

/// Writes a lease: it replaces the lease held for the same job, or is added
/// at the end.
pub open spec fn upsert_lease(leases: Seq<LeaseView>, l: LeaseView) -> Seq<LeaseView> {
    let i = lease_index(leases, l.job_id);
    if i >= 0 {
        leases.update(i, l)
    } else {
        leases.push(l)
    }
}

/// Writes the leases one after another.
pub open spec fn upsert_leases(leases: Seq<LeaseView>, news: Seq<LeaseView>) -> Seq<LeaseView>
    decreases news.len(),
{
    if news.len() == 0 {
        leases
    } else {
        upsert_lease(upsert_leases(leases, news.drop_last()), news.last())
    }
}

/// Assigns the jobs at the positions `sel` one after another, the k-th under
/// attempt `ids[k]`.
pub open spec fn assign_jobs(
    jobs: Seq<JobView>,
    sel: Seq<usize>,
    ids: Seq<Seq<char>>,
    worker: Seq<char>,
    now: i64,
    expires: i64,
) -> Seq<JobView>
    decreases sel.len(),
{
    if sel.len() == 0 {
        jobs
    } else {
        let p = assign_jobs(jobs, sel.drop_last(), ids, worker, now, expires);
        let i = sel.last() as int;
        p.update(i, assigned_job(p[i], worker, ids[sel.len() - 1], now, expires))
    }
}

/// A job count grown by `k`, stopping at the largest `u32`.
pub open spec fn more_jobs(n: u32, k: int) -> u32 {
    if n + k > u32::MAX {
        u32::MAX
    } else {
        (n + k) as u32
    }
}

/// An attempt id as the store makes them: `att-` and 32 lowercase
/// hexadecimal digits.
pub open spec fn is_attempt_id(id: Seq<char>) -> bool {
    &&& id.len() == 36
    &&& id.subrange(0, 4) == "att-"@
    &&& forall|i: int| 4 <= i < 36 ==> is_lower_hex(#[trigger] id[i])
}

/// The leases taken when the jobs at `sel` are claimed.
pub open spec fn claim_leases(
    s: StoreView,
    sel: Seq<usize>,
    ids: Seq<Seq<char>>,
    worker: Seq<char>,
    expires: i64,
) -> Seq<LeaseView> {
    Seq::new(
        sel.len(),
        |k: int|
            LeaseView {
                job_id: s.jobs[sel[k] as int].id,
                attempt_id: ids[k],
                worker_id: worker,
                expires_at: expires,
            },
    )
}

/// The store after `worker` claims the jobs at `sel` at `now`, the k-th under
/// attempt `ids[k]`: the jobs are assigned, one new attempt each is
/// recorded, each job's lease is written, and the worker counts the claimed
/// jobs among its active ones.
pub open spec fn claim_state(
    s: StoreView,
    sel: Seq<usize>,
    ids: Seq<Seq<char>>,
    worker: Seq<char>,
    now: i64,
    expires: i64,
) -> StoreView {
    StoreView {
        jobs: assign_jobs(s.jobs, sel, ids, worker, now, expires),
        attempts: s.attempts + Seq::new(
            sel.len(),
            |k: int| new_attempt(s.attempts, s.jobs[sel[k] as int].id, ids[k], worker, now),
        ),
        workers: if sel.len() > 0 {
            Seq::new(
                s.workers.len(),
                |i: int|
                    if s.workers[i].id == worker {
                        WorkerView {
                            active_jobs: more_jobs(s.workers[i].active_jobs, sel.len() as int),
                            ..s.workers[i]
                        }
                    } else {
                        s.workers[i]
                    },
            )
        } else {
            s.workers
        },
        leases: upsert_leases(s.leases, claim_leases(s, sel, ids, worker, expires)),
    }
}

/// The attempt ids carried by the claimed pairs.
pub open spec fn claimed_ids(v: Seq<(Job, JobAttempt)>) -> Seq<Seq<char>> {
    Seq::new(v.len(), |k: int| v[k].1.id@)
}

/// The first `n` of the ids are fresh: none names a stored attempt, and
/// none repeats an earlier one.
pub open spec fn ids_fresh(attempts: Seq<AttemptView>, ids: Seq<Seq<char>>, n: int) -> bool {
    forall|k: int|
        0 <= k < n ==> attempt_index(attempts, #[trigger] ids[k]) == -1 && forall|j: int|
            0 <= j < k ==> ids[j] != ids[k]
}

/// The message of a claim whose attempt id is already taken.
pub open spec fn id_taken_message() -> Seq<char> {
    "UNIQUE constraint failed: job_attempts.id"@
}

/// What a claim by `worker`, offering `offer` and taking at most `max_jobs`
/// at `now` with leases until `expires`, does when the k-th claimed job is
/// to run under attempt `ids[k]`: when those ids are fresh, the jobs of
/// `claim_selection` are claimed in order (see `claim_state`) and returned
/// with their attempts; when one is taken, the claim fails and nothing
/// changes.
pub open spec fn claimed_with(
    old: StoreView,
    new: StoreView,
    r: Result<Vec<(Job, JobAttempt)>, StoreError>,
    now: i64,
    worker: Seq<char>,
    offer: ResourcesView,
    max_jobs: int,
    expires: i64,
    ids: Seq<Seq<char>>,
) -> bool {
    let sel = claim_selection(old.jobs, now, offer, max_jobs);
    if ids_fresh(old.attempts, ids, sel.len() as int) {
        r matches Ok(v) && {
            &&& v@.len() == sel.len()
            &&& forall|k: int|
                0 <= k < sel.len() ==> {
                    &&& (#[trigger] v@[k]).1.id@ == ids[k]
                    &&& v@[k].0@ == assigned_job(old.jobs[sel[k] as int], worker, ids[k], now, expires)
                    &&& v@[k].1@ == new_attempt(old.attempts, old.jobs[sel[k] as int].id, ids[k], worker, now)
                }
            &&& new == claim_state(old, sel, ids.take(sel.len() as int), worker, now, expires)
        }
    } else {
        &&& r matches Err(StoreError::Database(m)) && m@ == id_taken_message()
        &&& new == old
    }
}

/// What a claim by `worker`, offering `offer` and taking at most `max_jobs`
/// at `now` with leases until `expires`, does to the store: each claimed job
/// runs under a newly drawn attempt id (`att-` and 32 hexadecimal digits),
/// and the claim goes as `claimed_with` says for those ids.
pub open spec fn claim_happened(
    old: StoreView,
    new: StoreView,
    r: Result<Vec<(Job, JobAttempt)>, StoreError>,
    now: i64,
    worker: Seq<char>,
    offer: ResourcesView,
    max_jobs: int,
    expires: i64,
) -> bool {
    exists|ids: Seq<Seq<char>>|
        {
            &&& ids.len() == claim_selection(old.jobs, now, offer, max_jobs).len()
            &&& forall|k: int| 0 <= k < ids.len() ==> is_attempt_id(#[trigger] ids[k])
            &&& #[trigger] claimed_with(old, new, r, now, worker, offer, max_jobs, expires, ids)
        }
}

// ---------------------------------------------------------------------------
// The store.
// ---------------------------------------------------------------------------

/// What a heartbeat from `worker_id` at time `now` does: a known worker gets
/// `now` as its last heartbeat and becomes active, and the answer is `true`;
/// for an unknown worker nothing changes and the answer is `false`.
pub open spec fn heartbeat_happened(
    old: StoreView,
    new: StoreView,
    r: Result<bool, StoreError>,
    now: i64,
    worker_id: Seq<char>,
) -> bool {
    let i = worker_index(old.workers, worker_id);
    if i >= 0 {
        &&& r == Ok::<bool, StoreError>(true)
        &&& new == StoreView {
            workers: old.workers.update(
                i,
                WorkerView { last_heartbeat: now, status: WorkerStatus::Active, ..old.workers[i] },
            ),
            ..old
        }
    } else {
        r == Ok::<bool, StoreError>(false) && new == old
    }
}

/// The scheduler's tables, kept in memory.
pub struct Store {
    jobs: Vec<Job>,
    attempts: Vec<JobAttempt>,
    workers: Vec<Worker>,
    leases: Vec<Lease>,
}

impl View for Store {
    type V = StoreView;

    closed spec fn view(&self) -> StoreView {
        StoreView {
            jobs: self.jobs@.map_values(|j: Job| j@),
            attempts: self.attempts@.map_values(|a: JobAttempt| a@),
            workers: self.workers@.map_values(|w: Worker| w@),
            leases: self.leases@.map_values(|l: Lease| l@),
        }
    }
}

impl Store {
    /// An empty store.
    pub fn new() -> (s: Store)
        ensures
            s@.jobs.len() == 0,
            s@.attempts.len() == 0,
            s@.workers.len() == 0,
            s@.leases.len() == 0,
            s@.inv(),
    {
        let s = Store {
            jobs: Vec::new(),
            attempts: Vec::new(),
            workers: Vec::new(),
            leases: Vec::new(),
        };
        assert(s@.jobs =~= Seq::<JobView>::empty());
        assert(s@.attempts =~= Seq::<AttemptView>::empty());
        assert(s@.workers =~= Seq::<WorkerView>::empty());
        assert(s@.leases =~= Seq::<LeaseView>::empty());
        s
    }

    /// The position of the job with this id.
    fn find_job(&self, id: &str) -> (r: Option<usize>)
        requires
            self@.inv(),
        ensures
            match r {
                Some(i) => i < self@.jobs.len() && i == job_index(self@.jobs, id@),
                None => job_index(self@.jobs, id@) == -1,
            },
    {
        let mut i: usize = 0;
        while i < self.jobs.len()
            invariant
                i <= self.jobs@.len(),
                self@.inv(),
                forall|j: int| 0 <= j < i ==> #[trigger] self@.jobs[j].id != id@,
            decreases self.jobs@.len() - i,
        {
            if str_eq(self.jobs[i].id.as_str(), id) {
                proof {
                    lemma_job_index(self@.jobs, i as int);
                }
                return Some(i);
            }
            i = i + 1;
        }
        None
    }

    /// The position of the attempt with this id.
    fn find_attempt(&self, id: &str) -> (r: Option<usize>)
        requires
            self@.inv(),
        ensures
            match r {
                Some(i) => i < self@.attempts.len() && i == attempt_index(self@.attempts, id@),
                None => attempt_index(self@.attempts, id@) == -1,
            },
    {
        let mut i: usize = 0;
        while i < self.attempts.len()
            invariant
                i <= self.attempts@.len(),
                self@.inv(),
                forall|j: int| 0 <= j < i ==> #[trigger] self@.attempts[j].id != id@,
            decreases self.attempts@.len() - i,
        {
            if str_eq(self.attempts[i].id.as_str(), id) {
                proof {
                    lemma_attempt_index(self@.attempts, i as int);
                }
                return Some(i);
            }
            i = i + 1;
        }
        None
    }

    /// The position of the worker with this id.
    fn find_worker(&self, id: &str) -> (r: Option<usize>)
        requires
            self@.inv(),
        ensures
            match r {
                Some(i) => i < self@.workers.len() && i == worker_index(self@.workers, id@),
                None => worker_index(self@.workers, id@) == -1,
            },
    {
        let mut i: usize = 0;
        while i < self.workers.len()
            invariant
                i <= self.workers@.len(),
                self@.inv(),
                forall|j: int| 0 <= j < i ==> #[trigger] self@.workers[j].id != id@,
            decreases self.workers@.len() - i,
        {
            if str_eq(self.workers[i].id.as_str(), id) {
                proof {
                    lemma_worker_index(self@.workers, i as int);
                }
                return Some(i);
            }
            i = i + 1;
        }
        None
    }

    /// The position of the lease held for this job.
    fn find_lease(&self, job_id: &str) -> (r: Option<usize>)
        requires
            self@.inv(),
        ensures
            match r {
                Some(i) => i < self@.leases.len() && i == lease_index(self@.leases, job_id@),
                None => lease_index(self@.leases, job_id@) == -1,
            },
    {
        let mut i: usize = 0;
        while i < self.leases.len()
            invariant
                i <= self.leases@.len(),
                self@.inv(),
                forall|j: int| 0 <= j < i ==> #[trigger] self@.leases[j].job_id != job_id@,
            decreases self.leases@.len() - i,
        {
            if str_eq(self.leases[i].job_id.as_str(), job_id) {
                proof {
                    lemma_lease_index(self@.leases, i as int);
                }
                return Some(i);
            }
            i = i + 1;
        }
        None
    }

    /// Writes a job (see `upsert_job`).
    pub fn save_job(&mut self, job: &Job) -> (r: Result<(), StoreError>)
        requires
            old(self)@.inv(),
        ensures
            r is Ok,
            final(self)@ == (StoreView { jobs: upsert_job(old(self)@.jobs, job@), ..old(self)@ }),
            final(self)@.inv(),
    {
        let ghost old_view = self@;
        match self.find_job(job.id.as_str()) {
            Some(i) => {
                let mut copy = job.clone();
                copy.created_at = self.jobs[i].created_at;
                self.jobs[i] = copy;
                proof {
                    assert(self@.jobs =~= upsert_job(old_view.jobs, job@));
                }
            },
            None => {
                self.jobs.push(job.clone());
                proof {
                    assert(self@.jobs =~= upsert_job(old_view.jobs, job@));
                    assert forall|i: int, j: int| 0 <= i < j < self@.jobs.len() implies self@.jobs[i].id
                        != self@.jobs[j].id by {
                        if j == self@.jobs.len() - 1 {
                            assert(old_view.jobs[i].id != job@.id);
                        }
                    }
                }
            },
        }
        proof {
            assert(self@ =~= StoreView { jobs: upsert_job(old_view.jobs, job@), ..old_view });
        }
        Ok(())
    }

    /// The job with this id, if any.
    pub fn get_job(&self, id: &str) -> (r: Result<Option<Job>, StoreError>)
        requires
            self@.inv(),
        ensures
            match r {
                Ok(Some(j)) => job_index(self@.jobs, id@) >= 0 && j@ == self@.jobs[job_index(self@.jobs, id@)],
                Ok(None) => job_index(self@.jobs, id@) == -1,
                Err(_) => false,
            },
    {
        match self.find_job(id) {
            Some(i) => Ok(Some(self.jobs[i].clone())),
            None => Ok(None),
        }
    }

    /// The worker with this id, if any.
    pub fn get_worker(&self, worker_id: &str) -> (r: Result<Option<Worker>, StoreError>)
        requires
            self@.inv(),
        ensures
            match r {
                Ok(Some(w)) => worker_index(self@.workers, worker_id@) >= 0 && w@ == self@.workers[worker_index(
                    self@.workers,
                    worker_id@,
                )],
                Ok(None) => worker_index(self@.workers, worker_id@) == -1,
                Err(_) => false,
            },
    {
        match self.find_worker(worker_id) {
            Some(i) => Ok(Some(self.workers[i].clone())),
            None => Ok(None),
        }
    }

    /// Writes a worker registration (see `upsert_worker`).
    pub fn register_worker(&mut self, worker: &Worker) -> (r: Result<(), StoreError>)
        requires
            old(self)@.inv(),
        ensures
            r is Ok,
            final(self)@ == (StoreView { workers: upsert_worker(old(self)@.workers, worker@), ..old(self)@ }),
            final(self)@.inv(),
    {
        let ghost old_view = self@;
        match self.find_worker(worker.id.as_str()) {
            Some(i) => {
                let mut w = self.workers[i].clone();
                w.cpus = worker.cpus;
                w.memory_mb = worker.memory_mb;
                w.labels = worker.labels.clone();
                w.status = WorkerStatus::Active;
                w.last_heartbeat = worker.last_heartbeat;
                self.workers[i] = w;
                proof {
                    assert(self@.workers =~= upsert_worker(old_view.workers, worker@));
                }
            },
            None => {
                self.workers.push(worker.clone());
                proof {
                    assert(self@.workers =~= upsert_worker(old_view.workers, worker@));
                    assert forall|i: int, j: int| 0 <= i < j < self@.workers.len() implies self@.workers[i].id
                        != self@.workers[j].id by {
                        if j == self@.workers.len() - 1 {
                            assert(old_view.workers[i].id != worker@.id);
                        }
                    }
                }
            },
        }
        proof {
            assert(self@ =~= StoreView { workers: upsert_worker(old_view.workers, worker@), ..old_view });
        }
        Ok(())
    }

    /// Records a heartbeat from `worker_id` at `now` (see
    /// `heartbeat_happened`).
    pub fn worker_heartbeat_at(&mut self, now: i64, worker_id: &str) -> (r: Result<bool, StoreError>)
        requires
            old(self)@.inv(),
        ensures
            final(self)@.inv(),
            heartbeat_happened(old(self)@, final(self)@, r, now, worker_id@),
    {
        let ghost old_view = self@;
        match self.find_worker(worker_id) {
            Some(i) => {
                let mut w = self.workers[i].clone();
                w.last_heartbeat = now;
                w.status = WorkerStatus::Active;
                self.workers[i] = w;
                proof {
                    assert(self@ =~= StoreView {
                        workers: old_view.workers.update(
                            i as int,
                            WorkerView {
                                last_heartbeat: now,
                                status: WorkerStatus::Active,
                                ..old_view.workers[i as int]
                            },
                        ),
                        ..old_view
                    });
                }
                Ok(true)
            },
            None => Ok(false),
        }
    }

    /// Records a heartbeat at the current time (see `heartbeat_happened`).
    pub fn worker_heartbeat(&mut self, worker_id: &str) -> (r: Result<bool, StoreError>)
        requires
            old(self)@.inv(),
        ensures
            final(self)@.inv(),
            exists|now: i64| valid_timestamp(now as int) && heartbeat_happened(old(self)@, final(self)@, r, now, worker_id@),
    {
        let now = now_millis();
        self.worker_heartbeat_at(now, worker_id)
    }
}


/// Whether the list holds this string.
fn strings_contain(v: &Vec<String>, s: &str) -> (r: bool)
    ensures
        r == v.deep_view().contains(s@),
{
    let mut i: usize = 0;
    while i < v.len()
        invariant
            i <= v@.len(),
            forall|j: int| 0 <= j < i ==> v@[j]@ != s@,
        decreases v@.len() - i,
    {
        if str_eq(v[i].as_str(), s) {
            assert(v.deep_view()[i as int] == s@);
            return true;
        }
        i = i + 1;
    }
    proof {
        if v.deep_view().contains(s@) {
            let j = choose|j: int| 0 <= j < v.deep_view().len() && v.deep_view()[j] == s@;
            assert(v@[j]@ == s@);
        }
    }
    false
}

/// The deadline of retry number `n` for a job that fails at `now`, if
/// chrono can hold it.
fn retry_deadline(now: i64, n: u32) -> (r: Option<i64>)
    requires
        valid_timestamp(now as int),
    ensures
        match r {
            Some(t) => t == now + backoff_ms(n as nat) && now + backoff_ms(n as nat) <= MAX_TIMESTAMP_MS,
            None => now + backoff_ms(n as nat) > MAX_TIMESTAMP_MS,
        },
{
    let room: i64 = MAX_TIMESTAMP_MS - now;
    let mut wait: i64 = 1000;
    let mut k: u32 = 0;
    if wait > room {
        proof {
            lemma_backoff_grows(0, n as nat);
        }
        return None;
    }
    while k < n
        invariant
            k <= n,
            wait == backoff_ms(k as nat),
            1000 <= wait <= room,
            room == MAX_TIMESTAMP_MS - now,
            valid_timestamp(now as int),
        decreases n - k,
    {
        if wait > room / 2 {
            proof {
                lemma_backoff_grows((k + 1) as nat, n as nat);
            }
            return None;
        }
        wait = wait * 2;
        k = k + 1;
    }
    Some(now + wait)
}

impl Store {
    /// Ends the attempts with this id (see `finish_attempts`).
    fn finish_attempts_in_place(&mut self, id: &str, status: &str, now: i64, result: Option<(i32, u64)>)
        requires
            old(self)@.inv(),
        ensures
            final(self)@ == (StoreView {
                attempts: finish_attempts(old(self)@.attempts, id@, status@, now, result),
                ..old(self)@
            }),
            final(self)@.inv(),
    {
        let ghost old_view = self@;
        let mut k: usize = 0;
        while k < self.attempts.len()
            invariant
                k <= self.attempts@.len(),
                self@.attempts.len() == old_view.attempts.len(),
                self@.jobs == old_view.jobs,
                self@.workers == old_view.workers,
                self@.leases == old_view.leases,
                forall|m: int|
                    0 <= m < k ==> self@.attempts[m] == finish_attempts(
                        old_view.attempts,
                        id@,
                        status@,
                        now,
                        result,
                    )[m],
                forall|m: int| k <= m < self@.attempts.len() ==> self@.attempts[m] == old_view.attempts[m],
            decreases self.attempts@.len() - k,
        {
            let ghost pre = self@.attempts;
            if str_eq(self.attempts[k].id.as_str(), id) {
                let mut a = self.attempts[k].clone();
                a.status = String::from_str(status);
                a.completed_at = Some(now);
                match result {
                    Some(res) => {
                        a.exit_code = Some(res.0);
                        a.runtime_ms = Some(res.1);
                    },
                    None => {},
                }
                self.attempts[k] = a;
                proof {
                    assert(self@.attempts =~= pre.update(k as int, a@));
                }
            }
            assert(self@.attempts[k as int] == finish_attempts(old_view.attempts, id@, status@, now, result)[k as int]);
            k = k + 1;
        }
        proof {
            assert(self@.attempts =~= finish_attempts(old_view.attempts, id@, status@, now, result));
            assert(self@ =~= StoreView {
                attempts: finish_attempts(old_view.attempts, id@, status@, now, result),
                ..old_view
            });
        }
    }

    /// One active job fewer for the worker with this id (see `release_worker`).
    fn release_worker_in_place(&mut self, id: &str)
        requires
            old(self)@.inv(),
        ensures
            final(self)@ == (StoreView { workers: release_worker(old(self)@.workers, id@), ..old(self)@ }),
            final(self)@.inv(),
    {
        let ghost old_view = self@;
        let mut k: usize = 0;
        while k < self.workers.len()
            invariant
                k <= self.workers@.len(),
                self@.workers.len() == old_view.workers.len(),
                self@.jobs == old_view.jobs,
                self@.attempts == old_view.attempts,
                self@.leases == old_view.leases,
                forall|m: int| 0 <= m < k ==> self@.workers[m] == release_worker(old_view.workers, id@)[m],
                forall|m: int| k <= m < self@.workers.len() ==> self@.workers[m] == old_view.workers[m],
            decreases self.workers@.len() - k,
        {
            let ghost pre = self@.workers;
            if str_eq(self.workers[k].id.as_str(), id) {
                let mut w = self.workers[k].clone();
                w.active_jobs = if w.active_jobs > 0 {
                    w.active_jobs - 1
                } else {
                    0
                };
                self.workers[k] = w;
                proof {
                    assert(self@.workers =~= pre.update(k as int, w@));
                }
            }
            assert(self@.workers[k as int] == release_worker(old_view.workers, id@)[k as int]);
            k = k + 1;
        }
        proof {
            assert(self@.workers =~= release_worker(old_view.workers, id@));
            assert(self@ =~= StoreView { workers: release_worker(old_view.workers, id@), ..old_view });
        }
    }

    /// Drops the lease held for this job (see `drop_lease`).
    fn drop_lease_in_place(&mut self, job_id: &str)
        requires
            old(self)@.inv(),
        ensures
            final(self)@ == (StoreView { leases: drop_lease(old(self)@.leases, job_id@), ..old(self)@ }),
            final(self)@.inv(),
    {
        let ghost old_view = self@;
        match self.find_lease(job_id) {
            Some(i) => {
                self.leases.remove(i);
                proof {
                    assert(self@.leases =~= old_view.leases.remove(i as int));
                }
            },
            None => {},
        }
        proof {
            assert(self@ =~= StoreView { leases: drop_lease(old_view.leases, job_id@), ..old_view });
        }
    }

    /// Whether every listed dependency is a job that has succeeded.
    fn deps_all_succeeded(&self, deps: &Vec<String>) -> (r: bool)
        requires
            self@.inv(),
        ensures
            r == deps_succeeded(self@.jobs, deps.deep_view()),
    {
        let mut d: usize = 0;
        while d < deps.len()
            invariant
                d <= deps@.len(),
                self@.inv(),
                forall|e: int|
                    0 <= e < d ==> status_of(self@.jobs, #[trigger] deps.deep_view()[e]) == Some(
                        JobStatus::Succeeded,
                    ),
            decreases deps@.len() - d,
        {
            match self.find_job(deps[d].as_str()) {
                Some(k) => {
                    if self.jobs[k].status != JobStatus::Succeeded {
                        assert(status_of(self@.jobs, deps.deep_view()[d as int]) != Some(JobStatus::Succeeded));
                        return false;
                    }
                },
                None => {
                    assert(status_of(self@.jobs, deps.deep_view()[d as int]) == None::<JobStatus>);
                    return false;
                },
            }
            d = d + 1;
        }
        true
    }

    /// Queues the blocked jobs freed by the success of `done` (see
    /// `unblock_dependents`).
    fn unblock_dependents_in_place(&mut self, done: &str)
        requires
            old(self)@.inv(),
        ensures
            final(self)@ == (StoreView { jobs: unblock_dependents(old(self)@.jobs, done@), ..old(self)@ }),
            final(self)@.inv(),
    {
        let ghost old_view = self@;
        let mut to_queue: Vec<bool> = Vec::new();
        let mut k: usize = 0;
        while k < self.jobs.len()
            invariant
                k <= self.jobs@.len(),
                self@ == old_view,
                old_view.inv(),
                to_queue@.len() == k,
                forall|m: int|
                    0 <= m < k ==> to_queue@[m] == (old_view.jobs[m].status == JobStatus::Blocked
                        && old_view.jobs[m].depends_on.contains(done@) && deps_succeeded(
                        old_view.jobs,
                        old_view.jobs[m].depends_on,
                    )),
            decreases self.jobs@.len() - k,
        {
            let q = self.jobs[k].status == JobStatus::Blocked && strings_contain(
                &self.jobs[k].depends_on,
                done,
            ) && self.deps_all_succeeded(&self.jobs[k].depends_on);
            to_queue.push(q);
            k = k + 1;
        }
        let mut k: usize = 0;
        while k < self.jobs.len()
            invariant
                k <= self.jobs@.len(),
                to_queue@.len() == self.jobs@.len(),
                self@.jobs.len() == old_view.jobs.len(),
                self@.attempts == old_view.attempts,
                self@.workers == old_view.workers,
                self@.leases == old_view.leases,
                forall|m: int|
                    0 <= m < to_queue@.len() ==> to_queue@[m] == (old_view.jobs[m].status
                        == JobStatus::Blocked && old_view.jobs[m].depends_on.contains(done@)
                        && deps_succeeded(old_view.jobs, old_view.jobs[m].depends_on)),
                forall|m: int| 0 <= m < k ==> self@.jobs[m] == unblock_dependents(old_view.jobs, done@)[m],
                forall|m: int| k <= m < self@.jobs.len() ==> self@.jobs[m] == old_view.jobs[m],
            decreases self.jobs@.len() - k,
        {
            let ghost pre = self@.jobs;
            if to_queue[k] {
                let mut j = self.jobs[k].clone();
                j.status = JobStatus::Queued;
                self.jobs[k] = j;
                proof {
                    assert(self@.jobs =~= pre.update(k as int, j@));
                }
            }
            assert(self@.jobs[k as int] == unblock_dependents(old_view.jobs, done@)[k as int]);
            k = k + 1;
        }
        proof {
            assert(self@.jobs =~= unblock_dependents(old_view.jobs, done@));
            assert(self@ =~= StoreView { jobs: unblock_dependents(old_view.jobs, done@), ..old_view });
            assert forall|i: int, j: int| 0 <= i < j < self@.jobs.len() implies self@.jobs[i].id
                != self@.jobs[j].id by {
                assert(self@.jobs[i].id == old_view.jobs[i].id);
                assert(self@.jobs[j].id == old_view.jobs[j].id);
            }
        }
    }

    /// Cancels the blocked jobs that depend on `failed` (see
    /// `fail_dependents`).
    fn fail_dependents_in_place(&mut self, failed: &str)
        requires
            old(self)@.inv(),
        ensures
            final(self)@ == (StoreView { jobs: fail_dependents(old(self)@.jobs, failed@), ..old(self)@ }),
            final(self)@.inv(),
    {
        let ghost old_view = self@;
        let mut k: usize = 0;
        while k < self.jobs.len()
            invariant
                k <= self.jobs@.len(),
                self@.jobs.len() == old_view.jobs.len(),
                self@.attempts == old_view.attempts,
                self@.workers == old_view.workers,
                self@.leases == old_view.leases,
                forall|m: int| 0 <= m < k ==> self@.jobs[m] == fail_dependents(old_view.jobs, failed@)[m],
                forall|m: int| k <= m < self@.jobs.len() ==> self@.jobs[m] == old_view.jobs[m],
            decreases self.jobs@.len() - k,
        {
            let ghost pre = self@.jobs;
            if self.jobs[k].status == JobStatus::Blocked && strings_contain(&self.jobs[k].depends_on, failed) {
                let mut j = self.jobs[k].clone();
                j.status = JobStatus::Cancelled;
                self.jobs[k] = j;
                proof {
                    assert(self@.jobs =~= pre.update(k as int, j@));
                }
            }
            assert(self@.jobs[k as int] == fail_dependents(old_view.jobs, failed@)[k as int]);
            k = k + 1;
        }
        proof {
            assert(self@.jobs =~= fail_dependents(old_view.jobs, failed@));
            assert(self@ =~= StoreView { jobs: fail_dependents(old_view.jobs, failed@), ..old_view });
            assert forall|i: int, j: int| 0 <= i < j < self@.jobs.len() implies self@.jobs[i].id
                != self@.jobs[j].id by {
                assert(self@.jobs[i].id == old_view.jobs[i].id);
                assert(self@.jobs[j].id == old_view.jobs[j].id);
            }
        }
    }
}

/// What a report of an attempt's end does to the store, given the time
/// `now` (see `completion_state` and `completion_outcome`): an unknown job
/// is an error and a stale attempt is ignored, both changing nothing.
pub open spec fn completion_happened(
    old: StoreView,
    new: StoreView,
    r: Result<CompleteJobOutcome, StoreError>,
    now: i64,
    job_id: Seq<char>,
    attempt_id: Seq<char>,
    exit_code: i32,
    stdout: Seq<char>,
    stderr: Seq<char>,
    runtime_ms: u64,
) -> bool {
    let i = job_index(old.jobs, job_id);
    if i < 0 {
        &&& r matches Err(StoreError::JobNotFound(m)) && m@ == job_id
        &&& new == old
    } else if is_stale(old.jobs[i], attempt_id) {
        &&& r matches Ok(CompleteJobOutcome::StaleAttemptIgnored)
        &&& new == old
    } else {
        &&& r matches Ok(o) && o@ == completion_outcome(
            old.jobs[i],
            now,
            exit_code,
            stdout,
            stderr,
            runtime_ms,
        )
        &&& new == completion_state(old, i, now, attempt_id, exit_code, stdout, stderr, runtime_ms)
    }
}

/// A report of the current attempt of a job, failed with retries left, so
/// that the job would be retried.
pub open spec fn completion_retries(
    s: StoreView,
    job_id: Seq<char>,
    attempt_id: Seq<char>,
    exit_code: i32,
) -> bool {
    let i = job_index(s.jobs, job_id);
    i >= 0 && !is_stale(s.jobs[i], attempt_id) && exit_code != 0 && retries_left(s.jobs[i])
}

/// What a report of an attempt's end at time `now` does: where it would
/// schedule a retry whose deadline falls beyond what chrono can hold, it is
/// refused and nothing changes; otherwise see `completion_happened`.
pub open spec fn completion_attempted(
    old: StoreView,
    new: StoreView,
    r: Result<CompleteJobOutcome, StoreError>,
    now: i64,
    job_id: Seq<char>,
    attempt_id: Seq<char>,
    exit_code: i32,
    stdout: Seq<char>,
    stderr: Seq<char>,
    runtime_ms: u64,
) -> bool {
    if completion_retries(old, job_id, attempt_id, exit_code) && !retry_fits(
        old.jobs[job_index(old.jobs, job_id)],
        now,
    ) {
        r matches Err(StoreError::InvalidTransition(m)) && m@ == "Cannot schedule retry: backoff deadline out of range"@ && new == old
    } else {
        completion_happened(old, new, r, now, job_id, attempt_id, exit_code, stdout, stderr, runtime_ms)
    }
}

/// What a cancellation does to the store, given the time `now`: an unknown
/// job is an error, a finished job is returned as it is, and any other job
/// is cancelled (see `cancellation_state`) and returned as cancelled.
pub open spec fn cancel_happened(
    old: StoreView,
    new: StoreView,
    r: Result<Job, StoreError>,
    now: i64,
    job_id: Seq<char>,
) -> bool {
    let i = job_index(old.jobs, job_id);
    if i < 0 {
        &&& r matches Err(StoreError::JobNotFound(m)) && m@ == job_id
        &&& new == old
    } else if old.jobs[i].status.terminal() {
        &&& r matches Ok(j) && j@ == old.jobs[i]
        &&& new == old
    } else {
        &&& r matches Ok(j) && j@ == cancelled_job(old.jobs[i], now)
        &&& new == cancellation_state(old, i, now)
    }
}

impl Store {
    /// Takes a worker's report that attempt `attempt_id` of job `job_id`
    /// ended with `exit_code` at time `now` (see `completion_happened`).
    pub fn complete_job_at(
        &mut self,
        now: i64,
        job_id: &str,
        attempt_id: &str,
        exit_code: i32,
        stdout: &str,
        stderr: &str,
        runtime_ms: u64,
    ) -> (r: Result<CompleteJobOutcome, StoreError>)
        requires
            old(self)@.inv(),
            valid_timestamp(now as int),
            completion_retries(old(self)@, job_id@, attempt_id@, exit_code) ==> retry_fits(
                old(self)@.jobs[job_index(old(self)@.jobs, job_id@)],
                now,
            ),
        ensures
            final(self)@.inv(),
            completion_happened(
                old(self)@,
                final(self)@,
                r,
                now,
                job_id@,
                attempt_id@,
                exit_code,
                stdout@,
                stderr@,
                runtime_ms,
            ),
    {
        let ghost s0 = self@;
        let i = match self.find_job(job_id) {
            Some(i) => i,
            None => {
                return Err(StoreError::JobNotFound(String::from_str(job_id)));
            },
        };
        let mut job = self.jobs[i].clone();
        let current = match &job.current_attempt_id {
            Some(a) => str_eq(a.as_str(), attempt_id),
            None => false,
        };
        if job.status.is_terminal() || job.status == JobStatus::Cancelled || !current {
            return Ok(CompleteJobOutcome::StaleAttemptIgnored);
        }
        let ghost j0 = job@;
        let attempt_status = if exit_code == 0 {
            "SUCCEEDED"
        } else {
            "FAILED"
        };
        self.finish_attempts_in_place(attempt_id, attempt_status, now, Some((exit_code, runtime_ms)));
        self.drop_lease_in_place(job_id);
        match &job.worker_id {
            Some(w) => self.release_worker_in_place(w.as_str()),
            None => {},
        }
        let ghost s1 = self@;
        assert(s1.jobs == s0.jobs);
        if exit_code == 0 {
            job.status = JobStatus::Succeeded;
            job.completed_at = Some(now);
            job.exit_code = Some(0);
            job.stdout = Some(String::from_str(stdout));
            job.stderr = Some(String::from_str(stderr));
            job.runtime_ms = Some(runtime_ms);
            let mut stored = job.clone();
            stored.lease_expires_at = None;
            self.jobs[i] = stored;
            proof {
                assert(self@.jobs =~= s0.jobs.update(i as int, stored@));
                assert(stored@.id == s0.jobs[i as int].id);
            }
            self.unblock_dependents_in_place(job_id);
            proof {
                assert(self@ =~= completion_state(s0, i as int, now, attempt_id@, exit_code, stdout@, stderr@, runtime_ms));
            }
            Ok(CompleteJobOutcome::Accepted(job))
        } else if job.retry_count < job.max_retries {
            let next = retry_deadline(now, job.retry_count + 1);
            let next_retry = match next {
                Some(t) => t,
                None => {
                    assert(false);
                    now
                },
            };
            job.retry_count = job.retry_count + 1;
            job.status = JobStatus::Retrying;
            job.next_retry_at = Some(next_retry);
            job.worker_id = None;
            job.current_attempt_id = None;
            job.lease_expires_at = None;
            let stored = job.clone();
            self.jobs[i] = stored;
            proof {
                assert(self@.jobs =~= s0.jobs.update(i as int, stored@));
                assert(self@ =~= completion_state(s0, i as int, now, attempt_id@, exit_code, stdout@, stderr@, runtime_ms));
            }
            Ok(CompleteJobOutcome::Retrying(job))
        } else {
            job.status = JobStatus::Failed;
            job.completed_at = Some(now);
            job.exit_code = Some(exit_code);
            job.stdout = Some(String::from_str(stdout));
            job.stderr = Some(String::from_str(stderr));
            job.runtime_ms = Some(runtime_ms);
            let mut stored = job.clone();
            stored.lease_expires_at = None;
            self.jobs[i] = stored;
            proof {
                assert(self@.jobs =~= s0.jobs.update(i as int, stored@));
            }
            self.fail_dependents_in_place(job_id);
            proof {
                assert(self@ =~= completion_state(s0, i as int, now, attempt_id@, exit_code, stdout@, stderr@, runtime_ms));
            }
            Ok(CompleteJobOutcome::Accepted(job))
        }
    }

    /// Whether a report would retry the job and the retry's deadline would
    /// leave chrono's range.
    fn retry_out_of_range(&self, now: i64, job_id: &str, attempt_id: &str, exit_code: i32) -> (r: bool)
        requires
            self@.inv(),
            valid_timestamp(now as int),
        ensures
            r == (completion_retries(self@, job_id@, attempt_id@, exit_code) && !retry_fits(
                self@.jobs[job_index(self@.jobs, job_id@)],
                now,
            )),
    {
        match self.find_job(job_id) {
            Some(i) => {
                let job = &self.jobs[i];
                let current = match &job.current_attempt_id {
                    Some(a) => str_eq(a.as_str(), attempt_id),
                    None => false,
                };
                if job.status.is_terminal() || job.status == JobStatus::Cancelled || !current || exit_code == 0
                    || job.retry_count >= job.max_retries {
                    false
                } else {
                    retry_deadline(now, job.retry_count + 1).is_none()
                }
            },
            None => false,
        }
    }

    /// Takes a worker's report of an attempt's end, at the current time (see
    /// `completion_happened`). Where a retry's deadline would fall beyond
    /// what chrono can hold, the report is refused and nothing changes.
    pub fn complete_job(
        &mut self,
        job_id: &str,
        attempt_id: &str,
        exit_code: i32,
        stdout: &str,
        stderr: &str,
        runtime_ms: u64,
    ) -> (r: Result<CompleteJobOutcome, StoreError>)
        requires
            old(self)@.inv(),
        ensures
            final(self)@.inv(),
            exists|now: i64|
                valid_timestamp(now as int) && completion_attempted(
                    old(self)@,
                    final(self)@,
                    r,
                    now,
                    job_id@,
                    attempt_id@,
                    exit_code,
                    stdout@,
                    stderr@,
                    runtime_ms,
                ),
    {
        let now = now_millis();
        if self.retry_out_of_range(now, job_id, attempt_id, exit_code) {
            return Err(StoreError::InvalidTransition(String::from_str("Cannot schedule retry: backoff deadline out of range")));
        }
        self.complete_job_at(now, job_id, attempt_id, exit_code, stdout, stderr, runtime_ms)
    }

    /// Cancels job `job_id` at time `now` (see `cancel_happened`).
    pub fn cancel_job_at(&mut self, now: i64, job_id: &str) -> (r: Result<Job, StoreError>)
        requires
            old(self)@.inv(),
        ensures
            final(self)@.inv(),
            cancel_happened(old(self)@, final(self)@, r, now, job_id@),
    {
        let ghost s0 = self@;
        let i = match self.find_job(job_id) {
            Some(i) => i,
            None => {
                return Err(StoreError::JobNotFound(String::from_str(job_id)));
            },
        };
        let mut job = self.jobs[i].clone();
        if job.status.is_terminal() {
            return Ok(job);
        }
        let prev_worker = clone_opt_string(&job.worker_id);
        let prev_attempt = clone_opt_string(&job.current_attempt_id);
        job.status = JobStatus::Cancelled;
        job.completed_at = Some(now);
        job.worker_id = None;
        job.current_attempt_id = None;
        job.lease_expires_at = None;
        self.jobs[i] = job.clone();
        proof {
            assert(self@.jobs =~= s0.jobs.update(i as int, job@));
            assert forall|a: int, b: int| 0 <= a < b < self@.jobs.len() implies self@.jobs[a].id
                != self@.jobs[b].id by {
                assert(self@.jobs[a].id == s0.jobs[a].id);
                assert(self@.jobs[b].id == s0.jobs[b].id);
            }
        }
        self.drop_lease_in_place(job_id);
        match &prev_worker {
            Some(w) => self.release_worker_in_place(w.as_str()),
            None => {},
        }
        match &prev_attempt {
            Some(a) => self.finish_attempts_in_place(a.as_str(), "CANCELLED", now, None),
            None => {},
        }
        self.fail_dependents_in_place(job_id);
        proof {
            assert(self@ =~= cancellation_state(s0, i as int, now));
        }
        Ok(job)
    }

    /// Cancels a job at the current time (see `cancel_happened`).
    pub fn cancel_job(&mut self, job_id: &str) -> (r: Result<Job, StoreError>)
        requires
            old(self)@.inv(),
        ensures
            final(self)@.inv(),
            exists|now: i64| valid_timestamp(now as int) && cancel_happened(old(self)@, final(self)@, r, now, job_id@),
    {
        let now = now_millis();
        self.cancel_job_at(now, job_id)
    }
}

// ---------------------------------------------------------------------------
// Claiming work: proofs and code.
// ---------------------------------------------------------------------------

pub(crate) proof fn lemma_sorted_distinct(keys: Seq<(i64, i64)>, ord: Seq<usize>)
    requires
        sorted_by(keys, ord),
    ensures
        ord.no_duplicates(),
        forall|k: int| 0 <= k < ord.len() ==> #[trigger] ord[k] < keys.len(),
{
    assert forall|i: int, j: int| 0 <= i < ord.len() && 0 <= j < ord.len() && i != j implies ord[i]
        != ord[j] by {
        if i < j {
            assert(crate::sorting::precedes(keys, ord[i] as int, ord[j] as int));
        } else {
            assert(crate::sorting::precedes(keys, ord[j] as int, ord[i] as int));
        }
    }
}

/// The claimed positions come from the order, each once.
pub(crate) proof fn lemma_greedy_within(jobs: Seq<JobView>, order: Seq<usize>, now: i64, offer: ResourcesView, max_jobs: int)
    requires
        order.no_duplicates(),
    ensures
        forall|k: int|
            0 <= k < greedy_claims(jobs, order, now, offer, max_jobs).len() ==> order.contains(
                #[trigger] greedy_claims(jobs, order, now, offer, max_jobs)[k],
            ),
        greedy_claims(jobs, order, now, offer, max_jobs).no_duplicates(),
    decreases order.len(),
{
    if order.len() == 0 || max_jobs <= 0 {
    } else {
        let rest = order.drop_first();
        assert(rest.no_duplicates());
        let job = jobs[order[0] as int];
        let g = greedy_claims(jobs, order, now, offer, max_jobs);
        if claimable(job, now) && covers(offer, job.resources) {
            let after = after_taking(offer, job.resources);
            lemma_greedy_within(jobs, rest, now, after, max_jobs - 1);
            let g1 = greedy_claims(jobs, rest, now, after, max_jobs - 1);
            assert(g == seq![order[0]] + g1);
            assert forall|k: int| 0 <= k < g.len() implies order.contains(#[trigger] g[k]) by {
                if k > 0 {
                    assert(g[k] == g1[k - 1]);
                    assert(rest.contains(g1[k - 1]));
                    let m = choose|m: int| 0 <= m < rest.len() && rest[m] == g1[k - 1];
                    assert(order[m + 1] == g[k]);
                } else {
                    assert(order[0] == g[0]);
                }
            }
            assert forall|i: int, j: int| 0 <= i < g.len() && 0 <= j < g.len() && i != j implies g[i]
                != g[j] by {
                if i > 0 && j > 0 {
                    assert(g[i] == g1[i - 1]);
                    assert(g[j] == g1[j - 1]);
                } else if i == 0 {
                    assert(g[j] == g1[j - 1]);
                    assert(rest.contains(g1[j - 1]));
                    let m = choose|m: int| 0 <= m < rest.len() && rest[m] == g1[j - 1];
                    assert(order[m + 1] == rest[m]);
                } else {
                    assert(g[i] == g1[i - 1]);
                    assert(rest.contains(g1[i - 1]));
                    let m = choose|m: int| 0 <= m < rest.len() && rest[m] == g1[i - 1];
                    assert(order[m + 1] == rest[m]);
                }
            }
        } else {
            lemma_greedy_within(jobs, rest, now, offer, max_jobs);
            assert forall|k: int| 0 <= k < g.len() implies order.contains(#[trigger] g[k]) by {
                assert(rest.contains(g[k]));
                let m = choose|m: int| 0 <= m < rest.len() && rest[m] == g[k];
                assert(order[m + 1] == rest[m]);
            }
        }
    }
}

/// One step of the greedy walk, from position `t` of the order.
proof fn lemma_greedy_step(
    jobs: Seq<JobView>,
    order: Seq<usize>,
    t: int,
    now: i64,
    offer: ResourcesView,
    max_jobs: int,
)
    requires
        0 <= t < order.len(),
        max_jobs > 0,
    ensures
        greedy_claims(jobs, order.skip(t), now, offer, max_jobs) == (if claimable(jobs[order[t] as int], now)
            && covers(offer, jobs[order[t] as int].resources) {
            seq![order[t]] + greedy_claims(
                jobs,
                order.skip(t + 1),
                now,
                after_taking(offer, jobs[order[t] as int].resources),
                max_jobs - 1,
            )
        } else {
            greedy_claims(jobs, order.skip(t + 1), now, offer, max_jobs)
        }),
{
    assert(order.skip(t).drop_first() =~= order.skip(t + 1));
    assert(order.skip(t)[0] == order[t]);
}

/// Assigning jobs keeps the table's length and ids, and leaves alone the
/// jobs not claimed.
pub(crate) proof fn lemma_assign_jobs(
    jobs: Seq<JobView>,
    sel: Seq<usize>,
    ids: Seq<Seq<char>>,
    worker: Seq<char>,
    now: i64,
    expires: i64,
)
    requires
        forall|k: int| 0 <= k < sel.len() ==> #[trigger] sel[k] < jobs.len(),
    ensures
        assign_jobs(jobs, sel, ids, worker, now, expires).len() == jobs.len(),
        forall|i: int|
            0 <= i < jobs.len() ==> #[trigger] assign_jobs(jobs, sel, ids, worker, now, expires)[i].id
                == jobs[i].id,
        forall|i: int|
            0 <= i < jobs.len() && !sel.contains(i as usize) ==> #[trigger] assign_jobs(
                jobs,
                sel,
                ids,
                worker,
                now,
                expires,
            )[i] == jobs[i],
    decreases sel.len(),
{
    if sel.len() > 0 {
        let p = sel.drop_last();
        lemma_assign_jobs(jobs, p, ids, worker, now, expires);
        assert forall|i: int|
            0 <= i < jobs.len() && !sel.contains(i as usize) implies #[trigger] assign_jobs(
                jobs,
                sel,
                ids,
                worker,
                now,
                expires,
            )[i] == jobs[i] by {
            assert(sel.last() != i as usize);
            if p.contains(i as usize) {
                let m = choose|m: int| 0 <= m < p.len() && p[m] == i as usize;
                assert(sel[m] == i as usize);
            }
        }
    }
}

/// Writing a lease keeps every job to at most one lease.
proof fn lemma_upsert_lease_unique(leases: Seq<LeaseView>, l: LeaseView)
    requires
        lease_jobs_unique(leases),
    ensures
        lease_jobs_unique(upsert_lease(leases, l)),
{
    let i = lease_index(leases, l.job_id);
    if i >= 0 {
        assert forall|a: int, b: int| 0 <= a < b < leases.len() implies upsert_lease(leases, l)[a].job_id
            != upsert_lease(leases, l)[b].job_id by {
            if a == i {
                assert(leases[b].job_id != leases[i].job_id);
            } else if b == i {
                assert(leases[a].job_id != leases[i].job_id);
            }
        }
    } else {
        assert forall|a: int, b: int|
            0 <= a < b < leases.len() + 1 implies upsert_lease(leases, l)[a].job_id != upsert_lease(
            leases,
            l,
        )[b].job_id by {
            if b == leases.len() {
                assert(leases[a].job_id != l.job_id);
            }
        }
    }
}

/// Whether a worker may claim the job at `now`.
fn is_claimable(job: &Job, now: i64) -> (r: bool)
    ensures
        r == claimable(job@, now),
{
    match job.status {
        JobStatus::Queued => true,
        JobStatus::Retrying => match job.next_retry_at {
            Some(t) => t <= now,
            None => true,
        },
        _ => false,
    }
}

impl Store {
    /// How many attempts of this job there are.
    fn count_job_attempts(&self, job_id: &str) -> (r: usize)
        ensures
            r == count_attempts(self@.attempts, job_id@),
    {
        let mut count: usize = 0;
        let mut k: usize = 0;
        while k < self.attempts.len()
            invariant
                k <= self.attempts@.len(),
                count <= k,
                count == count_attempts(self@.attempts.take(k as int), job_id@),
            decreases self.attempts@.len() - k,
        {
            proof {
                assert(self@.attempts.take(k + 1).drop_last() =~= self@.attempts.take(k as int));
            }
            if str_eq(self.attempts[k].job_id.as_str(), job_id) {
                count = count + 1;
            }
            k = k + 1;
        }
        proof {
            assert(self@.attempts.take(k as int) =~= self@.attempts);
        }
        count
    }

    /// Writes a lease (see `upsert_lease`).
    fn upsert_lease_in_place(&mut self, lease: Lease)
        requires
            old(self)@.inv(),
        ensures
            final(self)@ == (StoreView { leases: upsert_lease(old(self)@.leases, lease@), ..old(self)@ }),
            final(self)@.inv(),
    {
        let ghost old_view = self@;
        let ghost l = lease@;
        match self.find_lease(lease.job_id.as_str()) {
            Some(i) => {
                self.leases[i] = lease;
                proof {
                    assert(self@.leases =~= old_view.leases.update(i as int, l));
                }
            },
            None => {
                self.leases.push(lease);
                proof {
                    assert(self@.leases =~= old_view.leases.push(l));
                }
            },
        }
        proof {
            lemma_upsert_lease_unique(old_view.leases, l);
            assert(self@ =~= StoreView { leases: upsert_lease(old_view.leases, l), ..old_view });
        }
    }

    /// The worker with this id counts `n` more active jobs (see `more_jobs`).
    fn add_active_jobs(&mut self, worker_id: &str, n: usize)
        requires
            old(self)@.inv(),
        ensures
            final(self)@ == (StoreView {
                workers: Seq::new(
                    old(self)@.workers.len(),
                    |i: int|
                        if old(self)@.workers[i].id == worker_id@ {
                            WorkerView {
                                active_jobs: more_jobs(old(self)@.workers[i].active_jobs, n as int),
                                ..old(self)@.workers[i]
                            }
                        } else {
                            old(self)@.workers[i]
                        },
                ),
                ..old(self)@
            }),
            final(self)@.inv(),
    {
        let ghost old_view = self@;
        let ghost target = Seq::new(
            old_view.workers.len(),
            |i: int|
                if old_view.workers[i].id == worker_id@ {
                    WorkerView {
                        active_jobs: more_jobs(old_view.workers[i].active_jobs, n as int),
                        ..old_view.workers[i]
                    }
                } else {
                    old_view.workers[i]
                },
        );
        let mut k: usize = 0;
        while k < self.workers.len()
            invariant
                k <= self.workers@.len(),
                self@.workers.len() == old_view.workers.len(),
                self@.jobs == old_view.jobs,
                self@.attempts == old_view.attempts,
                self@.leases == old_view.leases,
                target.len() == old_view.workers.len(),
                forall|m: int| 0 <= m < k ==> self@.workers[m] == target[m],
                forall|m: int| k <= m < self@.workers.len() ==> self@.workers[m] == old_view.workers[m],
                target == Seq::new(
                    old_view.workers.len(),
                    |i: int|
                        if old_view.workers[i].id == worker_id@ {
                            WorkerView {
                                active_jobs: more_jobs(old_view.workers[i].active_jobs, n as int),
                                ..old_view.workers[i]
                            }
                        } else {
                            old_view.workers[i]
                        },
                ),
            decreases self.workers@.len() - k,
        {
            let ghost pre = self@.workers;
            if str_eq(self.workers[k].id.as_str(), worker_id) {
                let mut w = self.workers[k].clone();
                let total: u128 = (w.active_jobs as u128) + (n as u128);
                w.active_jobs = if total > 4294967295u128 {
                    u32::MAX
                } else {
                    total as u32
                };
                self.workers[k] = w;
                proof {
                    assert(self@.workers =~= pre.update(k as int, w@));
                }
            }
            assert(self@.workers[k as int] == target[k as int]);
            k = k + 1;
        }
        proof {
            assert(self@.workers =~= target);
            assert(self@ =~= StoreView { workers: target, ..old_view });
        }
    }

    /// The positions of the jobs a worker offering `capacity` claims at
    /// `now`, taking at most `max_jobs`, in the order they are claimed (see
    /// `claim_selection`).
    pub fn select_claims(&self, now: i64, capacity: &WorkerCapacity, max_jobs: usize) -> (r: Vec<usize>)
        requires
            self@.inv(),
        ensures
            r@ == claim_selection(self@.jobs, now, capacity@, max_jobs as int),
            r@.no_duplicates(),
            forall|m: int| 0 <= m < r@.len() ==> #[trigger] r@[m] < self@.jobs.len(),
    {
        let ghost s0 = self@;
        // The order in which jobs are considered.
        let mut keys: Vec<(i64, i64)> = Vec::new();
        let mut k: usize = 0;
        while k < self.jobs.len()
            invariant
                self@ == s0,
                k <= self.jobs@.len(),
                keys@.len() == k,
                forall|m: int| 0 <= m < k ==> keys@[m] == claim_keys(s0.jobs, now)[m],
            decreases self.jobs@.len() - k,
        {
            let job = &self.jobs[k];
            keys.push((job.priority.scaled_score(job.created_at, now), job.created_at));
            k = k + 1;
        }
        proof {
            assert(keys@ =~= claim_keys(s0.jobs, now));
        }
        let ord = sort_rows(&keys);
        proof {
            lemma_sorted_distinct(keys@, ord@);
        }
        // Walk the order, taking what fits.
        let ghost offer0 = capacity@;
        let mut sel: Vec<usize> = Vec::new();
        let mut cpus: u32 = capacity.cpus;
        let mut mem: u64 = capacity.memory_mb;
        let mut t: usize = 0;
        proof {
            assert(ord@.skip(0) =~= ord@);
            assert(Seq::<usize>::empty() + greedy_claims(s0.jobs, ord@, now, offer0, max_jobs as int) =~= greedy_claims(
                s0.jobs,
                ord@,
                now,
                offer0,
                max_jobs as int,
            ));
        }
        while t < ord.len() && sel.len() < max_jobs
            invariant
                self@ == s0,
                t <= ord@.len(),
                sel@.len() <= max_jobs,
                ord@ == claim_order(s0.jobs, now),
                forall|m: int| 0 <= m < ord@.len() ==> #[trigger] ord@[m] < s0.jobs.len(),
                claim_selection(s0.jobs, now, offer0, max_jobs as int) == sel@ + greedy_claims(
                    s0.jobs,
                    ord@.skip(t as int),
                    now,
                    ResourcesView { cpus, memory_mb: mem, labels: capacity.labels@ },
                    max_jobs - sel@.len(),
                ),
                offer0 == capacity@,
            decreases ord@.len() - t,
        {
            let idx = ord[t];
            let ghost offer = ResourcesView { cpus, memory_mb: mem, labels: capacity.labels@ };
            proof {
                lemma_greedy_step(s0.jobs, ord@, t as int, now, offer, max_jobs - sel@.len());
            }
            let job = &self.jobs[idx];
            if is_claimable(job, now) && crate::models::resources_fit(cpus, mem, &capacity.labels, &job.resources) {
                let ghost before = sel@;
                sel.push(idx);
                cpus = cpus - job.resources.cpus;
                mem = mem - job.resources.memory_mb;
                proof {
                    let rest = greedy_claims(
                        s0.jobs,
                        ord@.skip(t + 1),
                        now,
                        after_taking(offer, s0.jobs[idx as int].resources),
                        max_jobs - before.len() - 1,
                    );
                    assert(before + (seq![idx] + rest) =~= sel@ + rest);
                }
            }
            t = t + 1;
        }
        proof {
            if t == ord.len() {
                assert(ord@.skip(t as int) =~= Seq::<usize>::empty());
            }
            assert(sel@ + Seq::<usize>::empty() =~= sel@);
            lemma_greedy_within(s0.jobs, ord@, now, offer0, max_jobs as int);
        }
        let ghost sel_v = sel@;
        assert(sel_v == claim_selection(s0.jobs, now, capacity@, max_jobs as int));
        assert(forall|m: int| 0 <= m < sel_v.len() ==> #[trigger] sel_v[m] < s0.jobs.len()) by {
            assert forall|m: int| 0 <= m < sel_v.len() implies #[trigger] sel_v[m] < s0.jobs.len() by {
                assert(ord@.contains(sel_v[m]));
            }
        }
        sel
    }

    /// Claims work for `worker_id` at `now` as `claim_jobs_at` does, the
    /// k-th claimed job running under attempt `ids[k]` (see `claimed_with`):
    /// the claim fails, changing nothing, when one of those ids names a
    /// stored attempt or repeats an earlier one. There must be an id for
    /// every job the claim selects (see `select_claims`).
    pub fn claim_jobs_with_ids(
        &mut self,
        now: i64,
        worker_id: &str,
        capacity: &WorkerCapacity,
        max_jobs: usize,
        lease_duration_ms: u64,
        ids: Vec<String>,
    ) -> (r: Result<Vec<(Job, JobAttempt)>, StoreError>)
        requires
            old(self)@.inv(),
            valid_timestamp(now as int),
            now + lease_duration_ms <= MAX_TIMESTAMP_MS,
            ids@.len() >= claim_selection(old(self)@.jobs, now, capacity@, max_jobs as int).len(),
        ensures
            final(self)@.inv(),
            claimed_with(
                old(self)@,
                final(self)@,
                r,
                now,
                worker_id@,
                capacity@,
                max_jobs as int,
                (now + lease_duration_ms) as i64,
                ids.deep_view(),
            ),
            leases_match_jobs(old(self)@) ==> leases_match_jobs(final(self)@),
    {
        let ghost s0 = self@;
        let expires: i64 = now + (lease_duration_ms as i64);
        let sel = self.select_claims(now, capacity, max_jobs);
        let ghost sel_v = sel@;
        let ghost all_ids = ids.deep_view();
        // Every id must be fresh.
        let mut k: usize = 0;
        while k < sel.len()
            invariant
                self@ == s0,
                s0.inv(),
                k <= sel@.len(),
                sel@ == sel_v,
                sel_v == claim_selection(s0.jobs, now, capacity@, max_jobs as int),
                ids@.len() >= sel_v.len(),
                all_ids == ids.deep_view(),
                ids_fresh(s0.attempts, all_ids, k as int),
            decreases sel@.len() - k,
        {
            let mut taken = self.find_attempt(ids[k].as_str()).is_some();
            assert(all_ids[k as int] == ids@[k as int]@);
            let mut j: usize = 0;
            while j < k && !taken
                invariant
                    j <= k,
                    k < ids@.len(),
                    all_ids == ids.deep_view(),
                    !taken ==> forall|m: int| 0 <= m < j ==> all_ids[m] != all_ids[k as int],
                    !taken ==> attempt_index(s0.attempts, all_ids[k as int]) == -1,
                    taken ==> attempt_index(s0.attempts, all_ids[k as int]) != -1 || exists|m: int|
                        0 <= m < k && all_ids[m] == all_ids[k as int],
                    self@ == s0,
                decreases k - j,
            {
                if str_eq(ids[j].as_str(), ids[k].as_str()) {
                    taken = true;
                    assert(all_ids[j as int] == all_ids[k as int]);
                }
                j = j + 1;
            }
            if taken {
                proof {
                    assert(!ids_fresh(s0.attempts, all_ids, sel_v.len() as int)) by {
                        if ids_fresh(s0.attempts, all_ids, sel_v.len() as int) {
                            assert(attempt_index(s0.attempts, all_ids[k as int]) == -1);
                        }
                    }
                }
                return Err(StoreError::Database(String::from_str("UNIQUE constraint failed: job_attempts.id")));
            }
            proof {
                assert forall|m: int| 0 <= m < k + 1 implies attempt_index(s0.attempts, #[trigger] all_ids[m]) == -1
                    && forall|i: int| 0 <= i < m ==> all_ids[i] != all_ids[m] by {}
            }
            k = k + 1;
        }
        let ghost ids_v = all_ids.take(sel_v.len() as int);
        assert(ids_v.len() == sel_v.len());
        assert forall|m: int| 0 <= m < sel_v.len() implies attempt_index(s0.attempts, #[trigger] ids_v[m]) == -1 by {
            assert(ids_v[m] == all_ids[m]);
        }
        assert forall|a: int, b: int| 0 <= a < b < sel_v.len() implies ids_v[a] != ids_v[b] by {
            assert(ids_v[a] == all_ids[a]);
            assert(ids_v[b] == all_ids[b]);
        }
        // Each claimed job's attempt number.
        let mut numbers: Vec<u32> = Vec::new();
        let mut k: usize = 0;
        while k < sel.len()
            invariant
                self@ == s0,
                s0.inv(),
                k <= sel@.len(),
                sel@ == sel_v,
                forall|m: int| 0 <= m < sel_v.len() ==> #[trigger] sel_v[m] < s0.jobs.len(),
                numbers@.len() == k,
                forall|m: int|
                    0 <= m < k ==> #[trigger] numbers@[m] == (count_attempts(
                        s0.attempts,
                        s0.jobs[sel_v[m] as int].id,
                    ) + 1) as u32,
            decreases sel@.len() - k,
        {
            let count = self.count_job_attempts(self.jobs[sel[k]].id.as_str());
            numbers.push(((count as u128) + 1) as u32);
            k = k + 1;
        }
        // Record the claims.
        let ghost news = claim_leases(s0, sel_v, ids_v, worker_id@, expires);
        let mut claimed: Vec<(Job, JobAttempt)> = Vec::new();
        let mut k: usize = 0;
        while k < sel.len()
            invariant
                s0.inv(),
                self@.inv(),
                k <= sel@.len(),
                sel@ == sel_v,
                sel_v.no_duplicates(),
                forall|m: int| 0 <= m < sel_v.len() ==> #[trigger] sel_v[m] < s0.jobs.len(),
                ids.deep_view() == all_ids,
                ids_v == all_ids.take(sel_v.len() as int),
                ids@.len() >= sel_v.len(),
                ids_v.len() == sel_v.len(),
                numbers@.len() == sel_v.len(),
                forall|m: int|
                    0 <= m < sel_v.len() ==> #[trigger] numbers@[m] == (count_attempts(
                        s0.attempts,
                        s0.jobs[sel_v[m] as int].id,
                    ) + 1) as u32,
                forall|m: int| 0 <= m < sel_v.len() ==> attempt_index(s0.attempts, #[trigger] ids_v[m]) == -1,
                forall|a: int, b: int| 0 <= a < b < sel_v.len() ==> ids_v[a] != ids_v[b],
                news == claim_leases(s0, sel_v, ids_v, worker_id@, expires),
                self@.jobs == assign_jobs(s0.jobs, sel_v.take(k as int), ids_v, worker_id@, now, expires),
                self@.attempts == s0.attempts + Seq::new(
                    k as nat,
                    |m: int| new_attempt(s0.attempts, s0.jobs[sel_v[m] as int].id, ids_v[m], worker_id@, now),
                ),
                self@.leases == upsert_leases(s0.leases, news.take(k as int)),
                self@.workers == s0.workers,
                claimed@.len() == k,
                forall|m: int|
                    0 <= m < k ==> (#[trigger] claimed@[m]).1.id@ == ids_v[m] && claimed@[m].0@
                        == assigned_job(s0.jobs[sel_v[m] as int], worker_id@, ids_v[m], now, expires)
                        && claimed@[m].1@ == new_attempt(
                        s0.attempts,
                        s0.jobs[sel_v[m] as int].id,
                        ids_v[m],
                        worker_id@,
                        now,
                    ),
            decreases sel@.len() - k,
        {
            let idx = sel[k];
            let ghost taken = sel_v.take(k as int);
            proof {
                lemma_assign_jobs(s0.jobs, taken, ids_v, worker_id@, now, expires);
                assert(!taken.contains(idx)) by {
                    if taken.contains(idx) {
                        let m = choose|m: int| 0 <= m < taken.len() && taken[m] == idx;
                        assert(sel_v[m] == sel_v[k as int]);
                    }
                }
                assert(self@.jobs[idx as int] == s0.jobs[idx as int]);
            }
            let job_id = self.jobs[idx].id.clone();
            let attempt = JobAttempt {
                id: ids[k].clone(),
                job_id: job_id.clone(),
                attempt_number: numbers[k],
                worker_id: String::from_str(worker_id),
                status: String::from_str("RUNNING"),
                started_at: now,
                completed_at: None,
                exit_code: None,
                runtime_ms: None,
                error: None,
            };
            proof {
                assert(attempt@ == new_attempt(s0.attempts, s0.jobs[sel_v[k as int] as int].id, ids_v[k as int], worker_id@, now));
            }
            let ghost atts_before = self@.attempts;
            self.attempts.push(attempt.clone());
            proof {
                assert(self@.attempts =~= atts_before.push(attempt@));
                assert(self@.attempts =~= s0.attempts + Seq::new(
                    (k + 1) as nat,
                    |m: int| new_attempt(s0.attempts, s0.jobs[sel_v[m] as int].id, ids_v[m], worker_id@, now),
                ));
                assert forall|a: int, b: int| 0 <= a < b < self@.attempts.len() implies self@.attempts[a].id
                    != self@.attempts[b].id by {
                    let n0 = s0.attempts.len();
                    if b >= n0 && a < n0 {
                        assert(self@.attempts[b].id == ids_v[b - n0]);
                        assert(attempt_index(s0.attempts, ids_v[b - n0]) == -1);
                        assert(s0.attempts[a].id != ids_v[b - n0]);
                    } else if a >= n0 {
                        assert(self@.attempts[a].id == ids_v[a - n0]);
                        assert(self@.attempts[b].id == ids_v[b - n0]);
                    }
                }
            }
            let lease = Lease {
                job_id: job_id.clone(),
                attempt_id: ids[k].clone(),
                worker_id: String::from_str(worker_id),
                expires_at: expires,
            };
            proof {
                assert(lease@ == news[k as int]);
                assert(news.take(k + 1).drop_last() =~= news.take(k as int));
            }
            self.upsert_lease_in_place(lease);
            let mut job = self.jobs[idx].clone();
            job.status = JobStatus::Assigned;
            job.worker_id = Some(String::from_str(worker_id));
            job.current_attempt_id = Some(ids[k].clone());
            job.started_at = Some(now);
            job.lease_expires_at = Some(expires);
            let ghost jobs_before = self@.jobs;
            self.jobs[idx] = job.clone();
            proof {
                assert(job@ == assigned_job(s0.jobs[idx as int], worker_id@, ids_v[k as int], now, expires));
                assert(self@.jobs =~= jobs_before.update(idx as int, job@));
                assert(sel_v.take(k + 1).drop_last() =~= taken);
                assert(self@.jobs == assign_jobs(s0.jobs, sel_v.take(k + 1), ids_v, worker_id@, now, expires));
                assert forall|a: int, b: int| 0 <= a < b < self@.jobs.len() implies self@.jobs[a].id
                    != self@.jobs[b].id by {
                    assert(self@.jobs[a].id == s0.jobs[a].id);
                    assert(self@.jobs[b].id == s0.jobs[b].id);
                }
            }
            claimed.push((job, attempt));
            k = k + 1;
        }
        if sel.len() > 0 {
            self.add_active_jobs(worker_id, sel.len());
        }
        let job_count = self.jobs.len();
        proof {
            assert(sel_v.take(sel_v.len() as int) =~= sel_v);
            assert(news.take(sel_v.len() as int) =~= news);
            assert(self@ =~= claim_state(s0, sel_v, ids_v, worker_id@, now, expires));
            assert(ids_fresh(s0.attempts, all_ids, sel_v.len() as int));
            if leases_match_jobs(s0) {
                assert(self@.jobs.len() == job_count);
                lemma_assign_jobs(s0.jobs, sel_v, ids_v, worker_id@, now, expires);
                assert(s0.jobs.len() == self@.jobs.len());
                crate::laws::law_claim_fits_offer(s0.jobs, now, capacity@, max_jobs as int);
                lemma_claim_keeps_leases_matched(s0, sel_v, ids_v, worker_id@, now, expires);
            }
        }
        Ok(claimed)
    }


    /// Claims work for `worker_id` at `now`: the claimable jobs that fit what
    /// `capacity` offers, best aging score first and at most `max_jobs`, each
    /// under a freshly drawn attempt id with a lease of `lease_duration_ms`
    /// (see `claim_happened`).
    pub fn claim_jobs_at(
        &mut self,
        now: i64,
        worker_id: &str,
        capacity: &WorkerCapacity,
        max_jobs: usize,
        lease_duration_ms: u64,
    ) -> (r: Result<Vec<(Job, JobAttempt)>, StoreError>)
        requires
            old(self)@.inv(),
            valid_timestamp(now as int),
            now + lease_duration_ms <= MAX_TIMESTAMP_MS,
        ensures
            final(self)@.inv(),
            claim_happened(
                old(self)@,
                final(self)@,
                r,
                now,
                worker_id@,
                capacity@,
                max_jobs as int,
                (now + lease_duration_ms) as i64,
            ),
            leases_match_jobs(old(self)@) ==> leases_match_jobs(final(self)@),
    {
        let sel = self.select_claims(now, capacity, max_jobs);
        let mut ids: Vec<String> = Vec::new();
        let mut k: usize = 0;
        while k < sel.len()
            invariant
                k <= sel@.len(),
                ids@.len() == k,
                forall|m: int| 0 <= m < k ==> is_attempt_id(#[trigger] ids.deep_view()[m]),
            decreases sel@.len() - k,
        {
            let u = new_uuid_simple();
            let id = String::from_str("att-").concat(u.as_str());
            proof {
                reveal_strlit("att-");
                assert(id@.subrange(0, 4) =~= "att-"@);
                assert forall|i: int| 4 <= i < 36 implies is_lower_hex(#[trigger] id@[i]) by {
                    assert(id@[i] == u@[i - 4]);
                }
            }
            let ghost before = ids.deep_view();
            ids.push(id);
            proof {
                assert(ids.deep_view() =~= before.push(id@));
            }
            k = k + 1;
        }
        let ghost drawn = ids.deep_view();
        let r = self.claim_jobs_with_ids(now, worker_id, capacity, max_jobs, lease_duration_ms, ids);
        proof {
            assert(drawn.len() == claim_selection(old(self)@.jobs, now, capacity@, max_jobs as int).len());
        }
        r
    }

    /// Claims work at the current time (see `claim_jobs_at`). Where the
    /// lease's deadline would fall beyond what chrono can hold, the claim is
    /// refused and nothing changes.
    pub fn claim_jobs(
        &mut self,
        worker_id: &str,
        capacity: &WorkerCapacity,
        max_jobs: usize,
        lease_duration_ms: u64,
    ) -> (r: Result<Vec<(Job, JobAttempt)>, StoreError>)
        requires
            old(self)@.inv(),
        ensures
            final(self)@.inv(),
            exists|now: i64|
                valid_timestamp(now as int) && claim_attempted(
                    old(self)@,
                    final(self)@,
                    r,
                    now,
                    worker_id@,
                    capacity@,
                    max_jobs as int,
                    lease_duration_ms,
                ),
            leases_match_jobs(old(self)@) ==> leases_match_jobs(final(self)@),
    {
        let now = now_millis();
        if lease_duration_ms > (MAX_TIMESTAMP_MS - now) as u64 {
            return Err(StoreError::InvalidTransition(String::from_str("Cannot claim: lease deadline out of range")));
        }
        self.claim_jobs_at(now, worker_id, capacity, max_jobs, lease_duration_ms)
    }
}

/// What a claim at time `now` with leases of `lease_ms` does: where the
/// lease's deadline falls beyond what chrono can hold, it is refused and
/// nothing changes; otherwise see `claim_happened`.
pub open spec fn claim_attempted(
    old: StoreView,
    new: StoreView,
    r: Result<Vec<(Job, JobAttempt)>, StoreError>,
    now: i64,
    worker_id: Seq<char>,
    offer: ResourcesView,
    max_jobs: int,
    lease_ms: u64,
) -> bool {
    if now + lease_ms > MAX_TIMESTAMP_MS {
        r matches Err(StoreError::InvalidTransition(m)) && m@ == "Cannot claim: lease deadline out of range"@ && new == old
    } else {
        claim_happened(old, new, r, now, worker_id, offer, max_jobs, (now + lease_ms) as i64)
    }
}

// ---------------------------------------------------------------------------
// Lease renewal and heartbeat reaping.
// ---------------------------------------------------------------------------

/// The error a renewal of a lease that is not held answers with.
pub open spec fn renewal_refusal(job_id: Seq<char>, attempt_id: Seq<char>) -> Seq<char> {
    "Cannot renew lease: lease for job "@ + job_id + " with attempt "@ + attempt_id
        + " not found or expired"@
}

/// What a renewal of the lease of attempt `attempt_id` on job `job_id` until
/// `expires` does: if the job's lease belongs to that attempt, the lease runs
/// until `expires` and, when the attempt is still the job's current one, the
/// job is running with that deadline; otherwise it is an error and nothing
/// changes.
pub open spec fn renew_happened(
    old: StoreView,
    new: StoreView,
    r: Result<i64, StoreError>,
    job_id: Seq<char>,
    attempt_id: Seq<char>,
    expires: i64,
) -> bool {
    let i = lease_index(old.leases, job_id);
    if i >= 0 && old.leases[i].attempt_id == attempt_id {
        let k = job_index(old.jobs, job_id);
        &&& r == Ok::<i64, StoreError>(expires)
        &&& new == StoreView {
            leases: old.leases.update(i, LeaseView { expires_at: expires, ..old.leases[i] }),
            jobs: if k >= 0 && old.jobs[k].current_attempt_id == Some(attempt_id) {
                old.jobs.update(
                    k,
                    JobView { status: JobStatus::Running, lease_expires_at: Some(expires), ..old.jobs[k] },
                )
            } else {
                old.jobs
            },
            ..old
        }
    } else {
        &&& r matches Err(StoreError::InvalidTransition(m)) && m@ == renewal_refusal(job_id, attempt_id)
        &&& new == old
    }
}

/// An active worker whose last heartbeat is older than `cutoff`.
pub open spec fn heartbeat_missed(w: WorkerView, cutoff: int) -> bool {
    w.status == WorkerStatus::Active && w.last_heartbeat < cutoff
}

/// The workers with the silent ones marked unavailable.
pub open spec fn mark_unavailable(workers: Seq<WorkerView>, cutoff: int) -> Seq<WorkerView> {
    Seq::new(
        workers.len(),
        |i: int|
            if heartbeat_missed(workers[i], cutoff) {
                WorkerView { status: WorkerStatus::Unavailable, ..workers[i] }
            } else {
                workers[i]
            },
    )
}

/// The ids of the silent workers, in table order.
pub open spec fn missed_ids(workers: Seq<WorkerView>, cutoff: int) -> Seq<Seq<char>>
    decreases workers.len(),
{
    if workers.len() == 0 {
        Seq::empty()
    } else {
        let p = missed_ids(workers.drop_last(), cutoff);
        if heartbeat_missed(workers.last(), cutoff) {
            p.push(workers.last().id)
        } else {
            p
        }
    }
}

/// What a renewal at time `now` for `duration_ms` does: where the new
/// deadline falls beyond what chrono can hold, it is refused and nothing
/// changes; otherwise see `renew_happened`.
pub open spec fn renew_attempted(
    old: StoreView,
    new: StoreView,
    r: Result<i64, StoreError>,
    now: i64,
    job_id: Seq<char>,
    attempt_id: Seq<char>,
    duration_ms: u64,
) -> bool {
    if now + duration_ms > MAX_TIMESTAMP_MS {
        r matches Err(StoreError::InvalidTransition(m)) && m@ == "Cannot renew lease: deadline out of range"@ && new == old
    } else {
        renew_happened(old, new, r, job_id, attempt_id, (now + duration_ms) as i64)
    }
}

/// What reaping the workers silent since before `cutoff` does: they are
/// marked unavailable, and their ids come back in table order.
pub open spec fn workers_reaped(
    old: StoreView,
    new: StoreView,
    r: Result<Vec<String>, StoreError>,
    cutoff: int,
) -> bool {
    &&& r matches Ok(v) && v.deep_view() == missed_ids(old.workers, cutoff)
    &&& new == StoreView { workers: mark_unavailable(old.workers, cutoff), ..old }
}

/// What reaping at time `now` with a heartbeat timeout of `timeout_ms` does:
/// where the cutoff falls before what chrono can hold, it is refused and
/// nothing changes; otherwise see `workers_reaped`.
pub open spec fn reap_workers_attempted(
    old: StoreView,
    new: StoreView,
    r: Result<Vec<String>, StoreError>,
    now: i64,
    timeout_ms: u64,
) -> bool {
    if now - timeout_ms < MIN_TIMESTAMP_MS {
        r matches Err(StoreError::InvalidTransition(m)) && m@ == "Cannot reap workers: cutoff out of range"@ && new == old
    } else {
        workers_reaped(old, new, r, now - timeout_ms)
    }
}

impl Store {
    /// Renews the lease of attempt `attempt_id` on job `job_id` at `now` for
    /// `duration_ms` (see `renew_happened`).
    pub fn renew_lease_at(
        &mut self,
        now: i64,
        job_id: &str,
        attempt_id: &str,
        duration_ms: u64,
    ) -> (r: Result<i64, StoreError>)
        requires
            old(self)@.inv(),
            valid_timestamp(now as int),
            now + duration_ms <= MAX_TIMESTAMP_MS,
        ensures
            final(self)@.inv(),
            renew_happened(old(self)@, final(self)@, r, job_id@, attempt_id@, (now + duration_ms) as i64),
    {
        let ghost s0 = self@;
        let expires: i64 = now + (duration_ms as i64);
        let li = match self.find_lease(job_id) {
            Some(li) => li,
            None => {
                return Err(StoreError::InvalidTransition(self::renewal_refusal_message(job_id, attempt_id)));
            },
        };
        if !str_eq(self.leases[li].attempt_id.as_str(), attempt_id) {
            return Err(StoreError::InvalidTransition(self::renewal_refusal_message(job_id, attempt_id)));
        }
        let mut lease = self.leases[li].clone();
        lease.expires_at = expires;
        self.leases[li] = lease;
        proof {
            assert(self@.leases =~= s0.leases.update(li as int, LeaseView { expires_at: expires, ..s0.leases[li as int] }));
            assert forall|a: int, b: int| 0 <= a < b < self@.leases.len() implies self@.leases[a].job_id
                != self@.leases[b].job_id by {
                assert(self@.leases[a].job_id == s0.leases[a].job_id);
                assert(self@.leases[b].job_id == s0.leases[b].job_id);
            }
        }
        let ghost s1 = self@;
        match self.find_job(job_id) {
            Some(k) => {
                let current = match &self.jobs[k].current_attempt_id {
                    Some(a) => str_eq(a.as_str(), attempt_id),
                    None => false,
                };
                if current {
                    let mut job = self.jobs[k].clone();
                    job.status = JobStatus::Running;
                    job.lease_expires_at = Some(expires);
                    self.jobs[k] = job;
                    proof {
                        assert(self@.jobs =~= s1.jobs.update(k as int, job@));
                        assert forall|a: int, b: int| 0 <= a < b < self@.jobs.len() implies self@.jobs[a].id
                            != self@.jobs[b].id by {
                            assert(self@.jobs[a].id == s1.jobs[a].id);
                            assert(self@.jobs[b].id == s1.jobs[b].id);
                        }
                    }
                }
            },
            None => {},
        }
        proof {
            let k = job_index(s0.jobs, job_id@);
            assert(self@ =~= StoreView {
                leases: s0.leases.update(li as int, LeaseView { expires_at: expires, ..s0.leases[li as int] }),
                jobs: if k >= 0 && s0.jobs[k].current_attempt_id == Some(attempt_id@) {
                    s0.jobs.update(
                        k,
                        JobView { status: JobStatus::Running, lease_expires_at: Some(expires), ..s0.jobs[k] },
                    )
                } else {
                    s0.jobs
                },
                ..s0
            });
        }
        Ok(expires)
    }

    /// Renews a lease at the current time (see `renew_happened`). Where the
    /// new deadline would fall beyond what chrono can hold, the renewal is
    /// refused and nothing changes.
    pub fn renew_lease(&mut self, job_id: &str, attempt_id: &str, duration_ms: u64) -> (r: Result<i64, StoreError>)
        requires
            old(self)@.inv(),
        ensures
            final(self)@.inv(),
            exists|now: i64|
                valid_timestamp(now as int) && renew_attempted(
                    old(self)@,
                    final(self)@,
                    r,
                    now,
                    job_id@,
                    attempt_id@,
                    duration_ms,
                ),
    {
        let now = now_millis();
        if duration_ms > (MAX_TIMESTAMP_MS - now) as u64 {
            return Err(StoreError::InvalidTransition(String::from_str("Cannot renew lease: deadline out of range")));
        }
        self.renew_lease_at(now, job_id, attempt_id, duration_ms)
    }

    /// Marks unavailable every active worker whose last heartbeat is older
    /// than `timeout_ms` before `now`, and returns their ids in table order.
    pub fn reap_dead_workers_at(&mut self, now: i64, timeout_ms: u64) -> (r: Result<Vec<String>, StoreError>)
        requires
            old(self)@.inv(),
            valid_timestamp(now as int),
            now - timeout_ms >= MIN_TIMESTAMP_MS,
        ensures
            final(self)@.inv(),
            workers_reaped(old(self)@, final(self)@, r, now - timeout_ms),
    {
        let ghost s0 = self@;
        let cutoff: i64 = now - (timeout_ms as i64);
        let mut dead: Vec<String> = Vec::new();
        let mut k: usize = 0;
        while k < self.workers.len()
            invariant
                k <= self.workers@.len(),
                self@.workers.len() == s0.workers.len(),
                self@.jobs == s0.jobs,
                self@.attempts == s0.attempts,
                self@.leases == s0.leases,
                cutoff == now - timeout_ms,
                forall|m: int| 0 <= m < k ==> self@.workers[m] == mark_unavailable(s0.workers, cutoff as int)[m],
                forall|m: int| k <= m < self@.workers.len() ==> self@.workers[m] == s0.workers[m],
                dead.deep_view() == missed_ids(s0.workers.take(k as int), cutoff as int),
            decreases self.workers@.len() - k,
        {
            let ghost pre = self@.workers;
            let ghost dead_before = dead.deep_view();
            proof {
                assert(s0.workers.take(k + 1).drop_last() =~= s0.workers.take(k as int));
            }
            let w = &self.workers[k];
            if w.status == WorkerStatus::Active && w.last_heartbeat < cutoff {
                dead.push(w.id.clone());
                let mut w2 = self.workers[k].clone();
                w2.status = WorkerStatus::Unavailable;
                self.workers[k] = w2;
                proof {
                    assert(self@.workers =~= pre.update(k as int, w2@));
                    assert(dead.deep_view() =~= dead_before.push(s0.workers[k as int].id));
                }
            }
            assert(self@.workers[k as int] == mark_unavailable(s0.workers, cutoff as int)[k as int]);
            k = k + 1;
        }
        proof {
            assert(s0.workers.take(k as int) =~= s0.workers);
            assert(self@.workers =~= mark_unavailable(s0.workers, cutoff as int));
            assert(self@ =~= StoreView { workers: mark_unavailable(s0.workers, cutoff as int), ..s0 });
            assert forall|a: int, b: int| 0 <= a < b < self@.workers.len() implies self@.workers[a].id
                != self@.workers[b].id by {
                assert(self@.workers[a].id == s0.workers[a].id);
                assert(self@.workers[b].id == s0.workers[b].id);
            }
        }
        Ok(dead)
    }

    /// Marks the silent workers unavailable, at the current time (see
    /// `reap_dead_workers_at`). Where the cutoff would fall before what
    /// chrono can hold, nothing changes and the answer is an error.
    pub fn reap_dead_workers(&mut self, timeout_ms: u64) -> (r: Result<Vec<String>, StoreError>)
        requires
            old(self)@.inv(),
        ensures
            final(self)@.inv(),
            exists|now: i64| valid_timestamp(now as int) && reap_workers_attempted(old(self)@, final(self)@, r, now, timeout_ms),
    {
        let now = now_millis();
        if timeout_ms > (now - MIN_TIMESTAMP_MS) as u64 {
            return Err(StoreError::InvalidTransition(String::from_str("Cannot reap workers: cutoff out of range")));
        }
        self.reap_dead_workers_at(now, timeout_ms)
    }
}

/// The error a renewal of a lease that is not held answers with.
fn renewal_refusal_message(job_id: &str, attempt_id: &str) -> (m: String)
    ensures
        m@ == renewal_refusal(job_id@, attempt_id@),
{
    String::from_str("Cannot renew lease: lease for job ").concat(job_id).concat(" with attempt ").concat(
        attempt_id,
    ).concat(" not found or expired")
}

// ---------------------------------------------------------------------------
// Reaping expired leases.
// ---------------------------------------------------------------------------

/// A lease whose deadline passed before `now`.
pub open spec fn lease_expired(l: LeaseView, now: i64) -> bool {
    l.expires_at < now
}

/// The expired leases, in table order.
pub open spec fn expired_leases(leases: Seq<LeaseView>, now: i64) -> Seq<LeaseView>
    decreases leases.len(),
{
    if leases.len() == 0 {
        Seq::empty()
    } else {
        let p = expired_leases(leases.drop_last(), now);
        if lease_expired(leases.last(), now) {
            p.push(leases.last())
        } else {
            p
        }
    }
}

/// The leases still running, in table order.
pub open spec fn live_leases(leases: Seq<LeaseView>, now: i64) -> Seq<LeaseView>
    decreases leases.len(),
{
    if leases.len() == 0 {
        Seq::empty()
    } else {
        let p = live_leases(leases.drop_last(), now);
        if !lease_expired(leases.last(), now) {
            p.push(leases.last())
        } else {
            p
        }
    }
}

/// One of the leases is held for this job.
pub open spec fn lists_job(ls: Seq<LeaseView>, job_id: Seq<char>) -> bool {
    exists|e: int| 0 <= e < ls.len() && ls[e].job_id == job_id
}

/// One of the leases belongs to this attempt.
pub open spec fn lists_attempt(ls: Seq<LeaseView>, attempt_id: Seq<char>) -> bool {
    exists|e: int| 0 <= e < ls.len() && ls[e].attempt_id == attempt_id
}

/// How many of the leases are held by this worker.
pub open spec fn leases_of_worker(ls: Seq<LeaseView>, worker_id: Seq<char>) -> nat
    decreases ls.len(),
{
    if ls.len() == 0 {
        0
    } else {
        leases_of_worker(ls.drop_last(), worker_id) + if ls.last().worker_id == worker_id {
            1nat
        } else {
            0nat
        }
    }
}

/// A job count lowered by `k`, never below zero.
pub open spec fn fewer_jobs(n: u32, k: nat) -> u32 {
    if n >= k {
        (n - k) as u32
    } else {
        0
    }
}

/// The job whose lease expired at `now`: retried if it has retries left,
/// failed otherwise; either way freed from its worker, attempt and lease.
pub open spec fn reaped_job(job: JobView, now: i64) -> JobView {
    if retries_left(job) {
        retrying_job(job, now)
    } else {
        JobView {
            status: JobStatus::Failed,
            completed_at: Some(now),
            worker_id: None,
            current_attempt_id: None,
            lease_expires_at: None,
            ..job
        }
    }
}

/// The job as the reaping at `now` reports it: the retried job as stored, or
/// the failed job with its completion time, still naming the worker, attempt
/// and lease that it had when the lease ran out.
pub open spec fn reported_job(job: JobView, now: i64) -> JobView {
    if retries_left(job) {
        retrying_job(job, now)
    } else {
        JobView { status: JobStatus::Failed, completed_at: Some(now), ..job }
    }
}

/// The store after the leases expired by `now` are reaped: their jobs are
/// reaped (see `reaped_job`), their attempts are lost, their workers count
/// one job fewer per lease, and the leases are dropped.
pub open spec fn reap_state(s: StoreView, now: i64) -> StoreView {
    let gone = expired_leases(s.leases, now);
    StoreView {
        jobs: Seq::new(
            s.jobs.len(),
            |i: int|
                if lists_job(gone, s.jobs[i].id) {
                    reaped_job(s.jobs[i], now)
                } else {
                    s.jobs[i]
                },
        ),
        attempts: Seq::new(
            s.attempts.len(),
            |i: int|
                if lists_attempt(gone, s.attempts[i].id) {
                    AttemptView { status: "LOST"@, completed_at: Some(now), ..s.attempts[i] }
                } else {
                    s.attempts[i]
                },
        ),
        workers: Seq::new(
            s.workers.len(),
            |i: int|
                WorkerView {
                    active_jobs: fewer_jobs(s.workers[i].active_jobs, leases_of_worker(gone, s.workers[i].id)),
                    ..s.workers[i]
                },
        ),
        leases: live_leases(s.leases, now),
    }
}

/// For each expired lease, in order, whose job exists: the job as reported
/// (see `reported_job`) and the worker that held the lease.
pub open spec fn reap_report(jobs: Seq<JobView>, gone: Seq<LeaseView>, now: i64) -> Seq<(JobView, Seq<char>)>
    decreases gone.len(),
{
    if gone.len() == 0 {
        Seq::empty()
    } else {
        let p = reap_report(jobs, gone.drop_last(), now);
        let k = job_index(jobs, gone.last().job_id);
        if k >= 0 {
            p.push((reported_job(jobs[k], now), gone.last().worker_id))
        } else {
            p
        }
    }
}

/// Every job retried by the reaping at `now` gets a deadline chrono can hold.
pub open spec fn reap_fits(s: StoreView, now: i64) -> bool {
    forall|i: int|
        0 <= i < s.jobs.len() && lists_job(expired_leases(s.leases, now), #[trigger] s.jobs[i].id)
            && retries_left(s.jobs[i]) ==> retry_fits(s.jobs[i], now)
}

/// The views of a list of leases.
pub open spec fn lease_views(ls: Seq<Lease>) -> Seq<LeaseView> {
    ls.map_values(|l: Lease| l@)
}

/// The views of a list of reaped jobs with their workers.
pub open spec fn report_views(v: Seq<(Job, String)>) -> Seq<(JobView, Seq<char>)> {
    v.map_values(|p: (Job, String)| (p.0@, p.1@))
}

/// What reaping the leases expired at `now` does (see `reap_state`), with
/// the report of each reaped job and the worker that held it (see
/// `reap_report`).
pub open spec fn leases_reaped(
    old: StoreView,
    new: StoreView,
    r: Result<Vec<(Job, String)>, StoreError>,
    now: i64,
) -> bool {
    &&& r matches Ok(v) && report_views(v@) == reap_report(old.jobs, expired_leases(old.leases, now), now)
    &&& new == reap_state(old, now)
}

/// What reaping expired leases at time `now` does: where a retry's deadline
/// would fall beyond what chrono can hold, it is refused and nothing
/// changes; otherwise see `leases_reaped`.
pub open spec fn reap_leases_attempted(
    old: StoreView,
    new: StoreView,
    r: Result<Vec<(Job, String)>, StoreError>,
    now: i64,
) -> bool {
    if !reap_fits(old, now) {
        r matches Err(StoreError::InvalidTransition(m)) && m@ == "Cannot reap leases: retry deadline out of range"@ && new == old
    } else {
        leases_reaped(old, new, r, now)
    }
}

/// Whether one of the leases is held for this job.
fn leases_list_job(ls: &Vec<Lease>, job_id: &str) -> (r: bool)
    ensures
        r == lists_job(lease_views(ls@), job_id@),
{
    let mut i: usize = 0;
    while i < ls.len()
        invariant
            i <= ls@.len(),
            forall|e: int| 0 <= e < i ==> ls@[e]@.job_id != job_id@,
        decreases ls@.len() - i,
    {
        if str_eq(ls[i].job_id.as_str(), job_id) {
            assert(lease_views(ls@)[i as int].job_id == job_id@);
            return true;
        }
        i = i + 1;
    }
    proof {
        if lists_job(lease_views(ls@), job_id@) {
            let e = choose|e: int| 0 <= e < lease_views(ls@).len() && lease_views(ls@)[e].job_id == job_id@;
            assert(ls@[e]@.job_id == job_id@);
        }
    }
    false
}

/// Whether one of the leases belongs to this attempt.
fn leases_list_attempt(ls: &Vec<Lease>, attempt_id: &str) -> (r: bool)
    ensures
        r == lists_attempt(lease_views(ls@), attempt_id@),
{
    let mut i: usize = 0;
    while i < ls.len()
        invariant
            i <= ls@.len(),
            forall|e: int| 0 <= e < i ==> ls@[e]@.attempt_id != attempt_id@,
        decreases ls@.len() - i,
    {
        if str_eq(ls[i].attempt_id.as_str(), attempt_id) {
            assert(lease_views(ls@)[i as int].attempt_id == attempt_id@);
            return true;
        }
        i = i + 1;
    }
    proof {
        if lists_attempt(lease_views(ls@), attempt_id@) {
            let e = choose|e: int|
                0 <= e < lease_views(ls@).len() && lease_views(ls@)[e].attempt_id == attempt_id@;
            assert(ls@[e]@.attempt_id == attempt_id@);
        }
    }
    false
}

/// How many of the leases this worker holds.
fn count_worker_leases(ls: &Vec<Lease>, worker_id: &str) -> (r: usize)
    ensures
        r == leases_of_worker(lease_views(ls@), worker_id@),
{
    let mut count: usize = 0;
    let mut i: usize = 0;
    while i < ls.len()
        invariant
            i <= ls@.len(),
            count <= i,
            count == leases_of_worker(lease_views(ls@).take(i as int), worker_id@),
        decreases ls@.len() - i,
    {
        proof {
            assert(lease_views(ls@).take(i + 1).drop_last() =~= lease_views(ls@).take(i as int));
        }
        if str_eq(ls[i].worker_id.as_str(), worker_id) {
            count = count + 1;
        }
        i = i + 1;
    }
    proof {
        assert(lease_views(ls@).take(i as int) =~= lease_views(ls@));
    }
    count
}

/// The job reaped at `now` as the reaping reports it (see `reported_job`).
fn report_reaped_job(job: &Job, now: i64) -> (r: Job)
    requires
        valid_timestamp(now as int),
        retries_left(job@) ==> retry_fits(job@, now),
    ensures
        r@ == reported_job(job@, now),
{
    let mut j = job.clone();
    if j.retry_count < j.max_retries {
        let next_retry = match retry_deadline(now, j.retry_count + 1) {
            Some(t) => t,
            None => {
                assert(false);
                now
            },
        };
        j.retry_count = j.retry_count + 1;
        j.status = JobStatus::Retrying;
        j.next_retry_at = Some(next_retry);
        j.worker_id = None;
        j.current_attempt_id = None;
        j.lease_expires_at = None;
    } else {
        j.status = JobStatus::Failed;
        j.completed_at = Some(now);
    }
    j
}

/// The job reaped at `now` as it is stored (see `reaped_job`).
fn reap_job(job: &Job, now: i64) -> (r: Job)
    requires
        valid_timestamp(now as int),
        retries_left(job@) ==> retry_fits(job@, now),
    ensures
        r@ == reaped_job(job@, now),
{
    let mut j = job.clone();
    if j.retry_count < j.max_retries {
        let next_retry = match retry_deadline(now, j.retry_count + 1) {
            Some(t) => t,
            None => {
                assert(false);
                now
            },
        };
        j.retry_count = j.retry_count + 1;
        j.status = JobStatus::Retrying;
        j.next_retry_at = Some(next_retry);
    } else {
        j.status = JobStatus::Failed;
        j.completed_at = Some(now);
    }
    j.worker_id = None;
    j.current_attempt_id = None;
    j.lease_expires_at = None;
    j
}

/// The live leases are among the leases, and keep each job to one lease.
proof fn lemma_live_leases(leases: Seq<LeaseView>, now: i64)
    ensures
        forall|x: LeaseView| #[trigger] live_leases(leases, now).contains(x) ==> leases.contains(x),
        lease_jobs_unique(leases) ==> lease_jobs_unique(live_leases(leases, now)),
    decreases leases.len(),
{
    if leases.len() > 0 {
        let p = leases.drop_last();
        lemma_live_leases(p, now);
        let lp = live_leases(p, now);
        assert forall|x: LeaseView| #[trigger] live_leases(leases, now).contains(x) implies leases.contains(x) by {
            if lp.contains(x) {
                assert(p.contains(x));
                let j = choose|j: int| 0 <= j < p.len() && p[j] == x;
                assert(leases[j] == x);
            } else {
                assert(x == leases.last());
                assert(leases[leases.len() - 1] == x);
            }
        }
        if lease_jobs_unique(leases) {
            assert(lease_jobs_unique(p));
            if !lease_expired(leases.last(), now) {
                let l = live_leases(leases, now);
                assert(l == lp.push(leases.last()));
                assert forall|a: int, b: int| 0 <= a < b < l.len() implies l[a].job_id != l[b].job_id by {
                    if b == l.len() - 1 {
                        assert(lp.contains(l[a]));
                        assert(p.contains(l[a]));
                        let j = choose|j: int| 0 <= j < p.len() && p[j] == l[a];
                        assert(leases[j] == l[a]);
                        assert(leases[leases.len() - 1] == l[b]);
                    } else {
                        assert(l[a] == lp[a]);
                        assert(l[b] == lp[b]);
                    }
                }
            }
        }
    }
}

/// Reaping keeps every table keyed.
proof fn lemma_reap_keeps_inv(s: StoreView, now: i64)
    requires
        s.inv(),
    ensures
        reap_state(s, now).inv(),
{
    let r = reap_state(s, now);
    lemma_live_leases(s.leases, now);
    assert forall|a: int, b: int| 0 <= a < b < r.jobs.len() implies r.jobs[a].id != r.jobs[b].id by {
        assert(r.jobs[a].id == s.jobs[a].id);
        assert(r.jobs[b].id == s.jobs[b].id);
    }
    assert forall|a: int, b: int| 0 <= a < b < r.attempts.len() implies r.attempts[a].id != r.attempts[b].id by {
        assert(r.attempts[a].id == s.attempts[a].id);
        assert(r.attempts[b].id == s.attempts[b].id);
    }
    assert forall|a: int, b: int| 0 <= a < b < r.workers.len() implies r.workers[a].id != r.workers[b].id by {
        assert(r.workers[a].id == s.workers[a].id);
        assert(r.workers[b].id == s.workers[b].id);
    }
}

impl Store {
    /// Splits the leases into the expired and the live ones, in table order.
    fn split_leases(&self, now: i64) -> (r: (Vec<Lease>, Vec<Lease>))
        ensures
            lease_views(r.0@) == expired_leases(self@.leases, now),
            lease_views(r.1@) == live_leases(self@.leases, now),
    {
        let mut gone: Vec<Lease> = Vec::new();
        let mut live: Vec<Lease> = Vec::new();
        let mut k: usize = 0;
        while k < self.leases.len()
            invariant
                k <= self.leases@.len(),
                lease_views(gone@) == expired_leases(self@.leases.take(k as int), now),
                lease_views(live@) == live_leases(self@.leases.take(k as int), now),
            decreases self.leases@.len() - k,
        {
            proof {
                assert(self@.leases.take(k + 1).drop_last() =~= self@.leases.take(k as int));
            }
            let ghost g0 = gone@;
            let ghost l0 = live@;
            if self.leases[k].expires_at < now {
                gone.push(self.leases[k].clone());
                proof {
                    assert(lease_views(gone@) =~= lease_views(g0).push(self@.leases[k as int]));
                }
            } else {
                live.push(self.leases[k].clone());
                proof {
                    assert(lease_views(live@) =~= lease_views(l0).push(self@.leases[k as int]));
                }
            }
            k = k + 1;
        }
        proof {
            assert(self@.leases.take(k as int) =~= self@.leases);
        }
        (gone, live)
    }

    /// Reaps the leases whose deadline passed before `now` (see `reap_state`),
    /// and reports each reaped job with the worker that held it (see
    /// `reap_report`).
    pub fn reap_expired_leases_at(&mut self, now: i64) -> (r: Result<Vec<(Job, String)>, StoreError>)
        requires
            old(self)@.inv(),
            valid_timestamp(now as int),
            reap_fits(old(self)@, now),
        ensures
            final(self)@.inv(),
            leases_reaped(old(self)@, final(self)@, r, now),
    {
        let ghost s0 = self@;
        let (gone, live) = self.split_leases(now);
        let ghost gv = lease_views(gone@);
        // The report, read from the jobs as they stood.
        let mut report: Vec<(Job, String)> = Vec::new();
        let mut t: usize = 0;
        while t < gone.len()
            invariant
                self@ == s0,
                s0.inv(),
                reap_fits(s0, now),
                valid_timestamp(now as int),
                t <= gone@.len(),
                gv == lease_views(gone@),
                gv == expired_leases(s0.leases, now),
                report_views(report@) == reap_report(s0.jobs, gv.take(t as int), now),
            decreases gone@.len() - t,
        {
            proof {
                assert(gv.take(t + 1).drop_last() =~= gv.take(t as int));
            }
            let ghost r0 = report@;
            match self.find_job(gone[t].job_id.as_str()) {
                Some(k) => {
                    proof {
                        assert(gv[t as int] == gone@[t as int]@);
                        assert(lists_job(gv, s0.jobs[k as int].id));
                    }
                    let job = report_reaped_job(&self.jobs[k], now);
                    report.push((job, gone[t].worker_id.clone()));
                    proof {
                        assert(report_views(report@) =~= report_views(r0).push(
                            (reported_job(s0.jobs[k as int], now), gv[t as int].worker_id),
                        ));
                    }
                },
                None => {},
            }
            t = t + 1;
        }
        proof {
            assert(gv.take(gone@.len() as int) =~= gv);
        }
        // The jobs.
        let mut k: usize = 0;
        while k < self.jobs.len()
            invariant
                k <= self.jobs@.len(),
                s0.inv(),
                reap_fits(s0, now),
                valid_timestamp(now as int),
                gv == lease_views(gone@),
                gv == expired_leases(s0.leases, now),
                self@.jobs.len() == s0.jobs.len(),
                self@.attempts == s0.attempts,
                self@.workers == s0.workers,
                self@.leases == s0.leases,
                forall|m: int| 0 <= m < k ==> self@.jobs[m] == reap_state(s0, now).jobs[m],
                forall|m: int| k <= m < self@.jobs.len() ==> self@.jobs[m] == s0.jobs[m],
            decreases self.jobs@.len() - k,
        {
            let ghost pre = self@.jobs;
            if leases_list_job(&gone, self.jobs[k].id.as_str()) {
                let job = reap_job(&self.jobs[k], now);
                self.jobs[k] = job;
                proof {
                    assert(self@.jobs =~= pre.update(k as int, job@));
                }
            }
            assert(self@.jobs[k as int] == reap_state(s0, now).jobs[k as int]);
            k = k + 1;
        }
        // The attempts.
        let mut k: usize = 0;
        while k < self.attempts.len()
            invariant
                k <= self.attempts@.len(),
                gv == lease_views(gone@),
                gv == expired_leases(s0.leases, now),
                self@.attempts.len() == s0.attempts.len(),
                self@.jobs == reap_state(s0, now).jobs,
                self@.workers == s0.workers,
                self@.leases == s0.leases,
                forall|m: int| 0 <= m < k ==> self@.attempts[m] == reap_state(s0, now).attempts[m],
                forall|m: int| k <= m < self@.attempts.len() ==> self@.attempts[m] == s0.attempts[m],
            decreases self.attempts@.len() - k,
        {
            let ghost pre = self@.attempts;
            if leases_list_attempt(&gone, self.attempts[k].id.as_str()) {
                let mut a = self.attempts[k].clone();
                a.status = String::from_str("LOST");
                a.completed_at = Some(now);
                self.attempts[k] = a;
                proof {
                    assert(self@.attempts =~= pre.update(k as int, a@));
                }
            }
            assert(self@.attempts[k as int] == reap_state(s0, now).attempts[k as int]);
            k = k + 1;
        }
        // The workers.
        let mut k: usize = 0;
        while k < self.workers.len()
            invariant
                k <= self.workers@.len(),
                gv == lease_views(gone@),
                gv == expired_leases(s0.leases, now),
                self@.workers.len() == s0.workers.len(),
                self@.jobs == reap_state(s0, now).jobs,
                self@.attempts == reap_state(s0, now).attempts,
                self@.leases == s0.leases,
                forall|m: int| 0 <= m < k ==> self@.workers[m] == reap_state(s0, now).workers[m],
                forall|m: int| k <= m < self@.workers.len() ==> self@.workers[m] == s0.workers[m],
            decreases self.workers@.len() - k,
        {
            let ghost pre = self@.workers;
            let n = count_worker_leases(&gone, self.workers[k].id.as_str());
            let mut w = self.workers[k].clone();
            w.active_jobs = if (w.active_jobs as usize) >= n {
                ((w.active_jobs as usize) - n) as u32
            } else {
                0
            };
            self.workers[k] = w;
            proof {
                assert(self@.workers =~= pre.update(k as int, w@));
            }
            assert(self@.workers[k as int] == reap_state(s0, now).workers[k as int]);
            k = k + 1;
        }
        // The leases.
        self.leases = live;
        proof {
            assert(self@.jobs =~= reap_state(s0, now).jobs);
            assert(self@.attempts =~= reap_state(s0, now).attempts);
            assert(self@.workers =~= reap_state(s0, now).workers);
            assert(self@ =~= reap_state(s0, now));
            lemma_reap_keeps_inv(s0, now);
        }
        Ok(report)
    }
}

impl Store {
    /// Whether every job the reaping at `now` would retry gets a deadline
    /// chrono can hold.
    fn reap_deadlines_fit(&self, now: i64) -> (r: bool)
        requires
            self@.inv(),
            valid_timestamp(now as int),
        ensures
            r == reap_fits(self@, now),
    {
        let (gone, _live) = self.split_leases(now);
        let mut k: usize = 0;
        while k < self.jobs.len()
            invariant
                k <= self.jobs@.len(),
                valid_timestamp(now as int),
                lease_views(gone@) == expired_leases(self@.leases, now),
                forall|m: int|
                    0 <= m < k && lists_job(expired_leases(self@.leases, now), #[trigger] self@.jobs[m].id)
                        && retries_left(self@.jobs[m]) ==> retry_fits(self@.jobs[m], now),
            decreases self.jobs@.len() - k,
        {
            let job = &self.jobs[k];
            if job.retry_count < job.max_retries && leases_list_job(&gone, job.id.as_str()) {
                if retry_deadline(now, job.retry_count + 1).is_none() {
                    proof {
                        let jv = self@.jobs[k as int];
                        assert(jv == job@);
                        assert(lists_job(expired_leases(self@.leases, now), jv.id));
                        assert(retries_left(jv) && !retry_fits(jv, now));
                    }
                    return false;
                }
            }
            k = k + 1;
        }
        true
    }

    /// Reaps the expired leases at the current time (see
    /// `reap_expired_leases_at`). Where a retry's deadline would fall beyond
    /// what chrono can hold, nothing changes and the answer is an error.
    pub fn reap_expired_leases(&mut self) -> (r: Result<Vec<(Job, String)>, StoreError>)
        requires
            old(self)@.inv(),
        ensures
            final(self)@.inv(),
            exists|now: i64| valid_timestamp(now as int) && reap_leases_attempted(old(self)@, final(self)@, r, now),
    {
        let now = now_millis();
        if !self.reap_deadlines_fit(now) {
            return Err(StoreError::InvalidTransition(String::from_str("Cannot reap leases: retry deadline out of range")));
        }
        self.reap_expired_leases_at(now)
    }
}

// ---------------------------------------------------------------------------
// Listing and counting.
// ---------------------------------------------------------------------------

/// The keys jobs are listed by: the creation time, newest first, ties in
/// the order of `jobs`.
pub open spec fn list_keys(jobs: Seq<JobView>) -> Seq<(i64, i64)> {
    Seq::new(jobs.len(), |i: int| (jobs[i].created_at, 0i64))
}

/// Going through `order`, the jobs with the wanted status (any status when
/// none is given), at most `limit` of them.
pub open spec fn listed_positions(
    jobs: Seq<JobView>,
    order: Seq<usize>,
    status: Option<JobStatus>,
    limit: int,
) -> Seq<usize>
    decreases order.len(),
{
    if order.len() == 0 || limit <= 0 {
        Seq::empty()
    } else {
        let rest = order.drop_first();
        if status is None || jobs[order[0] as int].status == status->0 {
            seq![order[0]] + listed_positions(jobs, rest, status, limit - 1)
        } else {
            listed_positions(jobs, rest, status, limit)
        }
    }
}

/// The jobs a listing returns: the newest with the wanted status, at most
/// `limit`; of jobs created at the same time, the one stored later comes
/// first (the table is read from its end).
pub open spec fn job_listing(jobs: Seq<JobView>, status: Option<JobStatus>, limit: int) -> Seq<JobView> {
    let rows = jobs.reverse();
    listed_positions(rows, sorted_order(list_keys(rows)), status, limit).map_values(|i: usize| rows[i as int])
}

/// Workers are listed by registration time, oldest first, ties in table
/// order.
pub open spec fn worker_keys(workers: Seq<WorkerView>) -> Seq<(i64, i64)> {
    Seq::new(workers.len(), |i: int| (0i64, workers[i].registered_at))
}

/// All workers, by registration time.
pub open spec fn worker_listing(workers: Seq<WorkerView>) -> Seq<WorkerView> {
    sorted_order(worker_keys(workers)).map_values(|i: usize| workers[i as int])
}

/// How many jobs are in this state.
pub open spec fn count_status(jobs: Seq<JobView>, st: JobStatus) -> nat
    decreases jobs.len(),
{
    if jobs.len() == 0 {
        0
    } else {
        count_status(jobs.drop_last(), st) + if jobs.last().status == st {
            1nat
        } else {
            0nat
        }
    }
}

/// How many workers are in this state.
pub open spec fn count_worker_status(workers: Seq<WorkerView>, st: WorkerStatus) -> nat
    decreases workers.len(),
{
    if workers.len() == 0 {
        0
    } else {
        count_worker_status(workers.drop_last(), st) + if workers.last().status == st {
            1nat
        } else {
            0nat
        }
    }
}

/// The metrics of a store: jobs per state and in all, workers active,
/// unavailable and in all, and leases held.
pub open spec fn metrics_of(s: StoreView, m: MetricsResponse) -> bool {
    &&& m.jobs_queued == count_status(s.jobs, JobStatus::Queued)
    &&& m.jobs_assigned == count_status(s.jobs, JobStatus::Assigned)
    &&& m.jobs_running == count_status(s.jobs, JobStatus::Running)
    &&& m.jobs_retrying == count_status(s.jobs, JobStatus::Retrying)
    &&& m.jobs_succeeded == count_status(s.jobs, JobStatus::Succeeded)
    &&& m.jobs_failed == count_status(s.jobs, JobStatus::Failed)
    &&& m.jobs_cancelled == count_status(s.jobs, JobStatus::Cancelled)
    &&& m.jobs_blocked == count_status(s.jobs, JobStatus::Blocked)
    &&& m.total_jobs == s.jobs.len()
    &&& m.workers_active == count_worker_status(s.workers, WorkerStatus::Active)
    &&& m.workers_unavailable == count_worker_status(s.workers, WorkerStatus::Unavailable)
    &&& m.workers_total == s.workers.len()
    &&& m.active_leases == s.leases.len()
}

impl Store {
    /// The newest jobs with the given status (any status when none is
    /// given), at most `limit` (see `job_listing`).
    pub fn list_jobs(&self, status: Option<JobStatus>, limit: usize) -> (r: Result<Vec<Job>, StoreError>)
        ensures
            r matches Ok(v) && v@.map_values(|j: Job| j@) == job_listing(self@.jobs, status, limit as int),
    {
        let ghost table = self@.jobs;
        let n = self.jobs.len();
        // The table read from its end.
        let ghost jobs = table.reverse();
        proof {
            if n > 0 {
                assert(jobs == Seq::new(table.len(), |i: int| table[table.len() - 1 - i]));
            } else {
                assert(jobs.len() == 0);
            }
        }
        assert(jobs.len() == n);
        assert(forall|i: int| 0 <= i < n ==> #[trigger] jobs[i] == table[n - 1 - i]);
        let mut keys: Vec<(i64, i64)> = Vec::new();
        let mut k: usize = 0;
        while k < n
            invariant
                k <= n,
                n == self.jobs@.len(),
                keys@.len() == k,
                table == self@.jobs,
                jobs.len() == n,
                forall|i: int| 0 <= i < n ==> #[trigger] jobs[i] == table[n - 1 - i],
                forall|m: int| 0 <= m < k ==> keys@[m] == list_keys(jobs)[m],
            decreases n - k,
        {
            keys.push((self.jobs[n - 1 - k].created_at, 0i64));
            k = k + 1;
        }
        proof {
            assert(keys@ =~= list_keys(jobs));
        }
        let ord = sort_rows(&keys);
        proof {
            lemma_sorted_distinct(keys@, ord@);
            assert(ord@.skip(0) =~= ord@);
        }
        let mut out: Vec<Job> = Vec::new();
        let ghost picked: Seq<usize> = Seq::empty();
        let mut t: usize = 0;
        while t < ord.len() && out.len() < limit
            invariant
                t <= ord@.len(),
                table == self@.jobs,
                n == self.jobs@.len(),
                jobs.len() == n,
                forall|i: int| 0 <= i < n ==> #[trigger] jobs[i] == table[n - 1 - i],
                out@.len() <= limit,
                picked.len() == out@.len(),
                forall|m: int| 0 <= m < ord@.len() ==> #[trigger] ord@[m] < jobs.len(),
                listed_positions(jobs, ord@, status, limit as int) == picked + listed_positions(
                    jobs,
                    ord@.skip(t as int),
                    status,
                    limit - out@.len(),
                ),
                forall|m: int| 0 <= m < out@.len() ==> #[trigger] out@[m]@ == jobs[picked[m] as int],
                forall|m: int| 0 <= m < picked.len() ==> #[trigger] picked[m] < jobs.len(),
            decreases ord@.len() - t,
        {
            let idx = ord[t];
            proof {
                assert(ord@.skip(t as int).drop_first() =~= ord@.skip(t + 1));
                assert(ord@.skip(t as int)[0] == ord@[t as int]);
            }
            let row = n - 1 - idx;
            assert(jobs[idx as int] == table[row as int]);
            let wanted = match status {
                Some(st) => self.jobs[row].status == st,
                None => true,
            };
            if wanted {
                let ghost before = picked;
                out.push(self.jobs[row].clone());
                proof {
                    picked = picked.push(idx);
                    let rest = listed_positions(jobs, ord@.skip(t + 1), status, limit - before.len() - 1);
                    assert(before + (seq![idx] + rest) =~= picked + rest);
                }
            }
            t = t + 1;
        }
        proof {
            if t == ord.len() {
                assert(ord@.skip(t as int) =~= Seq::<usize>::empty());
            }
            assert(picked + Seq::<usize>::empty() =~= picked);
            assert(out@.map_values(|j: Job| j@) =~= picked.map_values(|i: usize| jobs[i as int]));
        }
        Ok(out)
    }

    /// All workers, by registration time (see `worker_listing`).
    pub fn list_workers(&self) -> (r: Result<Vec<Worker>, StoreError>)
        ensures
            r matches Ok(v) && v@.map_values(|w: Worker| w@) == worker_listing(self@.workers),
    {
        let ghost workers = self@.workers;
        let mut keys: Vec<(i64, i64)> = Vec::new();
        let mut k: usize = 0;
        while k < self.workers.len()
            invariant
                k <= self.workers@.len(),
                keys@.len() == k,
                workers == self@.workers,
                forall|m: int| 0 <= m < k ==> keys@[m] == worker_keys(workers)[m],
            decreases self.workers@.len() - k,
        {
            keys.push((0i64, self.workers[k].registered_at));
            k = k + 1;
        }
        proof {
            assert(keys@ =~= worker_keys(workers));
        }
        let ord = sort_rows(&keys);
        proof {
            lemma_sorted_distinct(keys@, ord@);
        }
        let mut out: Vec<Worker> = Vec::new();
        let mut t: usize = 0;
        while t < ord.len()
            invariant
                t <= ord@.len(),
                workers == self@.workers,
                out@.len() == t,
                forall|m: int| 0 <= m < ord@.len() ==> #[trigger] ord@[m] < workers.len(),
                forall|m: int| 0 <= m < t ==> #[trigger] out@[m]@ == workers[ord@[m] as int],
            decreases ord@.len() - t,
        {
            out.push(self.workers[ord[t]].clone());
            t = t + 1;
        }
        proof {
            assert(out@.map_values(|w: Worker| w@) =~= ord@.map_values(|i: usize| workers[i as int]));
        }
        Ok(out)
    }

    /// How many jobs are in this state.
    fn count_jobs_in(&self, st: JobStatus) -> (r: usize)
        ensures
            r == count_status(self@.jobs, st),
    {
        let mut count: usize = 0;
        let mut k: usize = 0;
        while k < self.jobs.len()
            invariant
                k <= self.jobs@.len(),
                count <= k,
                count == count_status(self@.jobs.take(k as int), st),
            decreases self.jobs@.len() - k,
        {
            proof {
                assert(self@.jobs.take(k + 1).drop_last() =~= self@.jobs.take(k as int));
            }
            if self.jobs[k].status == st {
                count = count + 1;
            }
            k = k + 1;
        }
        proof {
            assert(self@.jobs.take(k as int) =~= self@.jobs);
        }
        count
    }

    /// How many workers are in this state.
    fn count_workers_in(&self, st: WorkerStatus) -> (r: usize)
        ensures
            r == count_worker_status(self@.workers, st),
    {
        let mut count: usize = 0;
        let mut k: usize = 0;
        while k < self.workers.len()
            invariant
                k <= self.workers@.len(),
                count <= k,
                count == count_worker_status(self@.workers.take(k as int), st),
            decreases self.workers@.len() - k,
        {
            proof {
                assert(self@.workers.take(k + 1).drop_last() =~= self@.workers.take(k as int));
            }
            if self.workers[k].status == st {
                count = count + 1;
            }
            k = k + 1;
        }
        proof {
            assert(self@.workers.take(k as int) =~= self@.workers);
        }
        count
    }

    /// Counts of jobs by state, of workers, and of leases (see `metrics_of`).
    pub fn get_metrics(&self) -> (r: Result<MetricsResponse, StoreError>)
        ensures
            r matches Ok(m) && metrics_of(self@, m),
    {
        Ok(MetricsResponse {
            jobs_queued: self.count_jobs_in(JobStatus::Queued),
            jobs_assigned: self.count_jobs_in(JobStatus::Assigned),
            jobs_running: self.count_jobs_in(JobStatus::Running),
            jobs_retrying: self.count_jobs_in(JobStatus::Retrying),
            jobs_succeeded: self.count_jobs_in(JobStatus::Succeeded),
            jobs_failed: self.count_jobs_in(JobStatus::Failed),
            jobs_cancelled: self.count_jobs_in(JobStatus::Cancelled),
            jobs_blocked: self.count_jobs_in(JobStatus::Blocked),
            total_jobs: self.jobs.len(),
            workers_active: self.count_workers_in(WorkerStatus::Active),
            workers_unavailable: self.count_workers_in(WorkerStatus::Unavailable),
            workers_total: self.workers.len(),
            active_leases: self.leases.len(),
        })
    }
}

// ---------------------------------------------------------------------------
// Building a store from its tables, and reading them back.
// ---------------------------------------------------------------------------

/// Whether no two jobs share an id.
fn jobs_keyed(v: &Vec<Job>) -> (r: bool)
    ensures
        r == job_ids_unique(v@.map_values(|j: Job| j@)),
{
    let ghost sv = v@.map_values(|j: Job| j@);
    let mut i: usize = 0;
    while i < v.len()
        invariant
            i <= v@.len(),
            sv == v@.map_values(|j: Job| j@),
            forall|a: int, b: int| 0 <= a < b < v@.len() && a < i ==> sv[a].id != sv[b].id,
        decreases v@.len() - i,
    {
        let mut j: usize = i + 1;
        while j < v.len()
            invariant
                i < j <= v@.len(),
                sv == v@.map_values(|j: Job| j@),
                forall|a: int, b: int| 0 <= a < b < v@.len() && a < i ==> sv[a].id != sv[b].id,
                forall|b: int| i < b < j ==> sv[i as int].id != sv[b].id,
            decreases v@.len() - j,
        {
            if str_eq(v[i].id.as_str(), v[j].id.as_str()) {
                assert(sv[i as int].id == sv[j as int].id);
                return false;
            }
            j = j + 1;
        }
        i = i + 1;
    }
    true
}

/// Whether no two attempts share an id.
fn attempts_keyed(v: &Vec<JobAttempt>) -> (r: bool)
    ensures
        r == attempt_ids_unique(v@.map_values(|a: JobAttempt| a@)),
{
    let ghost sv = v@.map_values(|a: JobAttempt| a@);
    let mut i: usize = 0;
    while i < v.len()
        invariant
            i <= v@.len(),
            sv == v@.map_values(|a: JobAttempt| a@),
            forall|a: int, b: int| 0 <= a < b < v@.len() && a < i ==> sv[a].id != sv[b].id,
        decreases v@.len() - i,
    {
        let mut j: usize = i + 1;
        while j < v.len()
            invariant
                i < j <= v@.len(),
                sv == v@.map_values(|a: JobAttempt| a@),
                forall|a: int, b: int| 0 <= a < b < v@.len() && a < i ==> sv[a].id != sv[b].id,
                forall|b: int| i < b < j ==> sv[i as int].id != sv[b].id,
            decreases v@.len() - j,
        {
            if str_eq(v[i].id.as_str(), v[j].id.as_str()) {
                assert(sv[i as int].id == sv[j as int].id);
                return false;
            }
            j = j + 1;
        }
        i = i + 1;
    }
    true
}

/// Whether no two workers share an id.
fn workers_keyed(v: &Vec<Worker>) -> (r: bool)
    ensures
        r == worker_ids_unique(v@.map_values(|w: Worker| w@)),
{
    let ghost sv = v@.map_values(|w: Worker| w@);
    let mut i: usize = 0;
    while i < v.len()
        invariant
            i <= v@.len(),
            sv == v@.map_values(|w: Worker| w@),
            forall|a: int, b: int| 0 <= a < b < v@.len() && a < i ==> sv[a].id != sv[b].id,
        decreases v@.len() - i,
    {
        let mut j: usize = i + 1;
        while j < v.len()
            invariant
                i < j <= v@.len(),
                sv == v@.map_values(|w: Worker| w@),
                forall|a: int, b: int| 0 <= a < b < v@.len() && a < i ==> sv[a].id != sv[b].id,
                forall|b: int| i < b < j ==> sv[i as int].id != sv[b].id,
            decreases v@.len() - j,
        {
            if str_eq(v[i].id.as_str(), v[j].id.as_str()) {
                assert(sv[i as int].id == sv[j as int].id);
                return false;
            }
            j = j + 1;
        }
        i = i + 1;
    }
    true
}

/// Whether no two leases are held for the same job.
fn leases_keyed(v: &Vec<Lease>) -> (r: bool)
    ensures
        r == lease_jobs_unique(v@.map_values(|l: Lease| l@)),
{
    let ghost sv = v@.map_values(|l: Lease| l@);
    let mut i: usize = 0;
    while i < v.len()
        invariant
            i <= v@.len(),
            sv == v@.map_values(|l: Lease| l@),
            forall|a: int, b: int| 0 <= a < b < v@.len() && a < i ==> sv[a].job_id != sv[b].job_id,
        decreases v@.len() - i,
    {
        let mut j: usize = i + 1;
        while j < v.len()
            invariant
                i < j <= v@.len(),
                sv == v@.map_values(|l: Lease| l@),
                forall|a: int, b: int| 0 <= a < b < v@.len() && a < i ==> sv[a].job_id != sv[b].job_id,
                forall|b: int| i < b < j ==> sv[i as int].job_id != sv[b].job_id,
            decreases v@.len() - j,
        {
            if str_eq(v[i].job_id.as_str(), v[j].job_id.as_str()) {
                assert(sv[i as int].job_id == sv[j as int].job_id);
                return false;
            }
            j = j + 1;
        }
        i = i + 1;
    }
    true
}

impl Store {
    /// A store holding these tables, if each is keyed (jobs, attempts and
    /// workers by id, leases by job); `None` otherwise.
    pub fn from_tables(
        jobs: Vec<Job>,
        attempts: Vec<JobAttempt>,
        workers: Vec<Worker>,
        leases: Vec<Lease>,
    ) -> (r: Option<Store>)
        ensures
            match r {
                Some(s) => {
                    &&& s@.inv()
                    &&& s@.jobs == jobs@.map_values(|j: Job| j@)
                    &&& s@.attempts == attempts@.map_values(|a: JobAttempt| a@)
                    &&& s@.workers == workers@.map_values(|w: Worker| w@)
                    &&& s@.leases == leases@.map_values(|l: Lease| l@)
                },
                None => !(StoreView {
                    jobs: jobs@.map_values(|j: Job| j@),
                    attempts: attempts@.map_values(|a: JobAttempt| a@),
                    workers: workers@.map_values(|w: Worker| w@),
                    leases: leases@.map_values(|l: Lease| l@),
                }).inv(),
            },
    {
        if jobs_keyed(&jobs) && attempts_keyed(&attempts) && workers_keyed(&workers) && leases_keyed(&leases) {
            Some(Store { jobs, attempts, workers, leases })
        } else {
            None
        }
    }

    /// The jobs, in table order.
    pub fn jobs(&self) -> (r: &Vec<Job>)
        ensures
            r@.map_values(|j: Job| j@) == self@.jobs,
    {
        &self.jobs
    }

    /// The attempts, in table order.
    pub fn attempts(&self) -> (r: &Vec<JobAttempt>)
        ensures
            r@.map_values(|a: JobAttempt| a@) == self@.attempts,
    {
        &self.attempts
    }

    /// The workers, in table order.
    pub fn workers(&self) -> (r: &Vec<Worker>)
        ensures
            r@.map_values(|w: Worker| w@) == self@.workers,
    {
        &self.workers
    }

    /// The leases, in table order.
    pub fn leases(&self) -> (r: &Vec<Lease>)
        ensures
            r@.map_values(|l: Lease| l@) == self@.leases,
    {
        &self.leases
    }
}

} // verus!
