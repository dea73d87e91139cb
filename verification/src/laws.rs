//! Properties of the scheduler as a whole, each proved over the spec
//! functions that the operations' contracts use: what a stale report,
//! a cancellation, a claim, a reaping pass and a heartbeat check may and may
//! not do.
use vstd::prelude::*;
use vstd::arithmetic::power::pow;
use vstd::arithmetic::power2::{pow2, lemma_pow2_unfold};
use crate::models::{LeaseView, JobStatus, JobView, Priority, ResourcesView, covers, WorkerStatus, MetricsResponse};
use crate::store::{
    backoff_ms, retrying_job, retries_left, is_stale, job_index, job_ids_unique, completion_attempted,
    completion_happened, completion_retries, CompleteJobOutcome, StoreView, StoreError, cancel_happened,
    status_of, claimable, greedy_claims, claim_selection, after_taking, lease_expired,
    live_leases, expired_leases, lists_job, reap_state, workers_reaped, mark_unavailable, heartbeat_missed,
    count_status, metrics_of, claim_happened, claimed_with, ids_fresh, count_attempts, lease_jobs_unique, drop_lease,
    lease_index, deps_succeeded, completion_state, cancellation_state, heartbeat_happened, worker_index,
    renew_happened, reaped_job, leases_of_worker,
};
use crate::models::{Job, JobAttempt};
use crate::holding::{is_out, lemma_assign_jobs_selected};
use crate::sorting::lemma_sorted_order;
use crate::store::{claim_keys, claim_order, lemma_sorted_distinct, lemma_greedy_within, lemma_assign_jobs, upsert_job};

verus! {

/// The wait before retry number `n` is 2^n seconds.
pub proof fn law_backoff_doubles(n: nat)
    ensures
        backoff_ms(n) == 1000 * pow2(n),
    decreases n,
{
    if n == 0 {
        reveal(pow);
        assert(pow2(0) == 1) by {
            reveal(pow);
        }
    } else {
        law_backoff_doubles((n - 1) as nat);
        lemma_pow2_unfold(n);
    }
}

/// A job put back for a retry counts one more retry and may not be claimed
/// before 2^(its new retry count) seconds have passed.
pub proof fn law_retry_waits_exponentially(job: JobView, now: i64)
    requires
        retries_left(job),
    ensures
        retrying_job(job, now).status == JobStatus::Retrying,
        retrying_job(job, now).retry_count == job.retry_count + 1,
        retrying_job(job, now).next_retry_at == Some(
            (now + 1000 * pow2(retrying_job(job, now).retry_count as nat)) as i64,
        ),
{
    law_backoff_doubles((job.retry_count + 1) as nat);
}

/// A report for a stale attempt (the job is finished or cancelled, or the
/// attempt is not its current one) is answered as ignored and changes
/// nothing.
pub proof fn law_stale_report_ignored(
    old: StoreView,
    new: StoreView,
    r: Result<CompleteJobOutcome, StoreError>,
    now: i64,
    job_id: Seq<char>,
    attempt_id: Seq<char>,
    exit_code: i32,
    stdout: Seq<char>,
    stderr: Seq<char>,
    runtime_ms: u64,
)
    requires
        completion_attempted(old, new, r, now, job_id, attempt_id, exit_code, stdout, stderr, runtime_ms),
        job_index(old.jobs, job_id) >= 0,
        is_stale(old.jobs[job_index(old.jobs, job_id)], attempt_id),
    ensures
        r matches Ok(CompleteJobOutcome::StaleAttemptIgnored),
        new == old,
{
    assert(!completion_retries(old, job_id, attempt_id, exit_code));
    assert(completion_happened(old, new, r, now, job_id, attempt_id, exit_code, stdout, stderr, runtime_ms));
}

/// Two job lists whose ids agree position by position, with no id twice,
/// find every id at the same position.
proof fn lemma_same_ids_same_index(a: Seq<JobView>, b: Seq<JobView>, id: Seq<char>)
    requires
        a.len() == b.len(),
        forall|k: int| 0 <= k < a.len() ==> #[trigger] a[k].id == b[k].id,
        job_ids_unique(a),
    ensures
        job_ids_unique(b),
        job_index(a, id) == job_index(b, id),
{
    assert forall|x: int, y: int| 0 <= x < y < b.len() implies b[x].id != b[y].id by {
        assert(a[x].id == b[x].id);
        assert(a[y].id == b[y].id);
    }
    let i = job_index(a, id);
    if i >= 0 {
        assert(a[i].id == id);
        assert(b[i].id == id);
        let j = job_index(b, id);
        assert(b[j].id == id);
        assert(a[j].id == id);
    } else {
        if exists|k: int| 0 <= k < b.len() && b[k].id == id {
            let k = choose|k: int| 0 <= k < b.len() && b[k].id == id;
            assert(a[k].id == id);
        }
    }
}

/// Once a job is cancelled, a later report of any of its attempts (the one
/// that was running included) is ignored: the job stays cancelled, or in the
/// final state it had already reached.
pub proof fn law_cancelled_job_stays_cancelled(
    s0: StoreView,
    s1: StoreView,
    cancelled: Result<Job, StoreError>,
    t1: i64,
    job_id: Seq<char>,
    s2: StoreView,
    reported: Result<CompleteJobOutcome, StoreError>,
    t2: i64,
    attempt_id: Seq<char>,
    exit_code: i32,
    stdout: Seq<char>,
    stderr: Seq<char>,
    runtime_ms: u64,
)
    requires
        s0.inv(),
        cancel_happened(s0, s1, cancelled, t1, job_id),
        cancelled is Ok,
        completion_attempted(s1, s2, reported, t2, job_id, attempt_id, exit_code, stdout, stderr, runtime_ms),
    ensures
        reported matches Ok(CompleteJobOutcome::StaleAttemptIgnored),
        s2 == s1,
        status_of(s2.jobs, job_id) == Some(
            if s0.jobs[job_index(s0.jobs, job_id)].status.terminal() {
                s0.jobs[job_index(s0.jobs, job_id)].status
            } else {
                JobStatus::Cancelled
            },
        ),
{
    let i = job_index(s0.jobs, job_id);
    assert(i >= 0);
    assert(s0.jobs[i].id == job_id);
    if !s0.jobs[i].status.terminal() {
        lemma_same_ids_same_index(s0.jobs, s1.jobs, job_id);
        assert(s1.jobs[i].status == JobStatus::Cancelled);
    }
    assert(job_index(s1.jobs, job_id) == i);
    law_stale_report_ignored(s1, s2, reported, t2, job_id, attempt_id, exit_code, stdout, stderr, runtime_ms);
}

/// The CPUs the jobs at `sel` need together.
pub open spec fn cpus_needed(jobs: Seq<JobView>, sel: Seq<usize>) -> int
    decreases sel.len(),
{
    if sel.len() == 0 {
        0
    } else {
        jobs[sel[0] as int].resources.cpus + cpus_needed(jobs, sel.drop_first())
    }
}

/// The memory the jobs at `sel` need together.
pub open spec fn memory_needed(jobs: Seq<JobView>, sel: Seq<usize>) -> int
    decreases sel.len(),
{
    if sel.len() == 0 {
        0
    } else {
        jobs[sel[0] as int].resources.memory_mb + memory_needed(jobs, sel.drop_first())
    }
}

/// Every label a need asks for is offered, with the same value.
pub open spec fn labels_fit(offered: Map<Seq<char>, Seq<char>>, needed: Map<Seq<char>, Seq<char>>) -> bool {
    forall|k: Seq<char>| #[trigger] needed.contains_key(k) ==> offered.contains_key(k) && offered[k] == needed[k]
}

/// The greedy walk takes only claimable jobs whose labels the offer has, at
/// most `max_jobs` of them, and never more CPUs or memory than offered.
proof fn lemma_greedy_fits(jobs: Seq<JobView>, order: Seq<usize>, now: i64, offer: ResourcesView, max_jobs: int)
    ensures
        ({
            let g = greedy_claims(jobs, order, now, offer, max_jobs);
            &&& g.len() <= if max_jobs < 0 {
                0
            } else {
                max_jobs
            }
            &&& forall|k: int|
                0 <= k < g.len() ==> claimable(#[trigger] jobs[g[k] as int], now) && labels_fit(
                    offer.labels,
                    jobs[g[k] as int].resources.labels,
                )
            &&& cpus_needed(jobs, g) <= offer.cpus
            &&& memory_needed(jobs, g) <= offer.memory_mb
        }),
    decreases order.len(),
{
    let g = greedy_claims(jobs, order, now, offer, max_jobs);
    if order.len() == 0 || max_jobs <= 0 {
        assert(g.len() == 0);
    } else {
        let rest = order.drop_first();
        let job = jobs[order[0] as int];
        if claimable(job, now) && covers(offer, job.resources) {
            let after = after_taking(offer, job.resources);
            lemma_greedy_fits(jobs, rest, now, after, max_jobs - 1);
            let g1 = greedy_claims(jobs, rest, now, after, max_jobs - 1);
            assert(g == seq![order[0]] + g1);
            assert(g.drop_first() =~= g1);
            assert(g[0] == order[0]);
            assert(after.labels == offer.labels);
            assert forall|k: int| 0 <= k < g.len() implies claimable(#[trigger] jobs[g[k] as int], now) && labels_fit(
                offer.labels,
                jobs[g[k] as int].resources.labels,
            ) by {
                if k > 0 {
                    assert(g[k] == g1[k - 1]);
                }
            }
        } else {
            lemma_greedy_fits(jobs, rest, now, offer, max_jobs);
        }
    }
}

/// A claim stays within what the worker offers: it takes at most
/// `max_jobs` jobs, only jobs that are claimable at that time and whose
/// required labels the worker has, and in all no more CPUs or memory than
/// the worker has free.
pub proof fn law_claim_fits_offer(jobs: Seq<JobView>, now: i64, offer: ResourcesView, max_jobs: int)
    ensures
        ({
            let sel = claim_selection(jobs, now, offer, max_jobs);
            &&& sel.len() <= if max_jobs < 0 {
                0
            } else {
                max_jobs
            }
            &&& forall|k: int|
                0 <= k < sel.len() ==> claimable(#[trigger] jobs[sel[k] as int], now) && labels_fit(
                    offer.labels,
                    jobs[sel[k] as int].resources.labels,
                )
            &&& cpus_needed(jobs, sel) <= offer.cpus
            &&& memory_needed(jobs, sel) <= offer.memory_mb
        }),
{
    lemma_greedy_fits(jobs, crate::store::claim_order(jobs, now), now, offer, max_jobs);
}

/// The leases kept by reaping are exactly those not expired.
pub(crate) proof fn lemma_live_leases_exact(leases: Seq<LeaseView>, now: i64)
    ensures
        forall|l: LeaseView|
            #[trigger] live_leases(leases, now).contains(l) <==> leases.contains(l) && !lease_expired(l, now),
    decreases leases.len(),
{
    if leases.len() > 0 {
        let p = leases.drop_last();
        let last = leases.last();
        lemma_live_leases_exact(p, now);
        let q = live_leases(p, now);
        let big = live_leases(leases, now);
        assert(big == if !lease_expired(last, now) {
            q.push(last)
        } else {
            q
        });
        assert forall|l: LeaseView| #[trigger] big.contains(l) implies leases.contains(l) && !lease_expired(l, now) by {
            if q.contains(l) {
                let j = choose|j: int| 0 <= j < p.len() && p[j] == l;
                assert(leases[j] == l);
            } else {
                let j = choose|j: int| 0 <= j < big.len() && big[j] == l;
                assert(j == q.len());
                assert(leases[leases.len() - 1] == l);
            }
        }
        assert forall|l: LeaseView| leases.contains(l) && !lease_expired(l, now) implies #[trigger] big.contains(l) by {
            let j = choose|j: int| 0 <= j < leases.len() && leases[j] == l;
            if j < leases.len() - 1 {
                assert(p[j] == l);
                assert(q.contains(l));
                let m = choose|m: int| 0 <= m < q.len() && q[m] == l;
                assert(big[m] == l);
            } else {
                assert(l == last);
                assert(big[q.len() as int] == l);
            }
        }
    }
}

/// After reaping at `now`, no lease that expired before `now` is left, and
/// every lease that had not expired is still there.
pub proof fn law_reaping_clears_expired_leases(s: StoreView, now: i64)
    ensures
        forall|l: LeaseView|
            #[trigger] reap_state(s, now).leases.contains(l) <==> s.leases.contains(l) && !lease_expired(l, now),
{
    lemma_live_leases_exact(s.leases, now);
}

/// A second reaping pass at the same clock reading changes nothing: the
/// first pass left no expired lease behind.
pub proof fn law_reaping_twice_is_reaping_once(s: StoreView, now: i64)
    ensures
        reap_state(reap_state(s, now), now) == reap_state(s, now),
{
    let once = reap_state(s, now);
    lemma_live_leases_none_expired(s.leases, now);
    lemma_live_leases_again(s.leases, now);
    let gone = expired_leases(once.leases, now);
    assert(gone.len() == 0);
    let twice = reap_state(once, now);
    assert forall|i: int| 0 <= i < once.workers.len() implies leases_of_worker(gone, #[trigger] once.workers[i].id)
        == 0 by {}
    assert(twice.jobs =~= once.jobs);
    assert(twice.attempts =~= once.attempts);
    assert(twice.workers =~= once.workers);
    assert(twice.leases =~= once.leases);
}

/// No lease still running at `now` has expired at `now`.
proof fn lemma_live_leases_none_expired(leases: Seq<LeaseView>, now: i64)
    ensures
        expired_leases(live_leases(leases, now), now).len() == 0,
    decreases leases.len(),
{
    if leases.len() > 0 {
        lemma_live_leases_none_expired(leases.drop_last(), now);
        let p = live_leases(leases.drop_last(), now);
        if !lease_expired(leases.last(), now) {
            assert(p.push(leases.last()).drop_last() =~= p);
        }
    }
}

/// Keeping the running leases twice keeps the same leases as once.
proof fn lemma_live_leases_again(leases: Seq<LeaseView>, now: i64)
    ensures
        live_leases(live_leases(leases, now), now) == live_leases(leases, now),
    decreases leases.len(),
{
    if leases.len() > 0 {
        lemma_live_leases_again(leases.drop_last(), now);
        let p = live_leases(leases.drop_last(), now);
        if !lease_expired(leases.last(), now) {
            assert(p.push(leases.last()).drop_last() =~= p);
        }
    }
}

/// A job whose lease expired is never left assigned by reaping: it waits
/// for a retry (one more retry counted) when it has retries left, and has
/// failed for good otherwise; either way it is freed from its worker and
/// attempt. Jobs without an expired lease are left as they were.
pub proof fn law_reaped_jobs_retry_or_fail(s: StoreView, now: i64)
    ensures
        forall|i: int|
            0 <= i < s.jobs.len() ==> {
                let job = s.jobs[i];
                let after = #[trigger] reap_state(s, now).jobs[i];
                if lists_job(expired_leases(s.leases, now), job.id) {
                    &&& after.worker_id is None
                    &&& after.current_attempt_id is None
                    &&& if retries_left(job) {
                        after.status == JobStatus::Retrying && after.retry_count == job.retry_count + 1
                    } else {
                        after.status == JobStatus::Failed
                    }
                } else {
                    after == job
                }
            },
{
}

/// After the heartbeat check with cutoff `cutoff`, no worker that is still
/// marked active has been silent since before the cutoff, and the workers
/// marked unavailable are exactly the active ones that were silent.
pub proof fn law_silent_workers_marked_unavailable(
    old: StoreView,
    new: StoreView,
    r: Result<Vec<String>, StoreError>,
    cutoff: int,
)
    requires
        workers_reaped(old, new, r, cutoff),
    ensures
        new.workers.len() == old.workers.len(),
        forall|i: int|
            0 <= i < new.workers.len() ==> (#[trigger] new.workers[i]).status == WorkerStatus::Active
                ==> new.workers[i].last_heartbeat >= cutoff,
        forall|i: int|
            0 <= i < new.workers.len() ==> ((#[trigger] new.workers[i]).status != old.workers[i].status
                <==> heartbeat_missed(old.workers[i], cutoff)),
{
}

/// The number of jobs in each of the eight states adds up to the number of
/// jobs.
proof fn lemma_counts_add_up(jobs: Seq<JobView>)
    ensures
        count_status(jobs, JobStatus::Queued) + count_status(jobs, JobStatus::Assigned) + count_status(
            jobs,
            JobStatus::Running,
        ) + count_status(jobs, JobStatus::Retrying) + count_status(jobs, JobStatus::Succeeded) + count_status(
            jobs,
            JobStatus::Failed,
        ) + count_status(jobs, JobStatus::Cancelled) + count_status(jobs, JobStatus::Blocked) == jobs.len(),
    decreases jobs.len(),
{
    if jobs.len() > 0 {
        lemma_counts_add_up(jobs.drop_last());
    }
}

/// The metrics account for every job exactly once: the counts per state
/// add up to the total.
pub proof fn law_metrics_account_for_every_job(s: StoreView, m: MetricsResponse)
    requires
        metrics_of(s, m),
    ensures
        m.jobs_queued + m.jobs_assigned + m.jobs_running + m.jobs_retrying + m.jobs_succeeded + m.jobs_failed
            + m.jobs_cancelled + m.jobs_blocked == m.total_jobs,
{
    lemma_counts_add_up(s.jobs);
}

/// A status is read back from the name it is written under, and from no
/// other; a priority from the name it is shown under, and from no other, and
/// from the number it is stored as.
pub proof fn law_names_read_back(st: JobStatus, p: Priority)
    ensures
        JobStatus::from_name(st.name()) == Some(st),
        forall|x: Seq<char>| JobStatus::from_name(x) == Some(st) ==> x == st.name(),
        Priority::from_name(p.display_name()) == Some(p),
        forall|x: Seq<char>| Priority::from_name(x) == Some(p) ==> x == p.display_name(),
        Priority::from_value(p.value() as i32) == p,
{
    reveal_strlit("low");
    reveal_strlit("normal");
    reveal_strlit("high");
    reveal_strlit("critical");
    assert("normal"@[0] != "low"@[0]);
    assert("high"@[0] != "low"@[0]);
    assert("high"@[0] != "normal"@[0]);
    assert("critical"@[0] != "low"@[0]);
    assert("critical"@[0] != "normal"@[0]);
    assert("critical"@[0] != "high"@[0]);
    reveal_strlit("QUEUED");
    reveal_strlit("ASSIGNED");
    reveal_strlit("RUNNING");
    reveal_strlit("RETRYING");
    reveal_strlit("SUCCEEDED");
    reveal_strlit("FAILED");
    reveal_strlit("CANCELLED");
    reveal_strlit("BLOCKED");
    match st {
        JobStatus::Queued => {},
        JobStatus::Assigned => {
            assert("ASSIGNED"@[0] != "QUEUED"@[0]);
        },
        JobStatus::Running => {
            assert("RUNNING"@[0] != "QUEUED"@[0]);
            assert("RUNNING"@[0] != "ASSIGNED"@[0]);
        },
        JobStatus::Retrying => {
            assert("RETRYING"@[0] != "QUEUED"@[0]);
            assert("RETRYING"@[0] != "ASSIGNED"@[0]);
            assert("RETRYING"@[1] != "RUNNING"@[1]);
        },
        JobStatus::Succeeded => {
            assert("SUCCEEDED"@[0] != "QUEUED"@[0]);
            assert("SUCCEEDED"@[0] != "ASSIGNED"@[0]);
            assert("SUCCEEDED"@[0] != "RUNNING"@[0]);
            assert("SUCCEEDED"@[0] != "RETRYING"@[0]);
        },
        JobStatus::Failed => {
            assert("FAILED"@[0] != "QUEUED"@[0]);
            assert("FAILED"@[0] != "ASSIGNED"@[0]);
            assert("FAILED"@[0] != "RUNNING"@[0]);
            assert("FAILED"@[0] != "RETRYING"@[0]);
            assert("FAILED"@[0] != "SUCCEEDED"@[0]);
        },
        JobStatus::Cancelled => {
            assert("CANCELLED"@[0] != "QUEUED"@[0]);
            assert("CANCELLED"@[0] != "ASSIGNED"@[0]);
            assert("CANCELLED"@[0] != "RUNNING"@[0]);
            assert("CANCELLED"@[0] != "RETRYING"@[0]);
            assert("CANCELLED"@[0] != "SUCCEEDED"@[0]);
            assert("CANCELLED"@[0] != "FAILED"@[0]);
        },
        JobStatus::Blocked => {
            assert("BLOCKED"@[0] != "QUEUED"@[0]);
            assert("BLOCKED"@[0] != "ASSIGNED"@[0]);
            assert("BLOCKED"@[0] != "RUNNING"@[0]);
            assert("BLOCKED"@[0] != "RETRYING"@[0]);
            assert("BLOCKED"@[0] != "SUCCEEDED"@[0]);
            assert("BLOCKED"@[0] != "FAILED"@[0]);
            assert("BLOCKED"@[0] != "CANCELLED"@[0]);
        },
    }
}

/// Priority aging: a job that has waited more than two minutes per point of
/// priority it is behind outranks a job of higher priority that has just
/// arrived.
pub proof fn law_waiting_outranks_priority(low: Priority, high: Priority, created: i64, arrived: i64, now: i64)
    requires
        now > created,
        arrived >= now,
        (now - created) / 1000 > 120 * (high.value() - low.value()),
    ensures
        low.aging_score(created, now) > high.aging_score(arrived, now),
{
}

/// The jobs a claim selects are distinct jobs of the table.
proof fn lemma_claim_selection_valid(jobs: Seq<JobView>, now: i64, offer: ResourcesView, max_jobs: int)
    requires
        jobs.len() <= usize::MAX,
    ensures
        claim_selection(jobs, now, offer, max_jobs).no_duplicates(),
        forall|k: int|
            0 <= k < claim_selection(jobs, now, offer, max_jobs).len() ==> #[trigger] claim_selection(
                jobs,
                now,
                offer,
                max_jobs,
            )[k] < jobs.len(),
{
    let keys = claim_keys(jobs, now);
    let ord = claim_order(jobs, now);
    lemma_sorted_order(keys);
    lemma_sorted_distinct(keys, ord);
    lemma_greedy_within(jobs, ord, now, offer, max_jobs);
    let sel = claim_selection(jobs, now, offer, max_jobs);
    assert forall|k: int| 0 <= k < sel.len() implies #[trigger] sel[k] < jobs.len() by {
        assert(ord.contains(sel[k]));
    }
}

/// Saving a job leaves exactly one job with its id: the saved job, but for
/// its creation time, which a job stored earlier under that id keeps. Saving
/// it once more changes nothing.
pub proof fn law_saving_replaces_in_place(jobs: Seq<JobView>, job: JobView)
    requires
        job_ids_unique(jobs),
    ensures
        ({
            let after = upsert_job(jobs, job);
            let before = job_index(jobs, job.id);
            let i = job_index(after, job.id);
            &&& job_ids_unique(after)
            &&& 0 <= i < after.len()
            &&& forall|k: int| 0 <= k < after.len() && after[k].id == job.id ==> k == i
            &&& after[i] == (JobView {
                created_at: if before >= 0 {
                    jobs[before].created_at
                } else {
                    job.created_at
                },
                ..job
            })
            &&& upsert_job(after, job) == after
        }),
{
    let after = upsert_job(jobs, job);
    let before = job_index(jobs, job.id);
    if before >= 0 {
        assert(after[before].id == job.id);
    } else {
        assert(after[jobs.len() as int].id == job.id);
    }
    let i = job_index(after, job.id);
    assert(job_ids_unique(after));
    assert(upsert_job(after, job) =~= after);
}

/// A job that is out with a worker, assigned or running, is taken by no
/// claim.
pub proof fn law_claims_skip_jobs_out(s: StoreView, id: Seq<char>, now: i64, offer: ResourcesView, max_jobs: int)
    requires
        s.inv(),
        s.jobs.len() <= usize::MAX,
        exists|i: int| 0 <= i < s.jobs.len() && s.jobs[i].id == id && is_out(#[trigger] s.jobs[i]),
    ensures
        forall|k: int|
            0 <= k < claim_selection(s.jobs, now, offer, max_jobs).len() ==> s.jobs[#[trigger] claim_selection(
                s.jobs,
                now,
                offer,
                max_jobs,
            )[k] as int].id != id,
{
    let sel = claim_selection(s.jobs, now, offer, max_jobs);
    lemma_claim_selection_valid(s.jobs, now, offer, max_jobs);
    law_claim_fits_offer(s.jobs, now, offer, max_jobs);
    let i = choose|i: int| 0 <= i < s.jobs.len() && s.jobs[i].id == id && is_out(#[trigger] s.jobs[i]);
    assert forall|k: int| 0 <= k < sel.len() implies s.jobs[#[trigger] sel[k] as int].id != id by {
        assert(claimable(s.jobs[sel[k] as int], now));
        if s.jobs[sel[k] as int].id == id {
            assert(sel[k] as int == i);
        }
    }
}

/// A job a claim hands out is claimed by no later claim until it is
/// requeued: the claim leaves it stored as handed out, assigned to the
/// claiming worker, and while it stays assigned or running no claim takes
/// it (see `law_claims_skip_jobs_out`).
pub proof fn law_claimed_jobs_stay_out(
    old: StoreView,
    new: StoreView,
    r: Result<Vec<(Job, JobAttempt)>, StoreError>,
    now: i64,
    worker: Seq<char>,
    offer: ResourcesView,
    max_jobs: int,
    expires: i64,
)
    requires
        old.jobs.len() <= usize::MAX,
        claim_happened(old, new, r, now, worker, offer, max_jobs, expires),
        r is Ok,
    ensures
        r matches Ok(v) && forall|k: int|
            0 <= k < v@.len() ==> {
                &&& (#[trigger] v@[k]).0@.status == JobStatus::Assigned
                &&& v@[k].0@.worker_id == Some(worker)
                &&& exists|i: int| 0 <= i < new.jobs.len() && new.jobs[i] == v@[k].0@
            },
{
    let v = r->Ok_0;
    let sel = claim_selection(old.jobs, now, offer, max_jobs);
    let ids = choose|ids: Seq<Seq<char>>|
        {
            &&& ids.len() == claim_selection(old.jobs, now, offer, max_jobs).len()
            &&& forall|k: int| 0 <= k < ids.len() ==> crate::store::is_attempt_id(#[trigger] ids[k])
            &&& #[trigger] claimed_with(old, new, r, now, worker, offer, max_jobs, expires, ids)
        };
    assert(ids_fresh(old.attempts, ids, sel.len() as int));
    let taken = ids.take(sel.len() as int);
    lemma_claim_selection_valid(old.jobs, now, offer, max_jobs);
    lemma_assign_jobs(old.jobs, sel, taken, worker, now, expires);
    lemma_assign_jobs_selected(old.jobs, sel, taken, worker, now, expires);
    assert forall|k: int| 0 <= k < v@.len() implies {
        &&& (#[trigger] v@[k]).0@.status == JobStatus::Assigned
        &&& v@[k].0@.worker_id == Some(worker)
        &&& exists|i: int| 0 <= i < new.jobs.len() && new.jobs[i] == v@[k].0@
    } by {
        assert(taken[k] == ids[k]);
        assert(new.jobs[sel[k] as int] == v@[k].0@);
    }
}

/// Every job a claim hands out is assigned to the claiming worker under a
/// new attempt: an attempt of that job, numbered one past the job's earlier
/// attempts, whose id no earlier attempt had and no other attempt of the
/// same claim has.
pub proof fn law_claim_starts_new_attempts(
    old: StoreView,
    new: StoreView,
    r: Result<Vec<(Job, JobAttempt)>, StoreError>,
    now: i64,
    worker: Seq<char>,
    offer: ResourcesView,
    max_jobs: int,
    expires: i64,
)
    requires
        claim_happened(old, new, r, now, worker, offer, max_jobs, expires),
        r is Ok,
    ensures
        r matches Ok(v) && forall|k: int|
            0 <= k < v@.len() ==> {
                let job = (#[trigger] v@[k]).0@;
                let attempt = v@[k].1@;
                &&& job.status == JobStatus::Assigned
                &&& job.worker_id == Some(worker)
                &&& job.current_attempt_id == Some(attempt.id)
                &&& attempt.job_id == job.id
                &&& attempt.worker_id == worker
                &&& attempt.attempt_number == (count_attempts(old.attempts, job.id) + 1) as u32
                &&& forall|j: int| 0 <= j < old.attempts.len() ==> old.attempts[j].id != attempt.id
                &&& forall|j: int| 0 <= j < k ==> v@[j].1@.id != attempt.id
            },
{
    let v = r->Ok_0;
    let sel = claim_selection(old.jobs, now, offer, max_jobs);
    let ids = choose|ids: Seq<Seq<char>>|
        {
            &&& ids.len() == claim_selection(old.jobs, now, offer, max_jobs).len()
            &&& forall|k: int| 0 <= k < ids.len() ==> crate::store::is_attempt_id(#[trigger] ids[k])
            &&& #[trigger] claimed_with(old, new, r, now, worker, offer, max_jobs, expires, ids)
        };
    assert(ids_fresh(old.attempts, ids, sel.len() as int));
    assert forall|k: int| 0 <= k < v@.len() implies {
        let job = (#[trigger] v@[k]).0@;
        let attempt = v@[k].1@;
        &&& job.status == JobStatus::Assigned
        &&& job.worker_id == Some(worker)
        &&& job.current_attempt_id == Some(attempt.id)
        &&& attempt.job_id == job.id
        &&& attempt.worker_id == worker
        &&& attempt.attempt_number == (count_attempts(old.attempts, job.id) + 1) as u32
        &&& forall|j: int| 0 <= j < old.attempts.len() ==> old.attempts[j].id != attempt.id
        &&& forall|j: int| 0 <= j < k ==> v@[j].1@.id != attempt.id
    } by {
        assert(v@[k].1@.id == ids[k]);
        assert(crate::store::attempt_index(old.attempts, ids[k]) == -1);
        assert forall|j: int| 0 <= j < old.attempts.len() implies old.attempts[j].id != v@[k].1@.id by {
            if old.attempts[j].id == ids[k] {
                assert(exists|i: int| 0 <= i < old.attempts.len() && old.attempts[i].id == ids[k]);
            }
        }
        assert forall|j: int| 0 <= j < k implies v@[j].1@.id != v@[k].1@.id by {
            assert(v@[j].1@.id == ids[j]);
        }
    }
}

/// Two job lists that agree except that blocked jobs may have been queued
/// or cancelled keep every job that succeeded where it was.
proof fn lemma_succeeded_kept(a: Seq<JobView>, b: Seq<JobView>, deps: Seq<Seq<char>>)
    requires
        job_ids_unique(a),
        a.len() == b.len(),
        forall|k: int|
            0 <= k < a.len() ==> #[trigger] b[k] == a[k] || (a[k].status == JobStatus::Blocked && b[k].id
                == a[k].id),
        deps_succeeded(a, deps),
    ensures
        deps_succeeded(b, deps),
{
    assert forall|k: int| 0 <= k < a.len() implies #[trigger] a[k].id == b[k].id by {
        assert(b[k] == a[k] || b[k].id == a[k].id);
    }
    assert forall|d: int| 0 <= d < deps.len() implies status_of(b, #[trigger] deps[d]) == Some(
        JobStatus::Succeeded,
    ) by {
        lemma_same_ids_same_index(a, b, deps[d]);
        let k = job_index(a, deps[d]);
        assert(status_of(a, deps[d]) == Some(JobStatus::Succeeded));
        assert(a[k].status == JobStatus::Succeeded);
        assert(b[k] == a[k]);
    }
}

/// A blocked job leaves the blocked state on a report about another job
/// only because of that job: it is queued when that job succeeded and every
/// job it depends on has succeeded, and it is cancelled when that job failed
/// for good.
pub proof fn law_blocked_jobs_wait_for_their_dependencies(
    old: StoreView,
    new: StoreView,
    r: Result<CompleteJobOutcome, StoreError>,
    now: i64,
    job_id: Seq<char>,
    attempt_id: Seq<char>,
    exit_code: i32,
    stdout: Seq<char>,
    stderr: Seq<char>,
    runtime_ms: u64,
)
    requires
        old.inv(),
        completion_attempted(old, new, r, now, job_id, attempt_id, exit_code, stdout, stderr, runtime_ms),
    ensures
        new.jobs.len() == old.jobs.len(),
        forall|x: int|
            0 <= x < old.jobs.len() && old.jobs[x].status == JobStatus::Blocked && old.jobs[x].id != job_id
                && (#[trigger] new.jobs[x]).status != JobStatus::Blocked ==> {
                &&& old.jobs[x].depends_on.contains(job_id)
                &&& new.jobs[x] == (JobView { status: new.jobs[x].status, ..old.jobs[x] })
                &&& if new.jobs[x].status == JobStatus::Queued {
                    exit_code == 0 && deps_succeeded(new.jobs, old.jobs[x].depends_on)
                } else {
                    new.jobs[x].status == JobStatus::Cancelled && exit_code != 0
                }
            },
{
    let i0 = job_index(old.jobs, job_id);
    if new != old {
        assert(i0 >= 0 && !is_stale(old.jobs[i0], attempt_id));
        assert(new == completion_state(old, i0, now, attempt_id, exit_code, stdout, stderr, runtime_ms));
        let job = old.jobs[i0];
        assert(job.id == job_id);
        let done = JobView {
            lease_expires_at: None,
            ..crate::store::completed_job(job, now, exit_code, stdout, stderr, runtime_ms)
        };
        let upd = old.jobs.update(i0, done);
        assert forall|k: int| 0 <= k < old.jobs.len() implies #[trigger] old.jobs[k].id == upd[k].id by {}
        lemma_same_ids_same_index(old.jobs, upd, job_id);
        if exit_code == 0 {
            assert forall|x: int|
                0 <= x < old.jobs.len() && old.jobs[x].status == JobStatus::Blocked && old.jobs[x].id != job_id
                    && (#[trigger] new.jobs[x]).status != JobStatus::Blocked implies {
                &&& old.jobs[x].depends_on.contains(job_id)
                &&& new.jobs[x] == (JobView { status: new.jobs[x].status, ..old.jobs[x] })
                &&& if new.jobs[x].status == JobStatus::Queued {
                    exit_code == 0 && deps_succeeded(new.jobs, old.jobs[x].depends_on)
                } else {
                    new.jobs[x].status == JobStatus::Cancelled && exit_code != 0
                }
            } by {
                assert(upd[x] == old.jobs[x]);
                assert(deps_succeeded(upd, old.jobs[x].depends_on));
                assert forall|k: int|
                    0 <= k < upd.len() implies #[trigger] new.jobs[k] == upd[k] || (upd[k].status
                    == JobStatus::Blocked && new.jobs[k].id == upd[k].id) by {}
                lemma_succeeded_kept(upd, new.jobs, old.jobs[x].depends_on);
                assert(new.jobs[x] =~= (JobView { status: new.jobs[x].status, ..old.jobs[x] }));
            }
        } else {
            assert forall|x: int|
                0 <= x < old.jobs.len() && old.jobs[x].status == JobStatus::Blocked && old.jobs[x].id != job_id
                    && (#[trigger] new.jobs[x]).status != JobStatus::Blocked implies {
                &&& old.jobs[x].depends_on.contains(job_id)
                &&& new.jobs[x] == (JobView { status: new.jobs[x].status, ..old.jobs[x] })
                &&& if new.jobs[x].status == JobStatus::Queued {
                    exit_code == 0 && deps_succeeded(new.jobs, old.jobs[x].depends_on)
                } else {
                    new.jobs[x].status == JobStatus::Cancelled && exit_code != 0
                }
            } by {
                assert(x != i0);
                assert(upd[x] == old.jobs[x]);
                assert(new.jobs[x] =~= (JobView { status: new.jobs[x].status, ..old.jobs[x] }));
            }
        }
    }
}

/// Without the lease of a job, no lease is held for it: every job holds at
/// most one.
proof fn lemma_dropped_lease_gone(leases: Seq<LeaseView>, job_id: Seq<char>)
    requires
        lease_jobs_unique(leases),
    ensures
        forall|k: int| 0 <= k < drop_lease(leases, job_id).len() ==> (#[trigger] drop_lease(leases, job_id)[k]).job_id != job_id,
{
    let i = lease_index(leases, job_id);
    if i >= 0 {
        let d = drop_lease(leases, job_id);
        assert forall|k: int| 0 <= k < d.len() implies (#[trigger] d[k]).job_id != job_id by {
            if k < i {
                assert(d[k] == leases[k]);
            } else {
                assert(d[k] == leases[k + 1]);
            }
        }
    }
}

/// A job whose current attempt reported its end holds no lease any more.
pub proof fn law_reported_job_holds_no_lease(
    old: StoreView,
    new: StoreView,
    r: Result<CompleteJobOutcome, StoreError>,
    now: i64,
    job_id: Seq<char>,
    attempt_id: Seq<char>,
    exit_code: i32,
    stdout: Seq<char>,
    stderr: Seq<char>,
    runtime_ms: u64,
)
    requires
        old.inv(),
        completion_happened(old, new, r, now, job_id, attempt_id, exit_code, stdout, stderr, runtime_ms),
        r matches Ok(o) && !(o is StaleAttemptIgnored),
    ensures
        forall|k: int| 0 <= k < new.leases.len() ==> (#[trigger] new.leases[k]).job_id != job_id,
{
    let i0 = job_index(old.jobs, job_id);
    assert(old.jobs[i0].id == job_id);
    lemma_dropped_lease_gone(old.leases, job_id);
}

/// A job that is cancelled before it finished holds no lease any more.
pub proof fn law_cancelled_job_holds_no_lease(
    old: StoreView,
    new: StoreView,
    r: Result<Job, StoreError>,
    now: i64,
    job_id: Seq<char>,
)
    requires
        old.inv(),
        cancel_happened(old, new, r, now, job_id),
        job_index(old.jobs, job_id) >= 0,
        !old.jobs[job_index(old.jobs, job_id)].status.terminal(),
    ensures
        forall|k: int| 0 <= k < new.leases.len() ==> (#[trigger] new.leases[k]).job_id != job_id,
{
    let i0 = job_index(old.jobs, job_id);
    assert(old.jobs[i0].id == job_id);
    assert(new == cancellation_state(old, i0, now));
    lemma_dropped_lease_gone(old.leases, job_id);
}

/// A worker heard from at `now` is not marked unavailable by a heartbeat
/// check whose cutoff is no later than `now`.
pub proof fn law_heard_worker_stays_active(
    s0: StoreView,
    s1: StoreView,
    heard: Result<bool, StoreError>,
    now: i64,
    worker_id: Seq<char>,
    s2: StoreView,
    reaped: Result<Vec<String>, StoreError>,
    cutoff: int,
)
    requires
        heartbeat_happened(s0, s1, heard, now, worker_id),
        worker_index(s0.workers, worker_id) >= 0,
        workers_reaped(s1, s2, reaped, cutoff),
        cutoff <= now,
    ensures
        s2.workers[worker_index(s0.workers, worker_id)].status == WorkerStatus::Active,
        s2.workers[worker_index(s0.workers, worker_id)].last_heartbeat == now,
{
}

/// A lease renewed by the attempt that holds it, until `expires`, survives
/// every reaping pass up to that time.
pub proof fn law_renewed_lease_survives_reaping(
    s0: StoreView,
    s1: StoreView,
    renewed: Result<i64, StoreError>,
    job_id: Seq<char>,
    attempt_id: Seq<char>,
    expires: i64,
    now: i64,
)
    requires
        renew_happened(s0, s1, renewed, job_id, attempt_id, expires),
        renewed is Ok,
        now <= expires,
    ensures
        exists|l: LeaseView|
            #[trigger] reap_state(s1, now).leases.contains(l) && l.job_id == job_id && l.attempt_id == attempt_id
                && l.expires_at == expires,
{
    let i = lease_index(s0.leases, job_id);
    let l = s1.leases[i];
    assert(s1.leases.contains(l));
    lemma_live_leases_exact(s1.leases, now);
    assert(reap_state(s1, now).leases.contains(l));
}

/// A job put back after its lease expired may be claimed again exactly
/// once its backoff has passed: not before `now` plus 2^(retries) seconds,
/// and from then on.
pub proof fn law_reaped_job_claimable_after_backoff(job: JobView, now: i64, later: i64)
    requires
        retries_left(job),
        now + 1000 * pow2((job.retry_count + 1) as nat) <= i64::MAX,
    ensures
        claimable(reaped_job(job, now), later) <==> later >= now + 1000 * pow2((job.retry_count + 1) as nat),
{
    law_backoff_doubles((job.retry_count + 1) as nat);
    crate::store::lemma_backoff_grows(0, (job.retry_count + 1) as nat);
}

} // verus!
