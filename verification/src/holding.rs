//! How the leases stand to the jobs they are held for: each lease belongs to
//! a stored job that is out with the lease's worker under the lease's
//! attempt, and the operations on the store keep it so.
use vstd::prelude::*;
use crate::models::{Job, JobStatus, JobView, LeaseView, SubmitJobRequest, SubmitJobResponse, Worker};
use crate::store::{
    StoreView, StoreError, CompleteJobOutcome, cancel_happened, drop_lease, fail_dependents, unblock_dependents,
    job_index, lease_index, lease_jobs_unique, completion_attempted, is_stale,
    completed_job, renew_attempted, reap_leases_attempted, reap_state, expired_leases, lists_job,
    lease_expired, heartbeat_happened, reap_workers_attempted, upsert_worker, claim_state, claimable, assign_jobs,
    assigned_job, upsert_lease, upsert_leases, claim_leases, lemma_assign_jobs, count_status, upsert_job,
};
use crate::scheduler::{submit_happened, batch_state, submitted_job};
use crate::laws::lemma_live_leases_exact;
use vstd::set_lib::{set_int_range, lemma_int_range, lemma_map_size, lemma_len_subset};

verus! {

/// A job that is out with a worker: assigned, or running.
pub open spec fn is_out(job: JobView) -> bool {
    job.status == JobStatus::Assigned || job.status == JobStatus::Running
}

/// The lease `l` is held for `job`: the job is out with the lease's worker,
/// under the lease's attempt.
pub open spec fn holds_lease(job: JobView, l: LeaseView) -> bool {
    &&& job.id == l.job_id
    &&& is_out(job)
    &&& job.current_attempt_id == Some(l.attempt_id)
    &&& job.worker_id == Some(l.worker_id)
}

/// The lease `l` is held for one of the jobs (see `holds_lease`).
pub open spec fn held_among(jobs: Seq<JobView>, l: LeaseView) -> bool {
    exists|k: int| 0 <= k < jobs.len() && #[trigger] holds_lease(jobs[k], l)
}

/// Every lease is held for one of the stored jobs (see `holds_lease`).
pub open spec fn leases_match_jobs(s: StoreView) -> bool {
    forall|e: int| 0 <= e < s.leases.len() ==> held_among(s.jobs, #[trigger] s.leases[e])
}

/// Two leases for the same job, attempt and worker.
pub open spec fn same_holder(a: LeaseView, b: LeaseView) -> bool {
    a.job_id == b.job_id && a.attempt_id == b.attempt_id && a.worker_id == b.worker_id
}

/// `now` is `before` still out, with the same id, worker and attempt.
pub open spec fn still_out(now: JobView, before: JobView) -> bool {
    &&& now.id == before.id
    &&& is_out(now)
    &&& now.current_attempt_id == before.current_attempt_id
    &&& now.worker_id == before.worker_id
}

/// The leases stay matched when each new lease stands for an old one of a
/// job not in `touched`, and every job that was out and is not in `touched`
/// is still out in the same way at the same place.
proof fn lemma_still_matched(old: StoreView, new: StoreView, touched: Set<Seq<char>>)
    requires
        leases_match_jobs(old),
        new.jobs.len() >= old.jobs.len(),
        forall|x: LeaseView|
            #[trigger] new.leases.contains(x) ==> !touched.contains(x.job_id) && exists|y: LeaseView|
                #[trigger] old.leases.contains(y) && same_holder(x, y),
        forall|k: int|
            0 <= k < old.jobs.len() && is_out(old.jobs[k]) && !touched.contains(old.jobs[k].id) ==> still_out(
                #[trigger] new.jobs[k],
                old.jobs[k],
            ),
    ensures
        leases_match_jobs(new),
{
    assert forall|e: int| 0 <= e < new.leases.len() implies held_among(new.jobs, #[trigger] new.leases[e]) by {
        let x = new.leases[e];
        assert(new.leases.contains(x));
        let y = choose|y: LeaseView| #[trigger] old.leases.contains(y) && same_holder(x, y);
        let f = choose|f: int| 0 <= f < old.leases.len() && old.leases[f] == y;
        assert(held_among(old.jobs, old.leases[f]));
        let k = choose|k: int| 0 <= k < old.jobs.len() && #[trigger] holds_lease(old.jobs[k], old.leases[f]);
        assert(still_out(new.jobs[k], old.jobs[k]));
        assert(holds_lease(new.jobs[k], new.leases[e]));
    }
}

/// Dropping the lease of a job keeps only leases of other jobs.
proof fn lemma_drop_lease(leases: Seq<LeaseView>, job_id: Seq<char>)
    requires
        lease_jobs_unique(leases),
    ensures
        forall|x: LeaseView|
            #[trigger] drop_lease(leases, job_id).contains(x) ==> leases.contains(x) && x.job_id != job_id,
{
    let i = lease_index(leases, job_id);
    let d = drop_lease(leases, job_id);
    assert forall|x: LeaseView| #[trigger] d.contains(x) implies leases.contains(x) && x.job_id != job_id by {
        let j = choose|j: int| 0 <= j < d.len() && d[j] == x;
        if i >= 0 {
            let m = if j < i {
                j
            } else {
                j + 1
            };
            assert(leases[m] == x);
            assert(m != i);
            assert(leases[i].job_id == job_id);
        } else {
            assert(leases[j] == x);
        }
    }
}

/// A job that is out is not blocked, so no cancellation of dependents
/// touches it.
proof fn lemma_fail_dependents_keeps_out(jobs: Seq<JobView>, failed: Seq<char>)
    ensures
        fail_dependents(jobs, failed).len() == jobs.len(),
        forall|k: int| 0 <= k < jobs.len() && is_out(jobs[k]) ==> #[trigger] fail_dependents(jobs, failed)[k] == jobs[k],
{
}

/// A job that is out is not blocked, so no release of dependents touches
/// it.
proof fn lemma_unblock_dependents_keeps_out(jobs: Seq<JobView>, done: Seq<char>)
    ensures
        unblock_dependents(jobs, done).len() == jobs.len(),
        forall|k: int| 0 <= k < jobs.len() && is_out(jobs[k]) ==> #[trigger] unblock_dependents(jobs, done)[k] == jobs[k],
{
}

/// A cancellation keeps every lease held for its job.
pub proof fn law_cancel_keeps_leases_matched(
    old: StoreView,
    new: StoreView,
    r: Result<Job, StoreError>,
    now: i64,
    job_id: Seq<char>,
)
    requires
        old.inv(),
        leases_match_jobs(old),
        cancel_happened(old, new, r, now, job_id),
    ensures
        leases_match_jobs(new),
{
    let i = job_index(old.jobs, job_id);
    if i >= 0 && !old.jobs[i].status.terminal() {
        let touched = set![job_id];
        lemma_drop_lease(old.leases, old.jobs[i].id);
        let upd = old.jobs.update(i, crate::store::cancelled_job(old.jobs[i], now));
        lemma_fail_dependents_keeps_out(upd, old.jobs[i].id);
        assert forall|k: int|
            0 <= k < old.jobs.len() && is_out(old.jobs[k]) && !touched.contains(old.jobs[k].id) implies still_out(
                #[trigger] new.jobs[k],
                old.jobs[k],
            ) by {
            assert(k != i);
            assert(upd[k] == old.jobs[k]);
        }
        assert forall|x: LeaseView| #[trigger] new.leases.contains(x) implies !touched.contains(x.job_id) && exists|
            y: LeaseView,
        | #[trigger] old.leases.contains(y) && same_holder(x, y) by {
            assert(old.leases.contains(x) && same_holder(x, x));
        }
        lemma_still_matched(old, new, touched);
    }
}

/// A report of an attempt's end keeps every lease held for its job.
pub proof fn law_completion_keeps_leases_matched(
    old: StoreView,
    new: StoreView,
    r: Result<CompleteJobOutcome, StoreError>,
    now: i64,
    job_id: Seq<char>,
    attempt_id: Seq<char>,
    exit_code: i32,
    stdout: Seq<char>,
    stderr: Seq<char>,
    runtime_ms: u64,
)
    requires
        old.inv(),
        leases_match_jobs(old),
        completion_attempted(old, new, r, now, job_id, attempt_id, exit_code, stdout, stderr, runtime_ms),
    ensures
        leases_match_jobs(new),
{
    let i = job_index(old.jobs, job_id);
    if new != old {
        assert(i >= 0 && !is_stale(old.jobs[i], attempt_id));
        let job = old.jobs[i];
        let touched = set![job_id];
        lemma_drop_lease(old.leases, job.id);
        let done = JobView {
            lease_expires_at: None,
            ..completed_job(job, now, exit_code, stdout, stderr, runtime_ms)
        };
        let upd = old.jobs.update(i, done);
        lemma_fail_dependents_keeps_out(upd, job.id);
        lemma_unblock_dependents_keeps_out(upd, job.id);
        assert forall|k: int|
            0 <= k < old.jobs.len() && is_out(old.jobs[k]) && !touched.contains(old.jobs[k].id) implies still_out(
                #[trigger] new.jobs[k],
                old.jobs[k],
            ) by {
            assert(k != i);
            assert(upd[k] == old.jobs[k]);
        }
        assert forall|x: LeaseView| #[trigger] new.leases.contains(x) implies !touched.contains(x.job_id) && exists|
            y: LeaseView,
        | #[trigger] old.leases.contains(y) && same_holder(x, y) by {
            assert(old.leases.contains(x) && same_holder(x, x));
        }
        lemma_still_matched(old, new, touched);
    }
}

/// A lease renewal keeps every lease held for its job.
pub proof fn law_renewal_keeps_leases_matched(
    old: StoreView,
    new: StoreView,
    r: Result<i64, StoreError>,
    now: i64,
    job_id: Seq<char>,
    attempt_id: Seq<char>,
    duration_ms: u64,
)
    requires
        old.inv(),
        leases_match_jobs(old),
        renew_attempted(old, new, r, now, job_id, attempt_id, duration_ms),
    ensures
        leases_match_jobs(new),
{
    if new != old {
        let i = lease_index(old.leases, job_id);
        let k = job_index(old.jobs, job_id);
        let touched = Set::<Seq<char>>::empty();
        assert forall|m: int|
            0 <= m < old.jobs.len() && is_out(old.jobs[m]) && !touched.contains(old.jobs[m].id) implies still_out(
                #[trigger] new.jobs[m],
                old.jobs[m],
            ) by {}
        assert forall|x: LeaseView| #[trigger] new.leases.contains(x) implies !touched.contains(x.job_id) && exists|
            y: LeaseView,
        | #[trigger] old.leases.contains(y) && same_holder(x, y) by {
            let j = choose|j: int| 0 <= j < new.leases.len() && new.leases[j] == x;
            assert(old.leases.contains(old.leases[j]) && same_holder(x, old.leases[j]));
        }
        lemma_still_matched(old, new, touched);
    }
}

/// The expired leases are among the leases, and have expired.
proof fn lemma_expired_leases(leases: Seq<LeaseView>, now: i64)
    ensures
        forall|x: LeaseView| #[trigger] expired_leases(leases, now).contains(x) ==> leases.contains(x) && lease_expired(x, now),
    decreases leases.len(),
{
    if leases.len() > 0 {
        let p = leases.drop_last();
        lemma_expired_leases(p, now);
        let q = expired_leases(p, now);
        let big = expired_leases(leases, now);
        assert forall|x: LeaseView| #[trigger] big.contains(x) implies leases.contains(x) && lease_expired(x, now) by {
            let j = choose|j: int| 0 <= j < big.len() && big[j] == x;
            if j < q.len() {
                assert(q.contains(x));
                let m = choose|m: int| 0 <= m < p.len() && p[m] == x;
                assert(leases[m] == x);
            } else {
                assert(leases[leases.len() - 1] == x);
            }
        }
    }
}

/// Reaping the expired leases keeps every remaining lease held for its job.
pub proof fn law_reaping_keeps_leases_matched(
    old: StoreView,
    new: StoreView,
    r: Result<Vec<(Job, String)>, StoreError>,
    now: i64,
)
    requires
        old.inv(),
        leases_match_jobs(old),
        reap_leases_attempted(old, new, r, now),
    ensures
        leases_match_jobs(new),
{
    if new != old {
        let gone = expired_leases(old.leases, now);
        let touched = Set::new(|id: Seq<char>| lists_job(gone, id));
        assert(new == reap_state(old, now));
        lemma_live_leases_exact(old.leases, now);
        lemma_expired_leases(old.leases, now);
        assert forall|x: LeaseView| #[trigger] new.leases.contains(x) implies !touched.contains(x.job_id) && exists|
            y: LeaseView,
        | #[trigger] old.leases.contains(y) && same_holder(x, y) by {
            assert(old.leases.contains(x) && !lease_expired(x, now));
            if lists_job(gone, x.job_id) {
                let e = choose|e: int| 0 <= e < gone.len() && gone[e].job_id == x.job_id;
                assert(gone.contains(gone[e]));
                let f = choose|f: int| 0 <= f < old.leases.len() && old.leases[f] == gone[e];
                let g = choose|g: int| 0 <= g < old.leases.len() && old.leases[g] == x;
                assert(f == g);
            }
            assert(same_holder(x, x));
        }
        assert forall|m: int|
            0 <= m < old.jobs.len() && is_out(old.jobs[m]) && !touched.contains(old.jobs[m].id) implies still_out(
                #[trigger] new.jobs[m],
                old.jobs[m],
            ) by {}
        lemma_still_matched(old, new, touched);
    }
}

/// A heartbeat changes no job and no lease.
pub proof fn law_heartbeat_keeps_leases_matched(
    old: StoreView,
    new: StoreView,
    r: Result<bool, StoreError>,
    now: i64,
    worker_id: Seq<char>,
)
    requires
        leases_match_jobs(old),
        heartbeat_happened(old, new, r, now, worker_id),
    ensures
        leases_match_jobs(new),
{
    assert(new.jobs == old.jobs && new.leases == old.leases);
}

/// Marking silent workers unavailable changes no job and no lease.
pub proof fn law_worker_reaping_keeps_leases_matched(
    old: StoreView,
    new: StoreView,
    r: Result<Vec<String>, StoreError>,
    now: i64,
    timeout_ms: u64,
)
    requires
        leases_match_jobs(old),
        reap_workers_attempted(old, new, r, now, timeout_ms),
    ensures
        leases_match_jobs(new),
{
    assert(new.jobs == old.jobs && new.leases == old.leases);
}

/// A worker's registration changes no job and no lease.
pub proof fn law_registration_keeps_leases_matched(old: StoreView, w: Worker)
    requires
        leases_match_jobs(old),
    ensures
        leases_match_jobs(StoreView { workers: upsert_worker(old.workers, w@), ..old }),
{
}

/// Each selected job is assigned under the attempt id at its place in the
/// selection.
pub(crate) proof fn lemma_assign_jobs_selected(
    jobs: Seq<JobView>,
    sel: Seq<usize>,
    ids: Seq<Seq<char>>,
    worker: Seq<char>,
    now: i64,
    expires: i64,
)
    requires
        sel.no_duplicates(),
        forall|k: int| 0 <= k < sel.len() ==> #[trigger] sel[k] < jobs.len(),
    ensures
        forall|m: int|
            0 <= m < sel.len() ==> #[trigger] assign_jobs(jobs, sel, ids, worker, now, expires)[sel[m] as int]
                == assigned_job(jobs[sel[m] as int], worker, ids[m], now, expires),
    decreases sel.len(),
{
    if sel.len() > 0 {
        let p = sel.drop_last();
        let last = sel.last();
        assert(p.no_duplicates());
        lemma_assign_jobs_selected(jobs, p, ids, worker, now, expires);
        lemma_assign_jobs(jobs, p, ids, worker, now, expires);
        assert(!p.contains(last)) by {
            if p.contains(last) {
                let m = choose|m: int| 0 <= m < p.len() && p[m] == last;
                assert(sel[m] == sel[sel.len() - 1]);
            }
        }
        let q = assign_jobs(jobs, p, ids, worker, now, expires);
        assert(q[last as int] == jobs[last as int]);
        assert forall|m: int| 0 <= m < sel.len() implies #[trigger] assign_jobs(jobs, sel, ids, worker, now, expires)[
            sel[m] as int] == assigned_job(jobs[sel[m] as int], worker, ids[m], now, expires) by {
            if m < sel.len() - 1 {
                assert(p[m] == sel[m]);
                assert(sel[m] != last);
            }
        }
    }
}

/// Writing leases one after another leaves only the old leases and the
/// written ones.
proof fn lemma_upsert_leases_from(leases: Seq<LeaseView>, news: Seq<LeaseView>)
    ensures
        forall|x: LeaseView| #[trigger] upsert_leases(leases, news).contains(x) ==> leases.contains(x) || news.contains(x),
    decreases news.len(),
{
    if news.len() > 0 {
        let p = news.drop_last();
        lemma_upsert_leases_from(leases, p);
        let before = upsert_leases(leases, p);
        let l = news.last();
        let i = lease_index(before, l.job_id);
        assert forall|x: LeaseView| #[trigger] upsert_leases(leases, news).contains(x) implies leases.contains(x)
            || news.contains(x) by {
            let after = upsert_lease(before, l);
            let j = choose|j: int| 0 <= j < after.len() && after[j] == x;
            if x == l {
                assert(news[news.len() - 1] == x);
            } else {
                assert(before[j] == x);
                assert(before.contains(x));
                if p.contains(x) {
                    let m = choose|m: int| 0 <= m < p.len() && p[m] == x;
                    assert(news[m] == x);
                }
            }
        }
    }
}

/// A claim keeps every lease held for its job: the jobs it takes were not
/// out, and each gets the lease of its new attempt.
pub(crate) proof fn lemma_claim_keeps_leases_matched(
    old: StoreView,
    sel: Seq<usize>,
    ids: Seq<Seq<char>>,
    worker: Seq<char>,
    now: i64,
    expires: i64,
)
    requires
        leases_match_jobs(old),
        old.jobs.len() <= usize::MAX,
        sel.no_duplicates(),
        forall|k: int| 0 <= k < sel.len() ==> #[trigger] sel[k] < old.jobs.len(),
        forall|k: int| 0 <= k < sel.len() ==> claimable(#[trigger] old.jobs[sel[k] as int], now),
    ensures
        leases_match_jobs(claim_state(old, sel, ids, worker, now, expires)),
{
    let new = claim_state(old, sel, ids, worker, now, expires);
    let news = claim_leases(old, sel, ids, worker, expires);
    lemma_assign_jobs(old.jobs, sel, ids, worker, now, expires);
    lemma_assign_jobs_selected(old.jobs, sel, ids, worker, now, expires);
    lemma_upsert_leases_from(old.leases, news);
    assert forall|e: int| 0 <= e < new.leases.len() implies held_among(new.jobs, #[trigger] new.leases[e]) by {
        let x = new.leases[e];
        assert(new.leases.contains(x));
        if old.leases.contains(x) {
            let f = choose|f: int| 0 <= f < old.leases.len() && old.leases[f] == x;
            assert(held_among(old.jobs, old.leases[f]));
            let k = choose|k: int| 0 <= k < old.jobs.len() && #[trigger] holds_lease(old.jobs[k], old.leases[f]);
            assert(!sel.contains(k as usize)) by {
                if sel.contains(k as usize) {
                    let m = choose|m: int| 0 <= m < sel.len() && sel[m] == k as usize;
                    assert(sel[m] as int == k);
                    assert(claimable(old.jobs[sel[m] as int], now));
                    assert(is_out(old.jobs[k]));
                }
            }
            assert(new.jobs[k] == old.jobs[k]);
            assert(holds_lease(new.jobs[k], x));
        } else {
            let m = choose|m: int| 0 <= m < news.len() && news[m] == x;
            let k = sel[m] as int;
            assert(new.jobs[k] == assigned_job(old.jobs[k], worker, ids[m], now, expires));
            assert(holds_lease(new.jobs[k], x));
        }
    }
}

/// Writing a job (see `upsert_job`) under an id that no lease is held for
/// keeps every lease held for its job.
pub proof fn law_saving_keeps_leases_matched(old: StoreView, job: JobView)
    requires
        leases_match_jobs(old),
        forall|e: int| 0 <= e < old.leases.len() ==> (#[trigger] old.leases[e]).job_id != job.id,
    ensures
        leases_match_jobs(StoreView { jobs: upsert_job(old.jobs, job), ..old }),
{
    let new = StoreView { jobs: upsert_job(old.jobs, job), ..old };
    let touched = set![job.id];
    let i = job_index(old.jobs, job.id);
    assert forall|x: LeaseView| #[trigger] new.leases.contains(x) implies !touched.contains(x.job_id) && exists|
        y: LeaseView,
    | #[trigger] old.leases.contains(y) && same_holder(x, y) by {
        let e = choose|e: int| 0 <= e < old.leases.len() && old.leases[e] == x;
        assert(old.leases[e].job_id != job.id);
        assert(same_holder(x, x));
    }
    assert forall|k: int|
        0 <= k < old.jobs.len() && is_out(old.jobs[k]) && !touched.contains(old.jobs[k].id) implies still_out(
            #[trigger] new.jobs[k],
            old.jobs[k],
        ) by {
        if i >= 0 {
            assert(k != i);
        }
    }
    lemma_still_matched(old, new, touched);
}

/// A submission keeps every lease held for its job, unless the id it draws
/// is one that a lease is held for.
pub proof fn law_submission_keeps_leases_matched(
    old: StoreView,
    new: StoreView,
    req: SubmitJobRequest,
    r: Result<SubmitJobResponse, StoreError>,
    now: i64,
)
    requires
        leases_match_jobs(old),
        submit_happened(old, new, req, r, now),
        r matches Ok(resp) && forall|e: int| 0 <= e < old.leases.len() ==> (#[trigger] old.leases[e]).job_id
            != resp.job_id@,
    ensures
        leases_match_jobs(new),
{
    let resp = r->Ok_0;
    law_saving_keeps_leases_matched(old, submitted_job(req, resp.job_id@, now));
}

/// Submitting jobs one after another keeps every lease held for its job,
/// unless one of the ids drawn is one that a lease is held for.
pub proof fn law_batch_keeps_leases_matched(
    s: StoreView,
    reqs: Seq<SubmitJobRequest>,
    ids: Seq<Seq<char>>,
    times: Seq<i64>,
)
    requires
        leases_match_jobs(s),
        ids.len() == reqs.len(),
        times.len() == reqs.len(),
        forall|e: int, k: int|
            0 <= e < s.leases.len() && 0 <= k < ids.len() ==> #[trigger] s.leases[e].job_id != #[trigger] ids[k],
    ensures
        leases_match_jobs(batch_state(s, reqs, ids, times)),
        batch_state(s, reqs, ids, times).leases == s.leases,
    decreases reqs.len(),
{
    if reqs.len() > 0 {
        let pi = ids.drop_last();
        law_batch_keeps_leases_matched(s, reqs.drop_last(), pi, times.drop_last());
        let p = batch_state(s, reqs.drop_last(), pi, times.drop_last());
        let n = ids.len() - 1;
        assert forall|e: int| 0 <= e < p.leases.len() implies (#[trigger] p.leases[e]).job_id != ids.last() by {
            assert(s.leases[e].job_id != ids[n]);
        }
        law_saving_keeps_leases_matched(p, submitted_job(reqs.last(), ids.last(), times.last()));
    }
}

/// The positions of the jobs that are out.
pub open spec fn out_positions(jobs: Seq<JobView>) -> Set<int> {
    Set::new(|k: int| 0 <= k < jobs.len() && is_out(jobs[k]))
}

/// There are as many jobs out as assigned and running jobs together.
proof fn lemma_out_positions_len(jobs: Seq<JobView>)
    ensures
        out_positions(jobs).finite(),
        out_positions(jobs).len() == count_status(jobs, JobStatus::Assigned) + count_status(jobs, JobStatus::Running),
    decreases jobs.len(),
{
    if jobs.len() == 0 {
        assert(out_positions(jobs) =~= Set::<int>::empty());
    } else {
        let p = jobs.drop_last();
        let n = jobs.len() - 1;
        lemma_out_positions_len(p);
        assert(!out_positions(p).contains(n));
        if is_out(jobs.last()) {
            assert(out_positions(jobs) =~= out_positions(p).insert(n));
        } else {
            assert(out_positions(jobs) =~= out_positions(p));
        }
    }
}

/// The position of the job a lease is held for.
pub open spec fn holder_position(jobs: Seq<JobView>, l: LeaseView) -> int {
    choose|k: int| 0 <= k < jobs.len() && #[trigger] holds_lease(jobs[k], l)
}

/// There are never more leases than jobs assigned or running: each lease is
/// held for a job that is out, and no job holds two leases.
pub proof fn law_leases_within_jobs_out(s: StoreView)
    requires
        s.inv(),
        leases_match_jobs(s),
    ensures
        s.leases.len() <= count_status(s.jobs, JobStatus::Assigned) + count_status(s.jobs, JobStatus::Running),
{
    let x = set_int_range(0, s.leases.len() as int);
    let f = |e: int| holder_position(s.jobs, s.leases[e]);
    let y = x.map(f);
    lemma_int_range(0, s.leases.len() as int);
    assert forall|e: int| #[trigger] x.contains(e) implies {
        let k = holder_position(s.jobs, s.leases[e]);
        0 <= k < s.jobs.len() && holds_lease(s.jobs[k], s.leases[e])
    } by {
        assert(held_among(s.jobs, s.leases[e]));
    }
    assert(vstd::relations::injective_on(f, x)) by {
        assert forall|a: int, b: int| x.contains(a) && x.contains(b) && #[trigger] f(a) == #[trigger] f(b) implies a
            == b by {
            assert(s.leases[a].job_id == s.leases[b].job_id);
        }
    }
    lemma_map_size(x, y, f);
    lemma_out_positions_len(s.jobs);
    assert(y.subset_of(out_positions(s.jobs))) by {
        assert forall|k: int| #[trigger] y.contains(k) implies out_positions(s.jobs).contains(k) by {
            let e = choose|e: int| x.contains(e) && f(e) == k;
        }
    }
    lemma_len_subset(y, out_positions(s.jobs));
}

} // verus!
