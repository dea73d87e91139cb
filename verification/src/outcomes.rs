//! What the operations give, stated over their inputs and results: a claim
//! takes the jobs with the best aging score first, a listing holds only the
//! jobs asked for, newest first, a success frees the jobs waiting for it, a
//! cancellation or a final failure cancels the jobs blocked on it, and a
//! renewal that names no length asks for the configured one.
use vstd::prelude::*;
use crate::models::{JobStatus, JobView, ResourcesView, covers};
use crate::store::{
    claimable, greedy_claims, claim_selection, claim_keys, claim_order, after_taking, lemma_sorted_distinct,
    listed_positions, list_keys, job_listing, StoreView, StoreError, CompleteJobOutcome, completion_attempted,
    cancel_happened, job_index, retries_left,
};
use crate::models::Job;
use crate::scheduler::{requested_lease_ms, submit_happened};
use crate::models::{SubmitJobRequest, SubmitJobResponse};
use crate::worker::{poll_batch, unallocated};
use crate::sorting::sorted_order;
use crate::sorting::{lemma_sorted_order, sorted_by, precedes};

verus! {

/// The aging score of the job at position `x` at `now` (see
/// `Priority::aging_score`).
pub open spec fn score_at(jobs: Seq<JobView>, x: usize, now: i64) -> int {
    jobs[x as int].priority.aging_score(jobs[x as int].created_at, now)
}

/// The job at `x` comes no later than the job at `y` in a claim at `now`: it
/// has the higher aging score, or the same score and was created no later.
pub open spec fn ranks_first(jobs: Seq<JobView>, x: usize, y: usize, now: i64) -> bool {
    ||| score_at(jobs, x, now) > score_at(jobs, y, now)
    ||| (score_at(jobs, x, now) == score_at(jobs, y, now) && jobs[x as int].created_at <= jobs[y as int].created_at)
}

/// Going through `order`, each job ranks no later than those after it (see
/// `ranks_first`).
pub open spec fn scores_descend(jobs: Seq<JobView>, order: Seq<usize>, now: i64) -> bool {
    forall|i: int, j: int| 0 <= i < j < order.len() ==> ranks_first(jobs, #[trigger] order[i], #[trigger] order[j], now)
}

/// A job that a worker offering `offer` could take at `now` on its own.
pub open spec fn takeable(job: JobView, now: i64, offer: ResourcesView) -> bool {
    claimable(job, now) && covers(offer, job.resources)
}

/// Going through an order whose scores never grow, the greedy walk takes
/// jobs whose scores never grow; the first it takes scores at least as high
/// as any job of the order it could take; and it takes one when there is one.
proof fn lemma_greedy_ranked(jobs: Seq<JobView>, order: Seq<usize>, now: i64, offer: ResourcesView, max_jobs: int)
    requires
        scores_descend(jobs, order, now),
        order.no_duplicates(),
    ensures
        ({
            let g = greedy_claims(jobs, order, now, offer, max_jobs);
            &&& scores_descend(jobs, g, now)
            &&& forall|k: int| 0 <= k < g.len() ==> #[trigger] order.contains(g[k])
            &&& g.len() > 0 ==> forall|p: int|
                0 <= p < order.len() && takeable(jobs[order[p] as int], now, offer) && order[p] != g[0] ==> ranks_first(
                    jobs,
                    g[0],
                    #[trigger] order[p],
                    now,
                )
            &&& (max_jobs > 0 && exists|p: int| 0 <= p < order.len() && #[trigger] takeable(jobs[order[p] as int], now, offer))
                ==> g.len() > 0
        }),
    decreases order.len(),
{
    if order.len() == 0 || max_jobs <= 0 {
    } else {
        let rest = order.drop_first();
        assert(rest.no_duplicates());
        assert(scores_descend(jobs, rest, now)) by {
            assert forall|i: int, j: int| 0 <= i < j < rest.len() implies ranks_first(
                jobs,
                #[trigger] rest[i],
                #[trigger] rest[j],
                now,
            ) by {
                assert(rest[i] == order[i + 1] && rest[j] == order[j + 1]);
            }
        }
        let job = jobs[order[0] as int];
        let g = greedy_claims(jobs, order, now, offer, max_jobs);
        if claimable(job, now) && covers(offer, job.resources) {
            let after = after_taking(offer, job.resources);
            lemma_greedy_ranked(jobs, rest, now, after, max_jobs - 1);
            let g1 = greedy_claims(jobs, rest, now, after, max_jobs - 1);
            assert(g == seq![order[0]] + g1);
            assert forall|k: int| 0 <= k < g.len() implies #[trigger] order.contains(g[k]) by {
                if k > 0 {
                    assert(g[k] == g1[k - 1]);
                    assert(rest.contains(g1[k - 1]));
                    let m = choose|m: int| 0 <= m < rest.len() && rest[m] == g1[k - 1];
                    assert(order[m + 1] == g[k]);
                } else {
                    assert(order[0] == g[0]);
                }
            }
            assert forall|i: int, j: int| 0 <= i < j < g.len() implies ranks_first(
                jobs,
                #[trigger] g[i],
                #[trigger] g[j],
                now,
            ) by {
                assert(g[j] == g1[j - 1]);
                if i > 0 {
                    assert(g[i] == g1[i - 1]);
                } else {
                    assert(rest.contains(g1[j - 1]));
                    let m = choose|m: int| 0 <= m < rest.len() && rest[m] == g1[j - 1];
                    assert(order[m + 1] == g1[j - 1]);
                    assert(ranks_first(jobs, order[0], order[m + 1], now));
                }
            }
            assert forall|p: int|
                0 <= p < order.len() && takeable(jobs[order[p] as int], now, offer) && order[p] != g[0] implies ranks_first(
                jobs,
                g[0],
                #[trigger] order[p],
                now,
            ) by {
                if p > 0 {
                    assert(ranks_first(jobs, order[0], order[p], now));
                }
            }
        } else {
            lemma_greedy_ranked(jobs, rest, now, offer, max_jobs);
            let g1 = greedy_claims(jobs, rest, now, offer, max_jobs);
            assert(g == g1);
            assert forall|k: int| 0 <= k < g.len() implies #[trigger] order.contains(g[k]) by {
                assert(rest.contains(g1[k]));
                let m = choose|m: int| 0 <= m < rest.len() && rest[m] == g1[k];
                assert(order[m + 1] == g[k]);
            }
            if g.len() > 0 {
                assert forall|p: int|
                    0 <= p < order.len() && takeable(jobs[order[p] as int], now, offer) && order[p] != g[0] implies ranks_first(
                    jobs,
                    g[0],
                    #[trigger] order[p],
                    now,
                ) by {
                    assert(p != 0);
                    assert(rest[p - 1] == order[p]);
                    assert(takeable(jobs[rest[p - 1] as int], now, offer));
                }
            }
            if max_jobs > 0 && exists|p: int| 0 <= p < order.len() && #[trigger] takeable(jobs[order[p] as int], now, offer) {
                let p = choose|p: int| 0 <= p < order.len() && #[trigger] takeable(jobs[order[p] as int], now, offer);
                assert(p != 0);
                assert(rest[p - 1] == order[p]);
                assert(takeable(jobs[rest[p - 1] as int], now, offer));
            }
        }
    }
}

/// The order a claim goes through has scores that never grow.
proof fn lemma_claim_order_ranked(jobs: Seq<JobView>, now: i64)
    requires
        jobs.len() <= usize::MAX,
    ensures
        scores_descend(jobs, claim_order(jobs, now), now),
        claim_order(jobs, now).no_duplicates(),
        forall|x: usize| x < jobs.len() ==> #[trigger] claim_order(jobs, now).contains(x),
{
    let keys = claim_keys(jobs, now);
    let ord = claim_order(jobs, now);
    lemma_sorted_order(keys);
    lemma_sorted_distinct(keys, ord);
    assert forall|i: int, j: int| 0 <= i < j < ord.len() implies ranks_first(
        jobs,
        #[trigger] ord[i],
        #[trigger] ord[j],
        now,
    ) by {
        assert(precedes(keys, ord[i] as int, ord[j] as int));
        assert(keys[ord[i] as int].0 == score_at(jobs, ord[i], now));
        assert(keys[ord[j] as int].0 == score_at(jobs, ord[j], now));
    }
}

/// A claim takes the jobs with the best aging score first, the older first
/// among equal scores: each job it takes ranks no later than those it takes
/// after it (see `ranks_first`); the first job it takes ranks no later than
/// any other claimable job that fits the whole offer; and it takes a job
/// whenever one is claimable and fits, unless asked for none. So a job of
/// higher priority, waiting no more than two minutes per priority step less,
/// is claimed before the other.
pub proof fn law_claim_prefers_higher_scores(jobs: Seq<JobView>, now: i64, offer: ResourcesView, max_jobs: int)
    requires
        jobs.len() <= usize::MAX,
    ensures
        ({
            let sel = claim_selection(jobs, now, offer, max_jobs);
            &&& scores_descend(jobs, sel, now)
            &&& sel.len() > 0 ==> forall|j: int|
                0 <= j < jobs.len() && #[trigger] takeable(jobs[j], now, offer) && j != sel[0] ==> {
                    let first = jobs[sel[0] as int];
                    let a = first.priority.aging_score(first.created_at, now);
                    let b = jobs[j].priority.aging_score(jobs[j].created_at, now);
                    a > b || (a == b && first.created_at <= jobs[j].created_at)
                }
            &&& (max_jobs > 0 && exists|j: int| 0 <= j < jobs.len() && #[trigger] takeable(jobs[j], now, offer)) ==> sel.len()
                > 0
        }),
{
    let ord = claim_order(jobs, now);
    let sel = claim_selection(jobs, now, offer, max_jobs);
    lemma_claim_order_ranked(jobs, now);
    lemma_greedy_ranked(jobs, ord, now, offer, max_jobs);
    assert forall|j: int| 0 <= j < jobs.len() && #[trigger] takeable(jobs[j], now, offer) implies exists|p: int|
        0 <= p < ord.len() && ord[p] == j as usize by {
        assert(ord.contains(j as usize));
    }
    if sel.len() > 0 {
        assert forall|j: int| 0 <= j < jobs.len() && #[trigger] takeable(jobs[j], now, offer) && j != sel[0] implies {
            let first = jobs[sel[0] as int];
            let a = first.priority.aging_score(first.created_at, now);
            let b = jobs[j].priority.aging_score(jobs[j].created_at, now);
            a > b || (a == b && first.created_at <= jobs[j].created_at)
        } by {
            let p = choose|p: int| 0 <= p < ord.len() && ord[p] == j as usize;
            assert(takeable(jobs[ord[p] as int], now, offer));
            assert(ranks_first(jobs, sel[0], ord[p], now));
        }
    }
    if max_jobs > 0 && exists|j: int| 0 <= j < jobs.len() && #[trigger] takeable(jobs[j], now, offer) {
        let j = choose|j: int| 0 <= j < jobs.len() && #[trigger] takeable(jobs[j], now, offer);
        let p = choose|p: int| 0 <= p < ord.len() && ord[p] == j as usize;
        assert(takeable(jobs[ord[p] as int], now, offer));
    }
}

/// Going through `order`, each row comes before those after it by the
/// listing keys of `rows` (see `list_keys` and `precedes`).
pub open spec fn newest_first(rows: Seq<JobView>, order: Seq<usize>) -> bool {
    forall|i: int, j: int|
        0 <= i < j < order.len() ==> precedes(list_keys(rows), #[trigger] order[i] as int, #[trigger] order[j] as int)
}

/// Whether a job has the status asked for (any, when none is asked for).
pub open spec fn wanted(job: JobView, status: Option<JobStatus>) -> bool {
    match status {
        Some(st) => job.status == st,
        None => true,
    }
}

/// The positions a listing walk picks come from the order, in its order;
/// each has the status asked for; there are at most `limit`; and while fewer
/// than `limit` are picked, every position of the order with that status is.
proof fn lemma_listed(rows: Seq<JobView>, order: Seq<usize>, status: Option<JobStatus>, limit: int)
    ensures
        ({
            let lp = listed_positions(rows, order, status, limit);
            &&& forall|k: int| 0 <= k < lp.len() ==> #[trigger] order.contains(lp[k])
            &&& forall|k: int| 0 <= k < lp.len() ==> wanted(rows[#[trigger] lp[k] as int], status)
            &&& lp.len() <= if limit < 0 { 0 } else { limit }
            &&& lp.len() < limit ==> forall|x: usize|
                #[trigger] order.contains(x) && wanted(rows[x as int], status) ==> lp.contains(x)
            &&& newest_first(rows, order) ==> newest_first(rows, lp)
        }),
    decreases order.len(),
{
    if order.len() == 0 || limit <= 0 {
    } else {
        let rest = order.drop_first();
        let lp = listed_positions(rows, order, status, limit);
        if newest_first(rows, order) {
            assert forall|i: int, j: int| 0 <= i < j < rest.len() implies precedes(
                list_keys(rows),
                #[trigger] rest[i] as int,
                #[trigger] rest[j] as int,
            ) by {
                assert(rest[i] == order[i + 1] && rest[j] == order[j + 1]);
            }
        }
        let take = status is None || rows[order[0] as int].status == status->0;
        let sub_limit = if take { limit - 1 } else { limit };
        lemma_listed(rows, rest, status, sub_limit);
        let l1 = listed_positions(rows, rest, status, sub_limit);
        if take {
            assert(lp == seq![order[0]] + l1);
        } else {
            assert(lp == l1);
        }
        assert forall|k: int| 0 <= k < lp.len() implies #[trigger] order.contains(lp[k]) by {
            if take && k == 0 {
                assert(order[0] == lp[0]);
            } else {
                let k1 = if take { k - 1 } else { k };
                assert(lp[k] == l1[k1]);
                assert(rest.contains(l1[k1]));
                let m = choose|m: int| 0 <= m < rest.len() && rest[m] == l1[k1];
                assert(order[m + 1] == lp[k]);
            }
        }
        assert forall|k: int| 0 <= k < lp.len() implies wanted(rows[#[trigger] lp[k] as int], status) by {
            if take && k == 0 {
            } else {
                let k1 = if take { k - 1 } else { k };
                assert(lp[k] == l1[k1]);
            }
        }
        if lp.len() < limit {
            assert forall|x: usize| #[trigger] order.contains(x) && wanted(rows[x as int], status) implies lp.contains(
                x,
            ) by {
                if x == order[0] {
                    assert(take);
                    assert(lp[0] == x);
                } else {
                    let m = choose|m: int| 0 <= m < order.len() && order[m] == x;
                    assert(m > 0);
                    assert(rest[m - 1] == x);
                    assert(rest.contains(x));
                    assert(l1.contains(x));
                    let q = choose|q: int| 0 <= q < l1.len() && l1[q] == x;
                    if take {
                        assert(lp[q + 1] == x);
                    } else {
                        assert(lp[q] == x);
                    }
                }
            }
        }
        if newest_first(rows, order) {
            assert forall|i: int, j: int| 0 <= i < j < lp.len() implies precedes(
                list_keys(rows),
                #[trigger] lp[i] as int,
                #[trigger] lp[j] as int,
            ) by {
                if take {
                    assert(lp[j] == l1[j - 1]);
                    if i > 0 {
                        assert(lp[i] == l1[i - 1]);
                    } else {
                        assert(rest.contains(l1[j - 1]));
                        let m = choose|m: int| 0 <= m < rest.len() && rest[m] == l1[j - 1];
                        assert(order[m + 1] == lp[j]);
                    }
                } else {
                    assert(lp[i] == l1[i] && lp[j] == l1[j]);
                }
            }
        }
    }
}

/// A listing gives what was asked for: at most `limit` jobs, each a stored
/// job with the status asked for, newest first, and of two created at the
/// same time the one stored later first; and when it gives fewer than
/// `limit`, it gives every stored job with that status.
pub proof fn law_listing_gives_jobs_asked_for(jobs: Seq<JobView>, status: Option<JobStatus>, limit: int)
    requires
        jobs.len() <= usize::MAX,
        crate::store::job_ids_unique(jobs),
    ensures
        ({
            let l = job_listing(jobs, status, limit);
            &&& l.len() <= if limit < 0 { 0 } else { limit }
            &&& forall|k: int| 0 <= k < l.len() ==> jobs.contains(#[trigger] l[k])
            &&& forall|k: int| 0 <= k < l.len() ==> (status matches Some(st) ==> (#[trigger] l[k]).status == st)
            &&& forall|a: int, b: int| 0 <= a < b < l.len() ==> (#[trigger] l[a]).created_at >= (#[trigger] l[b]).created_at
            &&& forall|a: int, b: int, i: int, j: int|
                0 <= a < b < l.len() && 0 <= i < jobs.len() && 0 <= j < jobs.len() && #[trigger] l[a] == #[trigger] jobs[i]
                    && #[trigger] l[b] == #[trigger] jobs[j] && jobs[i].created_at == jobs[j].created_at ==> i > j
            &&& l.len() < limit ==> forall|i: int|
                0 <= i < jobs.len() && (status matches Some(st) ==> jobs[i].status == st) ==> l.contains(
                    #[trigger] jobs[i],
                )
        }),
{
    let n = jobs.len();
    let rows = jobs.reverse();
    if n > 0 {
        assert(rows == Seq::new(n, |i: int| jobs[n - 1 - i]));
    } else {
        assert(rows.len() == 0);
    }
    assert(rows.len() == n);
    assert(forall|p: int| 0 <= p < n ==> #[trigger] rows[p] == jobs[n - 1 - p]);
    let keys = list_keys(rows);
    let ord = sorted_order(keys);
    lemma_sorted_order(keys);
    assert(newest_first(rows, ord));
    lemma_listed(rows, ord, status, limit);
    let lp = listed_positions(rows, ord, status, limit);
    let l = job_listing(jobs, status, limit);
    assert(l == lp.map_values(|i: usize| rows[i as int]));
    assert forall|k: int| 0 <= k < l.len() implies jobs.contains(#[trigger] l[k]) by {
        assert(ord.contains(lp[k]));
        let p = lp[k] as int;
        assert(0 <= p < n);
        assert(jobs[n - 1 - p] == l[k]);
    }
    assert forall|k: int| 0 <= k < l.len() implies (status matches Some(st) ==> (#[trigger] l[k]).status == st) by {
        assert(wanted(rows[lp[k] as int], status));
    }
    assert forall|a: int, b: int| 0 <= a < b < l.len() implies (#[trigger] l[a]).created_at
        >= (#[trigger] l[b]).created_at by {
        assert(precedes(keys, lp[a] as int, lp[b] as int));
        assert(ord.contains(lp[a]) && ord.contains(lp[b]));
        assert(l[a] == rows[lp[a] as int] && l[b] == rows[lp[b] as int]);
        assert(keys[lp[a] as int].0 == rows[lp[a] as int].created_at);
        assert(keys[lp[b] as int].0 == rows[lp[b] as int].created_at);
    }
    assert forall|a: int, b: int, i: int, j: int|
        0 <= a < b < l.len() && 0 <= i < jobs.len() && 0 <= j < jobs.len() && #[trigger] l[a] == #[trigger] jobs[i]
            && #[trigger] l[b] == #[trigger] jobs[j] && jobs[i].created_at == jobs[j].created_at implies i > j by {
        assert(precedes(keys, lp[a] as int, lp[b] as int));
        let pa = lp[a] as int;
        let pb = lp[b] as int;
        assert(ord.contains(lp[a]) && ord.contains(lp[b]));
        assert(jobs[n - 1 - pa] == jobs[i]);
        assert(jobs[n - 1 - pb] == jobs[j]);
        assert(n - 1 - pa == i);
        assert(n - 1 - pb == j);
    }
    if l.len() < limit {
        assert forall|i: int|
            0 <= i < jobs.len() && (status matches Some(st) ==> jobs[i].status == st) implies l.contains(
            #[trigger] jobs[i],
        ) by {
            let x = (n - 1 - i) as usize;
            assert(rows[x as int] == jobs[i]);
            assert(ord.contains(x));
            assert(wanted(rows[x as int], status));
            assert(lp.contains(x));
            let q = choose|q: int| 0 <= q < lp.len() && lp[q] == x;
            assert(l[q] == jobs[i]);
        }
    }
}

/// Every dependency names a stored job that has succeeded.
pub open spec fn all_succeeded(jobs: Seq<JobView>, deps: Seq<Seq<char>>) -> bool {
    forall|x: Seq<char>|
        #[trigger] deps.contains(x) ==> exists|i: int| 0 <= i < jobs.len() && jobs[i].id == x && jobs[i].status
            == JobStatus::Succeeded
}

/// A success frees the jobs waiting for it: after a report that job
/// `job_id` succeeded is accepted, every other job that was blocked, lists
/// it among its dependencies, and whose dependencies have now all succeeded,
/// is queued.
pub proof fn law_success_queues_ready_dependents(
    old: StoreView,
    new: StoreView,
    r: Result<CompleteJobOutcome, StoreError>,
    now: i64,
    job_id: Seq<char>,
    attempt_id: Seq<char>,
    stdout: Seq<char>,
    stderr: Seq<char>,
    runtime_ms: u64,
)
    requires
        old.inv(),
        completion_attempted(old, new, r, now, job_id, attempt_id, 0, stdout, stderr, runtime_ms),
        r matches Ok(CompleteJobOutcome::Accepted(_)),
    ensures
        forall|m: int|
            0 <= m < old.jobs.len() && old.jobs[m].id != job_id && old.jobs[m].status == JobStatus::Blocked
                && old.jobs[m].depends_on.contains(job_id) && all_succeeded(new.jobs, old.jobs[m].depends_on)
                ==> (#[trigger] new.jobs[m]).status == JobStatus::Queued,
{
    let i = job_index(old.jobs, job_id);
    assert(i >= 0);
    let job = old.jobs[i];
    let done = JobView {
        lease_expires_at: None,
        ..crate::store::completed_job(job, now, 0, stdout, stderr, runtime_ms)
    };
    let upd = old.jobs.update(i, done);
    assert(new.jobs == crate::store::unblock_dependents(upd, job.id));
    assert forall|m: int|
        0 <= m < old.jobs.len() && old.jobs[m].id != job_id && old.jobs[m].status == JobStatus::Blocked
            && old.jobs[m].depends_on.contains(job_id) && all_succeeded(new.jobs, old.jobs[m].depends_on)
            implies (#[trigger] new.jobs[m]).status == JobStatus::Queued by {
        assert(m != i);
        assert(upd[m] == old.jobs[m]);
        let deps = old.jobs[m].depends_on;
        assert forall|d: int| 0 <= d < deps.len() implies crate::store::status_of(upd, #[trigger] deps[d])
            == Some(JobStatus::Succeeded) by {
            assert(deps.contains(deps[d]));
            let k = choose|k: int| 0 <= k < new.jobs.len() && new.jobs[k].id == deps[d] && new.jobs[k].status
                == JobStatus::Succeeded;
            assert(upd[k].id == deps[d]);
            assert(upd[k].status == JobStatus::Succeeded);
            assert(crate::store::job_ids_unique(upd)) by {
                assert forall|a: int, b: int| 0 <= a < b < upd.len() implies upd[a].id != upd[b].id by {
                    assert(upd[a].id == old.jobs[a].id && upd[b].id == old.jobs[b].id);
                }
            }
            assert(job_index(upd, deps[d]) == k);
        }
    }
}

/// A cancellation takes the jobs blocked on the cancelled job with it:
/// after cancelling a job that had not finished, every job that was blocked
/// and lists it among its dependencies is cancelled, as is the job itself.
pub proof fn law_cancel_cancels_blocked_dependents(
    old: StoreView,
    new: StoreView,
    r: Result<Job, StoreError>,
    now: i64,
    job_id: Seq<char>,
)
    requires
        old.inv(),
        cancel_happened(old, new, r, now, job_id),
        exists|i: int| 0 <= i < old.jobs.len() && #[trigger] old.jobs[i].id == job_id && !old.jobs[i].status.terminal(),
    ensures
        forall|m: int|
            0 <= m < old.jobs.len() && (old.jobs[m].id == job_id || (old.jobs[m].status == JobStatus::Blocked
                && old.jobs[m].depends_on.contains(job_id))) ==> (#[trigger] new.jobs[m]).status == JobStatus::Cancelled,
{
    let i = job_index(old.jobs, job_id);
    assert(i >= 0);
    let upd = old.jobs.update(i, crate::store::cancelled_job(old.jobs[i], now));
    assert(new.jobs == crate::store::fail_dependents(upd, old.jobs[i].id));
    assert forall|m: int|
        0 <= m < old.jobs.len() && (old.jobs[m].id == job_id || (old.jobs[m].status == JobStatus::Blocked
            && old.jobs[m].depends_on.contains(job_id))) implies (#[trigger] new.jobs[m]).status
        == JobStatus::Cancelled by {
        if m != i {
            assert(old.jobs[m].id != job_id);
            assert(upd[m] == old.jobs[m]);
        }
    }
}

/// A final failure takes the jobs blocked on the failed job with it: after
/// a report that a job without retries left failed is accepted, every other
/// job that was blocked and lists it among its dependencies is cancelled.
pub proof fn law_final_failure_cancels_blocked_dependents(
    old: StoreView,
    new: StoreView,
    r: Result<CompleteJobOutcome, StoreError>,
    now: i64,
    job_id: Seq<char>,
    attempt_id: Seq<char>,
    exit_code: i32,
    stdout: Seq<char>,
    stderr: Seq<char>,
    runtime_ms: u64,
)
    requires
        old.inv(),
        exit_code != 0,
        completion_attempted(old, new, r, now, job_id, attempt_id, exit_code, stdout, stderr, runtime_ms),
        r matches Ok(CompleteJobOutcome::Accepted(_)),
    ensures
        forall|m: int|
            0 <= m < old.jobs.len() && old.jobs[m].id != job_id && old.jobs[m].status == JobStatus::Blocked
                && old.jobs[m].depends_on.contains(job_id) ==> (#[trigger] new.jobs[m]).status == JobStatus::Cancelled,
{
    let i = job_index(old.jobs, job_id);
    assert(i >= 0);
    let job = old.jobs[i];
    assert(!retries_left(job));
    let done = JobView {
        lease_expires_at: None,
        ..crate::store::completed_job(job, now, exit_code, stdout, stderr, runtime_ms)
    };
    let upd = old.jobs.update(i, done);
    assert(new.jobs == crate::store::fail_dependents(upd, job.id));
    assert forall|m: int|
        0 <= m < old.jobs.len() && old.jobs[m].id != job_id && old.jobs[m].status == JobStatus::Blocked
            && old.jobs[m].depends_on.contains(job_id) implies (#[trigger] new.jobs[m]).status
        == JobStatus::Cancelled by {
        assert(upd[m] == old.jobs[m]);
    }
}

/// A renewal that names no length asks for the configured default lease,
/// and one that names `secs` seconds asks for that many seconds, in
/// milliseconds, when they fit.
pub proof fn law_renewal_asks_for_default_lease(default_ms: u64, secs: u64)
    ensures
        requested_lease_ms(None, default_ms) == Some(default_ms),
        secs * 1000 <= u64::MAX ==> requested_lease_ms(Some(secs), default_ms) == Some((secs * 1000) as u64),
{
}

/// A submission stores the job asked for under the id it answers with:
/// blocked when it depends on other jobs and queued otherwise, with the
/// command, priority and dependencies asked for, on no worker and not yet
/// tried; every job stored under another id stays as it was.
pub proof fn law_submission_stores_the_job(
    old: StoreView,
    new: StoreView,
    req: SubmitJobRequest,
    r: Result<SubmitJobResponse, StoreError>,
    now: i64,
)
    requires
        old.inv(),
        submit_happened(old, new, req, r, now),
    ensures
        r matches Ok(resp) && exists|i: int|
            0 <= i < new.jobs.len() && (#[trigger] new.jobs[i]).id == resp.job_id@ && {
                let job = new.jobs[i];
                &&& job.status == (if req.depends_on@.len() == 0 {
                    JobStatus::Queued
                } else {
                    JobStatus::Blocked
                })
                &&& resp.status == job.status
                &&& job.command == req.command@
                &&& job.priority == req.priority
                &&& job.depends_on == req.depends_on.deep_view()
                &&& job.worker_id is None
                &&& job.retry_count == 0
            },
        forall|k: int|
            0 <= k < old.jobs.len() && (r matches Ok(resp) && old.jobs[k].id != resp.job_id@) ==> #[trigger] new.jobs[k]
                == old.jobs[k],
{
    let resp = r->Ok_0;
    let i = job_index(old.jobs, resp.job_id@);
    if i >= 0 {
        assert(new.jobs[i].id == resp.job_id@);
    } else {
        assert(new.jobs[old.jobs.len() as int].id == resp.job_id@);
    }
}

/// A poll asks for at least one job and at most four, never more than the
/// free slots; with four or more free slots it asks for four.
pub proof fn law_poll_asks_within_free_slots(available_permits: usize)
    ensures
        poll_batch(available_permits) <= available_permits,
        poll_batch(available_permits) <= 4,
        available_permits > 0 ==> poll_batch(available_permits) >= 1,
        available_permits >= 4 ==> poll_batch(available_permits) == 4,
        available_permits < 4 ==> poll_batch(available_permits) == available_permits,
{
}

/// What a poll offers of a resource is what its running jobs leave free:
/// with `used` of `total` held, the offer and the held part add up to the
/// total; when more than the total is held, nothing is offered.
pub proof fn law_poll_offers_what_is_free(total: u64, used: u64)
    ensures
        used <= total ==> unallocated(total as int, used as int) + used == total,
        used > total ==> unallocated(total as int, used as int) == 0,
        0 <= unallocated(total as int, used as int) <= total,
{
}

} // verus!
