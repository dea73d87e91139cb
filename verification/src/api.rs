//! What the HTTP handlers decide beyond plumbing: how a listing's query is
//! read, and what a missing job is answered with.
use vstd::prelude::*;
use crate::models::JobStatus;
use crate::wrappers::str_to_uppercase;

verus! {

/// The status a listing is filtered by: the named status, in any letter
/// case; no filter when none is named or the name is unknown.
pub open spec fn status_filter_of(status: Option<Seq<char>>) -> Option<JobStatus> {
    match status {
        Some(s) => JobStatus::from_name(str_to_uppercase(s)),
        None => None,
    }
}

/// Reads the status filter of a listing (see `status_filter_of`).
pub fn status_filter(status: Option<String>) -> (r: Option<JobStatus>)
    ensures
        r == status_filter_of(status.deep_view()),
        forall|st: JobStatus| status.deep_view() == Some(#[trigger] st.name()) ==> r == Some(st),
{
    match status {
        Some(s) => match JobStatus::parse(s.as_str()) {
            Ok(st) => Some(st),
            Err(_) => None,
        },
        None => None,
    }
}

/// How many jobs a listing returns: as many as asked for, 100 by default.
pub fn list_limit(limit: Option<usize>) -> (r: usize)
    ensures
        r == match limit {
            Some(n) => n,
            None => 100,
        },
{
    match limit {
        Some(n) => n,
        None => 100,
    }
}

/// The error text for a job that does not exist.
pub fn job_not_found(id: &str) -> (r: String)
    ensures
        r@ == "Job "@ + id@ + " not found"@,
{
    String::from_str("Job ").concat(id).concat(" not found")
}

} // verus!
