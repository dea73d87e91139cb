//! Writing the store's records as the rows of a database and reading them
//! back: dates and times are RFC 3339 text, lists and maps JSON text,
//! numbers 64-bit integers. A column that cannot be read falls back to a
//! default, as each decoder says; a row written from a record reads back as
//! that record.
use vstd::prelude::*;
use crate::models::{
    Job, JobAttempt, JobStatus, JobView, AttemptView, Lease, LeaseView, Priority, ResourceRequirements, Worker,
    WorkerStatus, WorkerView, clone_opt_string,
};
use crate::string_map::StringMap;
use crate::wrappers::{
    json_string_list, json_string_map, parse_json_string_list, parse_json_string_map, parse_rfc3339_millis,
    rfc3339_millis, str_to_uppercase, to_uppercase, ascii_capitals, format_rfc3339, format_json_list,
    format_json_map, rfc3339_text, json_list_text, json_map_text, valid_timestamp, MIN_FOUR_DIGIT_YEAR_MS,
    MAX_FOUR_DIGIT_YEAR_MS,
};
use crate::text::str_eq;

verus! {

/// The map a list of (key, value) pairs stands for; a later pair for a key
/// overrides an earlier one.
pub open spec fn pairs_map(p: Seq<(Seq<char>, Seq<char>)>) -> Map<Seq<char>, Seq<char>>
    decreases p.len(),
{
    if p.len() == 0 {
        Map::empty()
    } else {
        pairs_map(p.drop_last()).insert(p.last().0, p.last().1)
    }
}

/// The strings a JSON column holds; none when it cannot be read.
pub open spec fn strings_of(text: Seq<char>) -> Seq<Seq<char>> {
    match json_string_list(text) {
        Some(v) => v,
        None => Seq::empty(),
    }
}

/// The map a JSON column holds; empty when it cannot be read.
pub open spec fn map_of(text: Seq<char>) -> Map<Seq<char>, Seq<char>> {
    match json_string_map(text) {
        Some(p) => pairs_map(p),
        None => Map::empty(),
    }
}

/// The time a required date column holds; `now` when it cannot be read.
pub open spec fn time_or(text: Seq<char>, now: i64) -> i64 {
    match rfc3339_millis(text) {
        Some(t) => t,
        None => now,
    }
}

/// The time an optional date column holds; none when it is empty or cannot
/// be read.
pub open spec fn time_of(text: Option<Seq<char>>) -> Option<i64> {
    match text {
        Some(t) => rfc3339_millis(t),
        None => None,
    }
}

/// A row of the jobs table, resources aside (they are a record of their
/// own, read with the row).
pub struct JobRow {
    pub id: String,
    pub name: Option<String>,
    pub command: String,
    pub args: String,
    pub cwd: Option<String>,
    pub env: String,
    pub priority: i32,
    pub status: String,
    pub max_retries: i64,
    pub retry_count: i64,
    pub timeout_seconds: Option<i64>,
    pub depends_on: String,
    pub worker_id: Option<String>,
    pub current_attempt_id: Option<String>,
    pub created_at: String,
    pub started_at: Option<String>,
    pub completed_at: Option<String>,
    pub lease_expires_at: Option<String>,
    pub next_retry_at: Option<String>,
    pub exit_code: Option<i32>,
    pub stdout: Option<String>,
    pub stderr: Option<String>,
    pub runtime_ms: Option<i64>,
}

/// A 64-bit count read into 64 bits unsigned, as `as` casts it.
pub open spec fn unsigned_of(v: Option<i64>) -> Option<u64> {
    match v {
        Some(x) => Some(x as u64),
        None => None,
    }
}

/// The job a row stands for, read at `now` with its resources: unreadable
/// lists and maps are empty, an unknown status is Queued, an unknown
/// priority number is Normal, an unreadable creation time is `now`, and an
/// unreadable optional time is none.
pub open spec fn decoded_job(row: JobRow, resources: ResourceRequirements, now: i64) -> JobView {
    JobView {
        id: row.id@,
        name: row.name.deep_view(),
        command: row.command@,
        args: strings_of(row.args@),
        cwd: row.cwd.deep_view(),
        env: map_of(row.env@),
        priority: Priority::from_value(row.priority),
        status: match JobStatus::from_name(str_to_uppercase(row.status@)) {
            Some(st) => st,
            None => JobStatus::Queued,
        },
        max_retries: row.max_retries as u32,
        retry_count: row.retry_count as u32,
        timeout_seconds: unsigned_of(row.timeout_seconds),
        resources: resources@,
        depends_on: strings_of(row.depends_on@),
        worker_id: row.worker_id.deep_view(),
        current_attempt_id: row.current_attempt_id.deep_view(),
        created_at: time_or(row.created_at@, now),
        started_at: time_of(row.started_at.deep_view()),
        completed_at: time_of(row.completed_at.deep_view()),
        lease_expires_at: time_of(row.lease_expires_at.deep_view()),
        next_retry_at: time_of(row.next_retry_at.deep_view()),
        exit_code: row.exit_code,
        stdout: row.stdout.deep_view(),
        stderr: row.stderr.deep_view(),
        runtime_ms: unsigned_of(row.runtime_ms),
    }
}

/// A row of the workers table.
pub struct WorkerRow {
    pub id: String,
    pub cpus: i64,
    pub memory_mb: i64,
    pub labels: String,
    pub status: String,
    pub active_jobs: i64,
    pub last_heartbeat: String,
    pub registered_at: String,
}

/// The worker state a stored name stands for: `ACTIVE`, `UNAVAILABLE`, and
/// anything else is Dead.
pub open spec fn stored_worker_status(name: Seq<char>) -> WorkerStatus {
    if name == "ACTIVE"@ {
        WorkerStatus::Active
    } else if name == "UNAVAILABLE"@ {
        WorkerStatus::Unavailable
    } else {
        WorkerStatus::Dead
    }
}

/// The worker a row stands for, read at `now`: unreadable labels are empty,
/// and an unreadable time is `now`.
pub open spec fn decoded_worker(row: WorkerRow, now: i64) -> WorkerView {
    WorkerView {
        id: row.id@,
        cpus: row.cpus as u32,
        memory_mb: row.memory_mb as u64,
        labels: map_of(row.labels@),
        status: stored_worker_status(row.status@),
        active_jobs: row.active_jobs as u32,
        last_heartbeat: time_or(row.last_heartbeat@, now),
        registered_at: time_or(row.registered_at@, now),
    }
}

/// A row of the attempts table.
pub struct AttemptRow {
    pub id: String,
    pub job_id: String,
    pub attempt_number: i64,
    pub worker_id: String,
    pub status: String,
    pub started_at: String,
    pub completed_at: Option<String>,
    pub exit_code: Option<i32>,
    pub runtime_ms: Option<i64>,
    pub error: Option<String>,
}

/// The attempt a row stands for, read at `now`: an unreadable start is
/// `now`, an unreadable end is none.
pub open spec fn decoded_attempt(row: AttemptRow, now: i64) -> AttemptView {
    AttemptView {
        id: row.id@,
        job_id: row.job_id@,
        attempt_number: row.attempt_number as u32,
        worker_id: row.worker_id@,
        status: row.status@,
        started_at: time_or(row.started_at@, now),
        completed_at: time_of(row.completed_at.deep_view()),
        exit_code: row.exit_code,
        runtime_ms: unsigned_of(row.runtime_ms),
        error: row.error.deep_view(),
    }
}

/// A row of the leases table.
pub struct LeaseRow {
    pub job_id: String,
    pub attempt_id: String,
    pub worker_id: String,
    pub expires_at: String,
}

/// The lease a row stands for, read at `now`: an unreadable deadline is
/// `now`.
pub open spec fn decoded_lease(row: LeaseRow, now: i64) -> LeaseView {
    LeaseView {
        job_id: row.job_id@,
        attempt_id: row.attempt_id@,
        worker_id: row.worker_id@,
        expires_at: time_or(row.expires_at@, now),
    }
}

/// Reads a JSON map of strings; empty when it cannot be read.
fn read_map(text: &str) -> (r: StringMap)
    ensures
        r@ == map_of(text@),
{
    map_or_empty_of(parse_json_string_map(text))
}

/// Reads a required date column; `now` when it cannot be read.
fn read_time_or(text: &str, now: i64) -> (r: i64)
    ensures
        r == time_or(text@, now),
{
    match parse_rfc3339_millis(text) {
        Some(t) => t,
        None => now,
    }
}

/// Reads an optional date column; none when it is empty or cannot be read.
fn read_time(text: &Option<String>) -> (r: Option<i64>)
    ensures
        r == time_of(text.deep_view()),
{
    match text {
        Some(t) => parse_rfc3339_millis(t.as_str()),
        None => None,
    }
}

/// A stored count as 64 bits unsigned.
fn read_unsigned(v: Option<i64>) -> (r: Option<u64>)
    ensures
        r == unsigned_of(v),
{
    match v {
        Some(x) => Some(x as u64),
        None => None,
    }
}

/// What the parsers made of the text columns of a job row: the status in
/// upper case, the JSON lists and map (none when unreadable), and the dates
/// (none when unreadable; for an optional date, also when it is absent).
pub struct JobColumns {
    pub status_upper: String,
    pub args: Option<Vec<String>>,
    pub env: Option<Vec<(String, String)>>,
    pub depends_on: Option<Vec<String>>,
    pub created_at: Option<i64>,
    pub started_at: Option<i64>,
    pub completed_at: Option<i64>,
    pub lease_expires_at: Option<i64>,
    pub next_retry_at: Option<i64>,
}

/// The strings of a parsed JSON list; none when it could not be read.
pub open spec fn strings_or_none(v: Option<Vec<String>>) -> Seq<Seq<char>> {
    match v {
        Some(x) => x.deep_view(),
        None => Seq::empty(),
    }
}

/// The map of a parsed JSON object (see `pairs_map`); empty when it could
/// not be read.
pub open spec fn map_or_empty(v: Option<Vec<(String, String)>>) -> Map<Seq<char>, Seq<char>> {
    match v {
        Some(x) => pairs_map(x@.map_values(|e: (String, String)| (e.0@, e.1@))),
        None => Map::empty(),
    }
}

/// The job a row stands for, its text columns parsed into `cols`, read at
/// `now` with its resources: an unknown status is Queued, an unreadable list
/// or map is empty, an unknown priority number is Normal, and an unreadable
/// creation time is `now`.
pub open spec fn assembled_job(row: JobRow, resources: ResourceRequirements, cols: JobColumns, now: i64) -> JobView {
    JobView {
        id: row.id@,
        name: row.name.deep_view(),
        command: row.command@,
        args: strings_or_none(cols.args),
        cwd: row.cwd.deep_view(),
        env: map_or_empty(cols.env),
        priority: Priority::from_value(row.priority),
        status: match JobStatus::from_name(cols.status_upper@) {
            Some(st) => st,
            None => JobStatus::Queued,
        },
        max_retries: row.max_retries as u32,
        retry_count: row.retry_count as u32,
        timeout_seconds: unsigned_of(row.timeout_seconds),
        resources: resources@,
        depends_on: strings_or_none(cols.depends_on),
        worker_id: row.worker_id.deep_view(),
        current_attempt_id: row.current_attempt_id.deep_view(),
        created_at: match cols.created_at {
            Some(t) => t,
            None => now,
        },
        started_at: cols.started_at,
        completed_at: cols.completed_at,
        lease_expires_at: cols.lease_expires_at,
        next_retry_at: cols.next_retry_at,
        exit_code: row.exit_code,
        stdout: row.stdout.deep_view(),
        stderr: row.stderr.deep_view(),
        runtime_ms: unsigned_of(row.runtime_ms),
    }
}

/// `cols` is what the parsers make of the text columns of `row`.
pub open spec fn columns_parsed(row: JobRow, cols: JobColumns) -> bool {
    &&& cols.status_upper@ == str_to_uppercase(row.status@)
    &&& cols.args.deep_view() == json_string_list(row.args@)
    &&& match cols.env {
        Some(v) => json_string_map(row.env@) == Some(v@.map_values(|e: (String, String)| (e.0@, e.1@))),
        None => json_string_map(row.env@) is None,
    }
    &&& cols.depends_on.deep_view() == json_string_list(row.depends_on@)
    &&& cols.created_at == rfc3339_millis(row.created_at@)
    &&& cols.started_at == time_of(row.started_at.deep_view())
    &&& cols.completed_at == time_of(row.completed_at.deep_view())
    &&& cols.lease_expires_at == time_of(row.lease_expires_at.deep_view())
    &&& cols.next_retry_at == time_of(row.next_retry_at.deep_view())
}

/// Parses the text columns of a job row (see `columns_parsed`).
fn parse_columns(row: &JobRow) -> (c: JobColumns)
    ensures
        columns_parsed(*row, c),
        ascii_capitals(row.status@) ==> c.status_upper@ == row.status@,
{
    JobColumns {
        status_upper: to_uppercase(row.status.as_str()),
        args: parse_json_string_list(row.args.as_str()),
        env: parse_json_string_map(row.env.as_str()),
        depends_on: parse_json_string_list(row.depends_on.as_str()),
        created_at: parse_rfc3339_millis(row.created_at.as_str()),
        started_at: read_time(&row.started_at),
        completed_at: read_time(&row.completed_at),
        lease_expires_at: read_time(&row.lease_expires_at),
        next_retry_at: read_time(&row.next_retry_at),
    }
}

/// The strings of a parsed JSON list (see `strings_or_none`).
fn strings_or_none_of(v: Option<Vec<String>>) -> (r: Vec<String>)
    ensures
        r.deep_view() == strings_or_none(v),
{
    match v {
        Some(x) => x,
        None => Vec::new(),
    }
}

/// The map of a parsed JSON object (see `map_or_empty`).
fn map_or_empty_of(v: Option<Vec<(String, String)>>) -> (r: StringMap)
    ensures
        r@ == map_or_empty(v),
{
    match v {
        Some(pairs) => {
            let ghost p = pairs@.map_values(|e: (String, String)| (e.0@, e.1@));
            let mut m = StringMap::new();
            let mut k: usize = 0;
            while k < pairs.len()
                invariant
                    k <= pairs@.len(),
                    p == pairs@.map_values(|e: (String, String)| (e.0@, e.1@)),
                    m@ == pairs_map(p.take(k as int)),
                decreases pairs@.len() - k,
            {
                proof {
                    assert(p.take(k + 1).drop_last() =~= p.take(k as int));
                }
                m.insert(pairs[k].0.clone(), pairs[k].1.clone());
                k = k + 1;
            }
            proof {
                assert(p.take(k as int) =~= p);
            }
            m
        },
        None => StringMap::new(),
    }
}

/// The job a row stands for, given what the parsers made of its text
/// columns (see `assembled_job`).
pub fn assemble_job(row: JobRow, resources: ResourceRequirements, cols: JobColumns, now: i64) -> (r: Job)
    ensures
        r@ == assembled_job(row, resources, cols, now),
{
    let ghost row0 = row;
    let ghost res0 = resources;
    let ghost cols0 = cols;
    let status = match JobStatus::from_uppercase_name(cols.status_upper.as_str()) {
        Some(st) => st,
        None => JobStatus::Queued,
    };
    let r = Job {
        args: strings_or_none_of(cols.args),
        env: map_or_empty_of(cols.env),
        priority: Priority::from_i32(row.priority),
        status,
        max_retries: row.max_retries as u32,
        retry_count: row.retry_count as u32,
        timeout_seconds: read_unsigned(row.timeout_seconds),
        depends_on: strings_or_none_of(cols.depends_on),
        created_at: match cols.created_at {
            Some(t) => t,
            None => now,
        },
        started_at: cols.started_at,
        completed_at: cols.completed_at,
        lease_expires_at: cols.lease_expires_at,
        next_retry_at: cols.next_retry_at,
        runtime_ms: read_unsigned(row.runtime_ms),
        id: row.id,
        name: row.name,
        command: row.command,
        cwd: row.cwd,
        resources,
        worker_id: row.worker_id,
        current_attempt_id: row.current_attempt_id,
        exit_code: row.exit_code,
        stdout: row.stdout,
        stderr: row.stderr,
    };
    assert(r@ =~= assembled_job(row0, res0, cols0, now));
    r
}

/// A 32-bit count written in 64 bits reads back unchanged.
proof fn lemma_count_round_trip(x: u32)
    ensures
        (x as i64) as u32 == x,
{
    assert((x as i64) as u32 == x) by (bit_vector);
}

/// A count written as a 64-bit signed integer reads back unchanged.
proof fn lemma_signed_round_trip(v: Option<u64>)
    ensures
        unsigned_of(signed_of(v)) == v,
{
    if let Some(x) = v {
        assert((x as i64) as u64 == x) by (bit_vector);
    }
}

/// The job a row stands for (see `decoded_job`): its text columns are
/// parsed, then the job is put together from them (see `assemble_job`).
pub fn decode_job(row: JobRow, resources: ResourceRequirements, now: i64) -> (r: Job)
    ensures
        r@ == decoded_job(row, resources, now),
        forall|st: JobStatus| #[trigger] st.name() == row.status@ ==> r@.status == st,
        forall|j: JobView|
            #[trigger] written_job(row, j) && job_columns_read_back(row, j) && resources@ == j.resources ==> r@
                == j,
{
    let ghost row0 = row;
    let ghost res0 = resources;
    let cols = parse_columns(&row);
    let ghost cols0 = cols;
    proof {
        assert(strings_or_none(cols0.args) == strings_of(row0.args@));
        assert(strings_or_none(cols0.depends_on) == strings_of(row0.depends_on@));
        assert(map_or_empty(cols0.env) == map_of(row0.env@));
        assert(assembled_job(row0, res0, cols0, now) =~= decoded_job(row0, res0, now));
        assert forall|st: JobStatus| #[trigger] st.name() == row0.status@ implies assembled_job(
            row0,
            res0,
            cols0,
            now,
        ).status == st by {
            st.lemma_name_in_capitals();
            crate::laws::law_names_read_back(st, Priority::Normal);
        }
        assert forall|j: JobView|
            #[trigger] written_job(row0, j) && job_columns_read_back(row0, j) && res0@ == j.resources implies decoded_job(
            row0,
            res0,
            now,
        ) == j by {
            j.status.lemma_name_in_capitals();
            crate::laws::law_names_read_back(j.status, j.priority);
            lemma_count_round_trip(j.max_retries);
            lemma_count_round_trip(j.retry_count);
            lemma_signed_round_trip(j.timeout_seconds);
            lemma_signed_round_trip(j.runtime_ms);
            assert(decoded_job(row0, res0, now) =~= j);
        }
    }
    assemble_job(row, resources, cols, now)
}

/// The worker state a stored name stands for (see `stored_worker_status`).
fn read_worker_status(name: &str) -> (r: WorkerStatus)
    ensures
        r == stored_worker_status(name@),
{
    if str_eq(name, "ACTIVE") {
        WorkerStatus::Active
    } else if str_eq(name, "UNAVAILABLE") {
        WorkerStatus::Unavailable
    } else {
        WorkerStatus::Dead
    }
}

/// The worker a row stands for (see `decoded_worker`).
pub fn decode_worker(row: WorkerRow, now: i64) -> (r: Worker)
    ensures
        r@ == decoded_worker(row, now),
        forall|w: WorkerView| #[trigger] written_worker(row, w) && worker_columns_read_back(row, w) ==> r@ == w,
{
    let ghost row0 = row;
    let r = Worker {
        cpus: row.cpus as u32,
        memory_mb: row.memory_mb as u64,
        labels: read_map(row.labels.as_str()),
        status: read_worker_status(row.status.as_str()),
        active_jobs: row.active_jobs as u32,
        last_heartbeat: read_time_or(row.last_heartbeat.as_str(), now),
        registered_at: read_time_or(row.registered_at.as_str(), now),
        id: row.id,
    };
    assert(r@ =~= decoded_worker(row0, now));
    proof {
        assert forall|w: WorkerView| #[trigger] written_worker(row0, w) && worker_columns_read_back(row0, w) implies r@
            == w by {
            lemma_count_round_trip(w.cpus);
            lemma_count_round_trip(w.active_jobs);
            lemma_wide_round_trip(w.memory_mb);
            lemma_worker_status_read_back(w.status);
            assert(r@ =~= w);
        }
    }
    r
}

/// The attempt a row stands for (see `decoded_attempt`).
pub fn decode_attempt(row: AttemptRow, now: i64) -> (r: JobAttempt)
    ensures
        r@ == decoded_attempt(row, now),
        forall|a: AttemptView| #[trigger] written_attempt(row, a) && attempt_columns_read_back(row, a) ==> r@ == a,
{
    let ghost row0 = row;
    let r = JobAttempt {
        attempt_number: row.attempt_number as u32,
        started_at: read_time_or(row.started_at.as_str(), now),
        completed_at: read_time(&row.completed_at),
        runtime_ms: read_unsigned(row.runtime_ms),
        id: row.id,
        job_id: row.job_id,
        worker_id: row.worker_id,
        status: row.status,
        exit_code: row.exit_code,
        error: row.error,
    };
    assert(r@ =~= decoded_attempt(row0, now));
    proof {
        assert forall|a: AttemptView| #[trigger] written_attempt(row0, a) && attempt_columns_read_back(row0, a) implies r@
            == a by {
            lemma_count_round_trip(a.attempt_number);
            lemma_signed_round_trip(a.runtime_ms);
            assert(r@ =~= a);
        }
    }
    r
}

/// The lease a row stands for (see `decoded_lease`).
pub fn decode_lease(row: LeaseRow, now: i64) -> (r: Lease)
    ensures
        r@ == decoded_lease(row, now),
        forall|l: LeaseView|
            #[trigger] written_lease(row, l) && rfc3339_millis(row.expires_at@) == Some(l.expires_at) ==> r@ == l,
{
    let ghost row0 = row;
    let r = Lease {
        expires_at: read_time_or(row.expires_at.as_str(), now),
        job_id: row.job_id,
        attempt_id: row.attempt_id,
        worker_id: row.worker_id,
    };
    assert(r@ =~= decoded_lease(row0, now));
    r
}

// ---------------------------------------------------------------------------
// Writing rows.
// ---------------------------------------------------------------------------

/// A time chrono can hold, when there is one.
pub open spec fn valid_time(t: Option<i64>) -> bool {
    match t {
        Some(x) => valid_timestamp(x as int),
        None => true,
    }
}

/// A time whose year RFC 3339 writes in four digits.
pub open spec fn four_digit_year(t: i64) -> bool {
    MIN_FOUR_DIGIT_YEAR_MS <= t <= MAX_FOUR_DIGIT_YEAR_MS
}

/// A time whose year RFC 3339 writes in four digits, when there is one.
pub open spec fn four_digit_year_of(t: Option<i64>) -> bool {
    match t {
        Some(x) => four_digit_year(x),
        None => true,
    }
}

/// The text an optional time is written as; none stays none.
pub open spec fn time_text_of(t: Option<i64>) -> Option<Seq<char>> {
    match t {
        Some(x) => Some(rfc3339_text(x)),
        None => None,
    }
}

/// A count written as a 64-bit signed integer, as `as` casts it.
pub open spec fn signed_of(v: Option<u64>) -> Option<i64> {
    match v {
        Some(x) => Some(x as i64),
        None => None,
    }
}

/// Whether `r` is the row job `j` is written as, resources aside: the lists
/// and the environment as JSON, the times as RFC 3339 text, the counts as
/// 64-bit integers, the priority as its number and the status as its name.
pub open spec fn written_job(r: JobRow, j: JobView) -> bool {
    &&& r.id@ == j.id
    &&& r.name.deep_view() == j.name
    &&& r.command@ == j.command
    &&& r.args@ == json_list_text(j.args)
    &&& r.cwd.deep_view() == j.cwd
    &&& r.env@ == json_map_text(j.env)
    &&& r.priority == j.priority.value()
    &&& r.status@ == j.status.name()
    &&& r.max_retries == j.max_retries as i64
    &&& r.retry_count == j.retry_count as i64
    &&& r.timeout_seconds == signed_of(j.timeout_seconds)
    &&& r.depends_on@ == json_list_text(j.depends_on)
    &&& r.worker_id.deep_view() == j.worker_id
    &&& r.current_attempt_id.deep_view() == j.current_attempt_id
    &&& r.created_at@ == rfc3339_text(j.created_at)
    &&& r.started_at.deep_view() == time_text_of(j.started_at)
    &&& r.completed_at.deep_view() == time_text_of(j.completed_at)
    &&& r.lease_expires_at.deep_view() == time_text_of(j.lease_expires_at)
    &&& r.next_retry_at.deep_view() == time_text_of(j.next_retry_at)
    &&& r.exit_code == j.exit_code
    &&& r.stdout.deep_view() == j.stdout
    &&& r.stderr.deep_view() == j.stderr
    &&& r.runtime_ms == signed_of(j.runtime_ms)
}

/// Whether the text columns of `r` read back as the fields of `j`: the
/// lists, the environment and the times.
pub open spec fn job_columns_read_back(r: JobRow, j: JobView) -> bool {
    &&& json_string_list(r.args@) == Some(j.args)
    &&& json_string_list(r.depends_on@) == Some(j.depends_on)
    &&& json_string_map(r.env@) is Some
    &&& pairs_map(json_string_map(r.env@)->0) == j.env
    &&& rfc3339_millis(r.created_at@) == Some(j.created_at)
    &&& time_of(r.started_at.deep_view()) == j.started_at
    &&& time_of(r.completed_at.deep_view()) == j.completed_at
    &&& time_of(r.lease_expires_at.deep_view()) == j.lease_expires_at
    &&& time_of(r.next_retry_at.deep_view()) == j.next_retry_at
}

/// Every time of the job is one chrono can hold.
pub open spec fn job_times_valid(j: JobView) -> bool {
    &&& valid_timestamp(j.created_at as int)
    &&& valid_time(j.started_at)
    &&& valid_time(j.completed_at)
    &&& valid_time(j.lease_expires_at)
    &&& valid_time(j.next_retry_at)
}

/// Every time of the job has a year written in four digits.
pub open spec fn job_times_four_digit(j: JobView) -> bool {
    &&& four_digit_year(j.created_at)
    &&& four_digit_year_of(j.started_at)
    &&& four_digit_year_of(j.completed_at)
    &&& four_digit_year_of(j.lease_expires_at)
    &&& four_digit_year_of(j.next_retry_at)
}

/// Writes an optional time (see `time_text_of`); a time with a four-digit
/// year reads back.
fn write_time(t: Option<i64>) -> (r: Option<String>)
    requires
        valid_time(t),
    ensures
        r.deep_view() == time_text_of(t),
        four_digit_year_of(t) ==> time_of(r.deep_view()) == t,
{
    match t {
        Some(x) => Some(format_rfc3339(x)),
        None => None,
    }
}

/// A count as a 64-bit signed integer (see `signed_of`).
fn write_signed(v: Option<u64>) -> (r: Option<i64>)
    ensures
        r == signed_of(v),
{
    match v {
        Some(x) => Some(x as i64),
        None => None,
    }
}

/// The row a job is written as, resources aside (see `written_job`); when
/// its times have four-digit years, its text columns read back as its
/// fields (see `job_columns_read_back`, and `decode_job` for the whole row).
pub fn encode_job(job: &Job) -> (r: JobRow)
    requires
        job_times_valid(job@),
    ensures
        written_job(r, job@),
        job_times_four_digit(job@) ==> job_columns_read_back(r, job@),
{
    let r = JobRow {
        id: job.id.clone(),
        name: clone_opt_string(&job.name),
        command: job.command.clone(),
        args: format_json_list(&job.args),
        cwd: clone_opt_string(&job.cwd),
        env: format_json_map(job.env.entries()),
        priority: job.priority.as_i32(),
        status: String::from_str(job.status.as_str()),
        max_retries: job.max_retries as i64,
        retry_count: job.retry_count as i64,
        timeout_seconds: write_signed(job.timeout_seconds),
        depends_on: format_json_list(&job.depends_on),
        worker_id: clone_opt_string(&job.worker_id),
        current_attempt_id: clone_opt_string(&job.current_attempt_id),
        created_at: format_rfc3339(job.created_at),
        started_at: write_time(job.started_at),
        completed_at: write_time(job.completed_at),
        lease_expires_at: write_time(job.lease_expires_at),
        next_retry_at: write_time(job.next_retry_at),
        exit_code: job.exit_code,
        stdout: clone_opt_string(&job.stdout),
        stderr: clone_opt_string(&job.stderr),
        runtime_ms: write_signed(job.runtime_ms),
    };
    r
}

/// A 64-bit count written as a signed integer reads back unchanged.
proof fn lemma_wide_round_trip(x: u64)
    ensures
        (x as i64) as u64 == x,
{
    assert((x as i64) as u64 == x) by (bit_vector);
}

/// A worker state is read back from the name it is written under.
proof fn lemma_worker_status_read_back(st: WorkerStatus)
    ensures
        stored_worker_status(st.name()) == st,
{
    reveal_strlit("ACTIVE");
    reveal_strlit("UNAVAILABLE");
    reveal_strlit("DEAD");
    assert("UNAVAILABLE"@[0] != "ACTIVE"@[0]);
}

/// Whether `r` is the row worker `w` is written as: the labels as JSON, the
/// times as RFC 3339 text, the counts as 64-bit integers and the state as
/// its name.
pub open spec fn written_worker(r: WorkerRow, w: WorkerView) -> bool {
    &&& r.id@ == w.id
    &&& r.cpus == w.cpus as i64
    &&& r.memory_mb == w.memory_mb as i64
    &&& r.labels@ == json_map_text(w.labels)
    &&& r.status@ == w.status.name()
    &&& r.active_jobs == w.active_jobs as i64
    &&& r.last_heartbeat@ == rfc3339_text(w.last_heartbeat)
    &&& r.registered_at@ == rfc3339_text(w.registered_at)
}

/// Whether the text columns of `r` read back as the fields of `w`.
pub open spec fn worker_columns_read_back(r: WorkerRow, w: WorkerView) -> bool {
    &&& json_string_map(r.labels@) is Some
    &&& pairs_map(json_string_map(r.labels@)->0) == w.labels
    &&& rfc3339_millis(r.last_heartbeat@) == Some(w.last_heartbeat)
    &&& rfc3339_millis(r.registered_at@) == Some(w.registered_at)
}

/// The row a worker is written as (see `written_worker`); when its times
/// have four-digit years, its text columns read back as its fields (see
/// `decode_worker`).
pub fn encode_worker(w: &Worker) -> (r: WorkerRow)
    requires
        valid_timestamp(w.last_heartbeat as int),
        valid_timestamp(w.registered_at as int),
    ensures
        written_worker(r, w@),
        four_digit_year(w.last_heartbeat) && four_digit_year(w.registered_at) ==> worker_columns_read_back(r, w@),
{
    WorkerRow {
        id: w.id.clone(),
        cpus: w.cpus as i64,
        memory_mb: w.memory_mb as i64,
        labels: format_json_map(w.labels.entries()),
        status: String::from_str(w.status.as_str()),
        active_jobs: w.active_jobs as i64,
        last_heartbeat: format_rfc3339(w.last_heartbeat),
        registered_at: format_rfc3339(w.registered_at),
    }
}

/// Whether `r` is the row attempt `a` is written as: the times as RFC 3339
/// text and the counts as 64-bit integers.
pub open spec fn written_attempt(r: AttemptRow, a: AttemptView) -> bool {
    &&& r.id@ == a.id
    &&& r.job_id@ == a.job_id
    &&& r.attempt_number == a.attempt_number as i64
    &&& r.worker_id@ == a.worker_id
    &&& r.status@ == a.status
    &&& r.started_at@ == rfc3339_text(a.started_at)
    &&& r.completed_at.deep_view() == time_text_of(a.completed_at)
    &&& r.exit_code == a.exit_code
    &&& r.runtime_ms == signed_of(a.runtime_ms)
    &&& r.error.deep_view() == a.error
}

/// Whether the time columns of `r` read back as the times of `a`.
pub open spec fn attempt_columns_read_back(r: AttemptRow, a: AttemptView) -> bool {
    &&& rfc3339_millis(r.started_at@) == Some(a.started_at)
    &&& time_of(r.completed_at.deep_view()) == a.completed_at
}

/// The row an attempt is written as (see `written_attempt`); when its times
/// have four-digit years, they read back (see `decode_attempt`).
pub fn encode_attempt(a: &JobAttempt) -> (r: AttemptRow)
    requires
        valid_timestamp(a.started_at as int),
        valid_time(a.completed_at),
    ensures
        written_attempt(r, a@),
        four_digit_year(a.started_at) && four_digit_year_of(a.completed_at) ==> attempt_columns_read_back(r, a@),
{
    AttemptRow {
        id: a.id.clone(),
        job_id: a.job_id.clone(),
        attempt_number: a.attempt_number as i64,
        worker_id: a.worker_id.clone(),
        status: a.status.clone(),
        started_at: format_rfc3339(a.started_at),
        completed_at: write_time(a.completed_at),
        exit_code: a.exit_code,
        runtime_ms: write_signed(a.runtime_ms),
        error: clone_opt_string(&a.error),
    }
}

/// Whether `r` is the row lease `l` is written as: its deadline as RFC 3339
/// text.
pub open spec fn written_lease(r: LeaseRow, l: LeaseView) -> bool {
    &&& r.job_id@ == l.job_id
    &&& r.attempt_id@ == l.attempt_id
    &&& r.worker_id@ == l.worker_id
    &&& r.expires_at@ == rfc3339_text(l.expires_at)
}

/// The row a lease is written as (see `written_lease`); when its deadline
/// has a four-digit year, it reads back (see `decode_lease`).
pub fn encode_lease(l: &Lease) -> (r: LeaseRow)
    requires
        valid_timestamp(l.expires_at as int),
    ensures
        written_lease(r, l@),
        four_digit_year(l.expires_at) ==> rfc3339_millis(r.expires_at@) == Some(l.expires_at),
{
    LeaseRow {
        job_id: l.job_id.clone(),
        attempt_id: l.attempt_id.clone(),
        worker_id: l.worker_id.clone(),
        expires_at: format_rfc3339(l.expires_at),
    }
}

} // verus!
