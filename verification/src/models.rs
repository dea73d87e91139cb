//! The scheduler's data model: job and worker states, priorities, resource
//! profiles, the records the store keeps, and the requests and responses of
//! its API. Timestamps are milliseconds since the Unix epoch (UTC).
use vstd::prelude::*;
use crate::string_map::{StringMap, entries_map, keys_distinct, lemma_entries_map};
use crate::text::str_eq;
use crate::wrappers::{
    to_uppercase, to_lowercase, str_to_uppercase, str_to_lowercase, ascii_capitals,
    ascii_small_letters,
};

verus! {

/// Where a job stands in its life cycle.
#[derive(Clone, Copy, Debug, PartialEq, Eq, Structural)]
pub enum JobStatus {
    Queued,
    Assigned,
    Running,
    Retrying,
    Succeeded,
    Failed,
    Cancelled,
    Blocked,
}

impl JobStatus {
    /// The name under which a status is written and read.
    pub open spec fn name(self) -> Seq<char> {
        match self {
            JobStatus::Queued => "QUEUED"@,
            JobStatus::Assigned => "ASSIGNED"@,
            JobStatus::Running => "RUNNING"@,
            JobStatus::Retrying => "RETRYING"@,
            JobStatus::Succeeded => "SUCCEEDED"@,
            JobStatus::Failed => "FAILED"@,
            JobStatus::Cancelled => "CANCELLED"@,
            JobStatus::Blocked => "BLOCKED"@,
        }
    }

    /// The status whose name is exactly `s`, if any.
    pub open spec fn from_name(s: Seq<char>) -> Option<JobStatus> {
        if s == "QUEUED"@ {
            Some(JobStatus::Queued)
        } else if s == "ASSIGNED"@ {
            Some(JobStatus::Assigned)
        } else if s == "RUNNING"@ {
            Some(JobStatus::Running)
        } else if s == "RETRYING"@ {
            Some(JobStatus::Retrying)
        } else if s == "SUCCEEDED"@ {
            Some(JobStatus::Succeeded)
        } else if s == "FAILED"@ {
            Some(JobStatus::Failed)
        } else if s == "CANCELLED"@ {
            Some(JobStatus::Cancelled)
        } else if s == "BLOCKED"@ {
            Some(JobStatus::Blocked)
        } else {
            None
        }
    }

    /// A job in a terminal state never changes state again.
    pub open spec fn terminal(self) -> bool {
        self == JobStatus::Succeeded || self == JobStatus::Failed || self == JobStatus::Cancelled
    }

    pub fn as_str(&self) -> (r: &'static str)
        ensures
            r@ == self.name(),
    {
        match self {
            JobStatus::Queued => "QUEUED",
            JobStatus::Assigned => "ASSIGNED",
            JobStatus::Running => "RUNNING",
            JobStatus::Retrying => "RETRYING",
            JobStatus::Succeeded => "SUCCEEDED",
            JobStatus::Failed => "FAILED",
            JobStatus::Cancelled => "CANCELLED",
            JobStatus::Blocked => "BLOCKED",
        }
    }

    pub fn is_terminal(&self) -> (r: bool)
        ensures
            r == self.terminal(),
    {
        match self {
            JobStatus::Succeeded | JobStatus::Failed | JobStatus::Cancelled => true,
            _ => false,
        }
    }

    /// The status named exactly `name` (already in upper case), if any.
    pub fn from_uppercase_name(name: &str) -> (r: Option<JobStatus>)
        ensures
            r == JobStatus::from_name(name@),
    {
        if str_eq(name, "QUEUED") {
            Some(JobStatus::Queued)
        } else if str_eq(name, "ASSIGNED") {
            Some(JobStatus::Assigned)
        } else if str_eq(name, "RUNNING") {
            Some(JobStatus::Running)
        } else if str_eq(name, "RETRYING") {
            Some(JobStatus::Retrying)
        } else if str_eq(name, "SUCCEEDED") {
            Some(JobStatus::Succeeded)
        } else if str_eq(name, "FAILED") {
            Some(JobStatus::Failed)
        } else if str_eq(name, "CANCELLED") {
            Some(JobStatus::Cancelled)
        } else if str_eq(name, "BLOCKED") {
            Some(JobStatus::Blocked)
        } else {
            None
        }
    }

    /// Each status name is written in the capital letters `A` to `Z`.
    pub proof fn lemma_name_in_capitals(self)
        ensures
            ascii_capitals(self.name()),
    {
        reveal_strlit("QUEUED");
        reveal_strlit("ASSIGNED");
        reveal_strlit("RUNNING");
        reveal_strlit("RETRYING");
        reveal_strlit("SUCCEEDED");
        reveal_strlit("FAILED");
        reveal_strlit("CANCELLED");
        reveal_strlit("BLOCKED");
    }

    /// Reads a status name in any letter case: the name is upper-cased and
    /// then matched exactly; an unknown name is an error that quotes it.
    /// The name a status is written under reads back as that status.
    pub fn parse(s: &str) -> (r: Result<JobStatus, String>)
        ensures
            match JobStatus::from_name(str_to_uppercase(s@)) {
                Some(st) => r == Ok::<JobStatus, String>(st),
                None => r matches Err(msg) && msg@ == "Unknown job status: "@ + str_to_uppercase(s@),
            },
            forall|st: JobStatus| #[trigger] st.name() == s@ ==> r == Ok::<JobStatus, String>(st),
    {
        let upper = to_uppercase(s);
        proof {
            assert forall|st: JobStatus| #[trigger] st.name() == s@ implies JobStatus::from_name(
                str_to_uppercase(s@),
            ) == Some(st) by {
                st.lemma_name_in_capitals();
                crate::laws::law_names_read_back(st, Priority::Normal);
            }
        }
        match JobStatus::from_uppercase_name(upper.as_str()) {
            Some(st) => Ok(st),
            None => {
                let mut msg = String::from_str("Unknown job status: ");
                msg.append(upper.as_str());
                Err(msg)
            },
        }
    }
}

impl std::str::FromStr for JobStatus {
    type Err = String;

    /// Reads a status name in any letter case (see `JobStatus::parse`).
    fn from_str(s: &str) -> (r: Result<JobStatus, String>)
        ensures
            match JobStatus::from_name(str_to_uppercase(s@)) {
                Some(st) => r == Ok::<JobStatus, String>(st),
                None => r matches Err(msg) && msg@ == "Unknown job status: "@ + str_to_uppercase(s@),
            },
            forall|st: JobStatus| #[trigger] st.name() == s@ ==> r == Ok::<JobStatus, String>(st),
    {
        JobStatus::parse(s)
    }
}

/// How urgently a job wants to run.
#[derive(Clone, Copy, Debug, PartialEq, Eq, PartialOrd, Ord, Structural)]
pub enum Priority {
    Low,
    Normal,
    High,
    Critical,
}

impl Priority {
    /// The number that stands for a priority.
    pub open spec fn value(self) -> int {
        match self {
            Priority::Low => 1,
            Priority::Normal => 2,
            Priority::High => 3,
            Priority::Critical => 4,
        }
    }

    /// The priority a stored number stands for; unknown numbers read as Normal.
    pub open spec fn from_value(v: i32) -> Priority {
        if v == 1 {
            Priority::Low
        } else if v == 3 {
            Priority::High
        } else if v == 4 {
            Priority::Critical
        } else {
            Priority::Normal
        }
    }

    /// The priority named exactly `s` (lower case), if any.
    pub open spec fn from_name(s: Seq<char>) -> Option<Priority> {
        if s == "low"@ {
            Some(Priority::Low)
        } else if s == "normal"@ {
            Some(Priority::Normal)
        } else if s == "high"@ {
            Some(Priority::High)
        } else if s == "critical"@ {
            Some(Priority::Critical)
        } else {
            None
        }
    }

    /// The name a priority is shown and read under.
    pub open spec fn display_name(self) -> Seq<char> {
        match self {
            Priority::Low => "low"@,
            Priority::Normal => "normal"@,
            Priority::High => "high"@,
            Priority::Critical => "critical"@,
        }
    }

    /// The name a priority is shown under (see `display_name`).
    pub fn name_str(&self) -> (r: &'static str)
        ensures
            r@ == self.display_name(),
    {
        match self {
            Priority::Low => "low",
            Priority::Normal => "normal",
            Priority::High => "high",
            Priority::Critical => "critical",
        }
    }

    pub fn as_i32(&self) -> (r: i32)
        ensures
            r == self.value(),
    {
        match self {
            Priority::Low => 1,
            Priority::Normal => 2,
            Priority::High => 3,
            Priority::Critical => 4,
        }
    }

    pub fn from_i32(val: i32) -> (r: Priority)
        ensures
            r == Priority::from_value(val),
    {
        if val == 1 {
            Priority::Low
        } else if val == 3 {
            Priority::High
        } else if val == 4 {
            Priority::Critical
        } else {
            Priority::Normal
        }
    }

    /// The priority named exactly `name` (already in lower case), if any.
    pub fn from_lowercase_name(name: &str) -> (r: Option<Priority>)
        ensures
            r == Priority::from_name(name@),
    {
        if str_eq(name, "low") {
            Some(Priority::Low)
        } else if str_eq(name, "normal") {
            Some(Priority::Normal)
        } else if str_eq(name, "high") {
            Some(Priority::High)
        } else if str_eq(name, "critical") {
            Some(Priority::Critical)
        } else {
            None
        }
    }

    /// Each priority name is written in the small letters `a` to `z`.
    pub proof fn lemma_name_in_small_letters(self)
        ensures
            ascii_small_letters(self.display_name()),
    {
        reveal_strlit("low");
        reveal_strlit("normal");
        reveal_strlit("high");
        reveal_strlit("critical");
    }

    /// Reads a priority name in any letter case: the name is lower-cased and
    /// then matched exactly; an unknown name is an error that quotes it.
    /// The name a priority is shown under reads back as that priority.
    pub fn parse(s: &str) -> (r: Result<Priority, String>)
        ensures
            match Priority::from_name(str_to_lowercase(s@)) {
                Some(p) => r == Ok::<Priority, String>(p),
                None => r matches Err(msg) && msg@ == "Unknown priority: "@ + str_to_lowercase(s@),
            },
            forall|p: Priority| #[trigger] p.display_name() == s@ ==> r == Ok::<Priority, String>(p),
    {
        let lower = to_lowercase(s);
        proof {
            assert forall|p: Priority| #[trigger] p.display_name() == s@ implies Priority::from_name(
                str_to_lowercase(s@),
            ) == Some(p) by {
                p.lemma_name_in_small_letters();
                crate::laws::law_names_read_back(JobStatus::Queued, p);
            }
        }
        match Priority::from_lowercase_name(lower.as_str()) {
            Some(p) => Ok(p),
            None => {
                let mut msg = String::from_str("Unknown priority: ");
                msg.append(lower.as_str());
                Err(msg)
            },
        }
    }

    /// The aging score, in units of 1/120 of a priority point: the priority
    /// value plus half a point for every full minute (counted in whole
    /// seconds) the job has waited. Waiting counts as zero when `now` is
    /// not after `created_at`.
    pub open spec fn aging_score(self, created_at: i64, now: i64) -> int {
        120 * self.value() + if now > created_at {
            (now - created_at) / 1000
        } else {
            0
        }
    }

    /// The aging score of a job of this priority created at `created_at`,
    /// seen at `now` (see `aging_score`).
    pub fn scaled_score(&self, created_at: i64, now: i64) -> (r: i64)
        ensures
            r == self.aging_score(created_at, now),
    {
        let base: i64 = 120 * (self.as_i32() as i64);
        if now > created_at {
            let waited: i128 = (now as i128) - (created_at as i128);
            let secs: i128 = waited / 1000;
            assert(secs <= 18446744073709552) by (nonlinear_arith)
                requires
                    secs == waited / 1000,
                    waited <= 18446744073709551615,
                    waited > 0,
            ;
            (base as i128 + secs) as i64
        } else {
            base
        }
    }
}

impl std::str::FromStr for Priority {
    type Err = String;

    /// Reads a priority name in any letter case (see `Priority::parse`).
    fn from_str(s: &str) -> (r: Result<Priority, String>)
        ensures
            match Priority::from_name(str_to_lowercase(s@)) {
                Some(p) => r == Ok::<Priority, String>(p),
                None => r matches Err(msg) && msg@ == "Unknown priority: "@ + str_to_lowercase(s@),
            },
            forall|p: Priority| #[trigger] p.display_name() == s@ ==> r == Ok::<Priority, String>(p),
    {
        Priority::parse(s)
    }
}

pub fn default_cpu() -> (r: u32)
    ensures
        r == 1,
{
    1
}

pub fn default_mem() -> (r: u64)
    ensures
        r == 512,
{
    512
}

pub fn default_priority() -> (r: Priority)
    ensures
        r == Priority::Normal,
{
    Priority::Normal
}

pub fn default_max_retries() -> (r: u32)
    ensures
        r == 3,
{
    3
}

pub fn default_max_jobs() -> (r: usize)
    ensures
        r == 1,
{
    1
}

/// A resource profile: CPUs, memory and labels. It describes both what a
/// job needs and what a worker offers.
pub struct ResourcesView {
    pub cpus: u32,
    pub memory_mb: u64,
    pub labels: Map<Seq<char>, Seq<char>>,
}

/// Whether an offer covers a need: enough CPUs, enough memory, and every
/// required label present with the required value.
pub open spec fn covers(offer: ResourcesView, need: ResourcesView) -> bool {
    &&& offer.cpus >= need.cpus
    &&& offer.memory_mb >= need.memory_mb
    &&& forall|k: Seq<char>|
        #[trigger] need.labels.contains_key(k) ==> offer.labels.contains_key(k) && offer.labels[k]
            == need.labels[k]
}

/// What a job needs to run.
#[derive(Debug)]
pub struct ResourceRequirements {
    pub cpus: u32,
    pub memory_mb: u64,
    pub labels: StringMap,
}

impl View for ResourceRequirements {
    type V = ResourcesView;

    open spec fn view(&self) -> ResourcesView {
        ResourcesView { cpus: self.cpus, memory_mb: self.memory_mb, labels: self.labels@ }
    }
}

impl Default for ResourceRequirements {
    fn default() -> (r: ResourceRequirements)
        ensures
            r.cpus == 1,
            r.memory_mb == 512,
            r.labels@ == Map::<Seq<char>, Seq<char>>::empty(),
    {
        ResourceRequirements { cpus: 1, memory_mb: 512, labels: StringMap::new() }
    }
}

impl Clone for ResourceRequirements {
    fn clone(&self) -> (r: Self)
        ensures
            r@ == self@,
    {
        ResourceRequirements {
            cpus: self.cpus,
            memory_mb: self.memory_mb,
            labels: self.labels.clone(),
        }
    }
}

/// What a worker can take on.
#[derive(Debug)]
pub struct WorkerCapacity {
    pub cpus: u32,
    pub memory_mb: u64,
    pub labels: StringMap,
}

impl View for WorkerCapacity {
    type V = ResourcesView;

    open spec fn view(&self) -> ResourcesView {
        ResourcesView { cpus: self.cpus, memory_mb: self.memory_mb, labels: self.labels@ }
    }
}

impl Clone for WorkerCapacity {
    fn clone(&self) -> (r: Self)
        ensures
            r@ == self@,
    {
        WorkerCapacity { cpus: self.cpus, memory_mb: self.memory_mb, labels: self.labels.clone() }
    }
}

impl WorkerCapacity {
    /// Whether this capacity covers the requirements.
    pub fn satisfies(&self, reqs: &ResourceRequirements) -> (r: bool)
        ensures
            r == covers(self@, reqs@),
    {
        resources_fit(self.cpus, self.memory_mb, &self.labels, reqs)
    }
}

/// Whether `cpus` CPUs, `memory_mb` of memory and the `labels` cover the
/// requirements.
pub fn resources_fit(cpus: u32, memory_mb: u64, labels: &StringMap, reqs: &ResourceRequirements) -> (r: bool)
    ensures
        r == covers(ResourcesView { cpus, memory_mb, labels: labels@ }, reqs@),
{
    let ghost offer = ResourcesView { cpus, memory_mb, labels: labels@ };
    if cpus < reqs.cpus || memory_mb < reqs.memory_mb {
        return false;
    }
    let entries = reqs.labels.entries();
    proof {
        lemma_entries_map(entries@);
    }
    let mut i: usize = 0;
    while i < entries.len()
        invariant
            i <= entries@.len(),
            keys_distinct(entries@),
            entries_map(entries@) == reqs.labels@,
            forall|j: int|
                0 <= j < i ==> labels@.contains_key(#[trigger] entries@[j].0@) && labels@[entries@[j].0@]
                    == entries@[j].1@,
        decreases entries@.len() - i,
    {
        let (k, v) = &entries[i];
        proof {
            lemma_entries_map(entries@);
        }
        match labels.get(k.as_str()) {
            Some(found) => {
                if !(*found == *v) {
                    proof {
                        let key = entries@[i as int].0@;
                        assert(k@ == key);
                        assert(v@ == entries@[i as int].1@);
                        assert(reqs.labels@.contains_key(key));
                        assert(reqs.labels@[key] == v@);
                        assert(labels@[key] != reqs.labels@[key]);
                        assert(reqs@.labels.contains_key(key));
                    }
                    return false;
                }
            },
            None => {
                proof {
                    let key = entries@[i as int].0@;
                    assert(k@ == key);
                    assert(reqs.labels@.contains_key(key));
                    assert(!labels@.contains_key(key));
                    assert(reqs@.labels.contains_key(key));
                }
                return false;
            },
        }
        i = i + 1;
    }
    proof {
        assert forall|k: Seq<char>| #[trigger] reqs.labels@.contains_key(k) implies labels@.contains_key(k)
            && labels@[k] == reqs.labels@[k] by {
            let j = choose|j: int| 0 <= j < entries@.len() && entries@[j].0@ == k;
            assert(labels@.contains_key(entries@[j].0@));
        }
    }
    true
}

/// Whether a worker is taking work.
#[derive(Clone, Copy, Debug, PartialEq, Eq, Structural)]
pub enum WorkerStatus {
    Active,
    Unavailable,
    Dead,
}

impl WorkerStatus {
    pub open spec fn name(self) -> Seq<char> {
        match self {
            WorkerStatus::Active => "ACTIVE"@,
            WorkerStatus::Unavailable => "UNAVAILABLE"@,
            WorkerStatus::Dead => "DEAD"@,
        }
    }

    pub fn as_str(&self) -> (r: &'static str)
        ensures
            r@ == self.name(),
    {
        match self {
            WorkerStatus::Active => "ACTIVE",
            WorkerStatus::Unavailable => "UNAVAILABLE",
            WorkerStatus::Dead => "DEAD",
        }
    }
}

/// A copy of an optional string.
pub fn clone_opt_string(o: &Option<String>) -> (r: Option<String>)
    ensures
        r.deep_view() == o.deep_view(),
{
    match o {
        Some(s) => Some(s.clone()),
        None => None,
    }
}

/// A copy of a list of strings.
pub fn clone_strings(v: &Vec<String>) -> (r: Vec<String>)
    ensures
        r.deep_view() == v.deep_view(),
{
    let mut r: Vec<String> = Vec::new();
    let mut i: usize = 0;
    while i < v.len()
        invariant
            i <= v@.len(),
            r@.len() == i,
            forall|j: int| 0 <= j < i ==> r@[j]@ == v@[j]@,
        decreases v@.len() - i,
    {
        r.push(v[i].clone());
        i = i + 1;
    }
    assert(r.deep_view() =~= v.deep_view());
    r
}

/// A job as the store keeps it.
#[verifier::ext_equal]
pub struct JobView {
    pub id: Seq<char>,
    pub name: Option<Seq<char>>,
    pub command: Seq<char>,
    pub args: Seq<Seq<char>>,
    pub cwd: Option<Seq<char>>,
    pub env: Map<Seq<char>, Seq<char>>,
    pub priority: Priority,
    pub status: JobStatus,
    pub max_retries: u32,
    pub retry_count: u32,
    pub timeout_seconds: Option<u64>,
    pub resources: ResourcesView,
    pub depends_on: Seq<Seq<char>>,
    pub worker_id: Option<Seq<char>>,
    pub current_attempt_id: Option<Seq<char>>,
    pub created_at: i64,
    pub started_at: Option<i64>,
    pub completed_at: Option<i64>,
    pub lease_expires_at: Option<i64>,
    pub next_retry_at: Option<i64>,
    pub exit_code: Option<i32>,
    pub stdout: Option<Seq<char>>,
    pub stderr: Option<Seq<char>>,
    pub runtime_ms: Option<u64>,
}

/// A job: a shell command with its settings and its progress.
#[derive(Debug)]
pub struct Job {
    pub id: String,
    pub name: Option<String>,
    pub command: String,
    pub args: Vec<String>,
    pub cwd: Option<String>,
    pub env: StringMap,
    pub priority: Priority,
    pub status: JobStatus,
    pub max_retries: u32,
    pub retry_count: u32,
    pub timeout_seconds: Option<u64>,
    pub resources: ResourceRequirements,
    pub depends_on: Vec<String>,
    pub worker_id: Option<String>,
    pub current_attempt_id: Option<String>,
    pub created_at: i64,
    pub started_at: Option<i64>,
    pub completed_at: Option<i64>,
    pub lease_expires_at: Option<i64>,
    pub next_retry_at: Option<i64>,
    pub exit_code: Option<i32>,
    pub stdout: Option<String>,
    pub stderr: Option<String>,
    pub runtime_ms: Option<u64>,
}

impl View for Job {
    type V = JobView;

    open spec fn view(&self) -> JobView {
        JobView {
            id: self.id@,
            name: self.name.deep_view(),
            command: self.command@,
            args: self.args.deep_view(),
            cwd: self.cwd.deep_view(),
            env: self.env@,
            priority: self.priority,
            status: self.status,
            max_retries: self.max_retries,
            retry_count: self.retry_count,
            timeout_seconds: self.timeout_seconds,
            resources: self.resources@,
            depends_on: self.depends_on.deep_view(),
            worker_id: self.worker_id.deep_view(),
            current_attempt_id: self.current_attempt_id.deep_view(),
            created_at: self.created_at,
            started_at: self.started_at,
            completed_at: self.completed_at,
            lease_expires_at: self.lease_expires_at,
            next_retry_at: self.next_retry_at,
            exit_code: self.exit_code,
            stdout: self.stdout.deep_view(),
            stderr: self.stderr.deep_view(),
            runtime_ms: self.runtime_ms,
        }
    }
}

impl Clone for Job {
    fn clone(&self) -> (r: Self)
        ensures
            r@ == self@,
    {
        let r = Job {
            id: self.id.clone(),
            name: clone_opt_string(&self.name),
            command: self.command.clone(),
            args: clone_strings(&self.args),
            cwd: clone_opt_string(&self.cwd),
            env: self.env.clone(),
            priority: self.priority,
            status: self.status,
            max_retries: self.max_retries,
            retry_count: self.retry_count,
            timeout_seconds: self.timeout_seconds,
            resources: self.resources.clone(),
            depends_on: clone_strings(&self.depends_on),
            worker_id: clone_opt_string(&self.worker_id),
            current_attempt_id: clone_opt_string(&self.current_attempt_id),
            created_at: self.created_at,
            started_at: self.started_at,
            completed_at: self.completed_at,
            lease_expires_at: self.lease_expires_at,
            next_retry_at: self.next_retry_at,
            exit_code: self.exit_code,
            stdout: clone_opt_string(&self.stdout),
            stderr: clone_opt_string(&self.stderr),
            runtime_ms: self.runtime_ms,
        };
        assert(r@ =~= self@);
        r
    }
}

/// One try at running a job, on one worker.
#[verifier::ext_equal]
pub struct AttemptView {
    pub id: Seq<char>,
    pub job_id: Seq<char>,
    pub attempt_number: u32,
    pub worker_id: Seq<char>,
    pub status: Seq<char>,
    pub started_at: i64,
    pub completed_at: Option<i64>,
    pub exit_code: Option<i32>,
    pub runtime_ms: Option<u64>,
    pub error: Option<Seq<char>>,
}

/// One try at running a job, on one worker.
#[derive(Debug)]
pub struct JobAttempt {
    pub id: String,
    pub job_id: String,
    pub attempt_number: u32,
    pub worker_id: String,
    pub status: String,
    pub started_at: i64,
    pub completed_at: Option<i64>,
    pub exit_code: Option<i32>,
    pub runtime_ms: Option<u64>,
    pub error: Option<String>,
}

impl View for JobAttempt {
    type V = AttemptView;

    open spec fn view(&self) -> AttemptView {
        AttemptView {
            id: self.id@,
            job_id: self.job_id@,
            attempt_number: self.attempt_number,
            worker_id: self.worker_id@,
            status: self.status@,
            started_at: self.started_at,
            completed_at: self.completed_at,
            exit_code: self.exit_code,
            runtime_ms: self.runtime_ms,
            error: self.error.deep_view(),
        }
    }
}

impl Clone for JobAttempt {
    fn clone(&self) -> (r: Self)
        ensures
            r@ == self@,
    {
        let r = JobAttempt {
            id: self.id.clone(),
            job_id: self.job_id.clone(),
            attempt_number: self.attempt_number,
            worker_id: self.worker_id.clone(),
            status: self.status.clone(),
            started_at: self.started_at,
            completed_at: self.completed_at,
            exit_code: self.exit_code,
            runtime_ms: self.runtime_ms,
            error: clone_opt_string(&self.error),
        };
        assert(r@ =~= self@);
        r
    }
}

/// A worker as the store keeps it.
#[verifier::ext_equal]
pub struct WorkerView {
    pub id: Seq<char>,
    pub cpus: u32,
    pub memory_mb: u64,
    pub labels: Map<Seq<char>, Seq<char>>,
    pub status: WorkerStatus,
    pub active_jobs: u32,
    pub last_heartbeat: i64,
    pub registered_at: i64,
}

/// A worker process that pulls jobs from the scheduler.
#[derive(Debug)]
pub struct Worker {
    pub id: String,
    pub cpus: u32,
    pub memory_mb: u64,
    pub labels: StringMap,
    pub status: WorkerStatus,
    pub active_jobs: u32,
    pub last_heartbeat: i64,
    pub registered_at: i64,
}

impl View for Worker {
    type V = WorkerView;

    open spec fn view(&self) -> WorkerView {
        WorkerView {
            id: self.id@,
            cpus: self.cpus,
            memory_mb: self.memory_mb,
            labels: self.labels@,
            status: self.status,
            active_jobs: self.active_jobs,
            last_heartbeat: self.last_heartbeat,
            registered_at: self.registered_at,
        }
    }
}

impl Clone for Worker {
    fn clone(&self) -> (r: Self)
        ensures
            r@ == self@,
    {
        let r = Worker {
            id: self.id.clone(),
            cpus: self.cpus,
            memory_mb: self.memory_mb,
            labels: self.labels.clone(),
            status: self.status,
            active_jobs: self.active_jobs,
            last_heartbeat: self.last_heartbeat,
            registered_at: self.registered_at,
        };
        assert(r@ =~= self@);
        r
    }
}

/// A lease as the store keeps it.
#[verifier::ext_equal]
pub struct LeaseView {
    pub job_id: Seq<char>,
    pub attempt_id: Seq<char>,
    pub worker_id: Seq<char>,
    pub expires_at: i64,
}

/// The right of one attempt, on one worker, to run a job until a deadline.
#[derive(Debug)]
pub struct Lease {
    pub job_id: String,
    pub attempt_id: String,
    pub worker_id: String,
    pub expires_at: i64,
}

impl View for Lease {
    type V = LeaseView;

    open spec fn view(&self) -> LeaseView {
        LeaseView {
            job_id: self.job_id@,
            attempt_id: self.attempt_id@,
            worker_id: self.worker_id@,
            expires_at: self.expires_at,
        }
    }
}

impl Clone for Lease {
    fn clone(&self) -> (r: Self)
        ensures
            r@ == self@,
    {
        Lease {
            job_id: self.job_id.clone(),
            attempt_id: self.attempt_id.clone(),
            worker_id: self.worker_id.clone(),
            expires_at: self.expires_at,
        }
    }
}

/// A request to run a command.
#[derive(Debug)]
pub struct SubmitJobRequest {
    pub command: String,
    pub args: Vec<String>,
    pub cwd: Option<String>,
    pub env: StringMap,
    pub priority: Priority,
    pub max_retries: u32,
    pub timeout_seconds: Option<u64>,
    pub resources: ResourceRequirements,
    pub depends_on: Vec<String>,
    pub name: Option<String>,
}

/// Several submissions at once.
#[derive(Debug)]
pub struct BatchSubmitRequest {
    pub jobs: Vec<SubmitJobRequest>,
}

#[derive(Debug)]
pub struct SubmitJobResponse {
    pub job_id: String,
    pub status: JobStatus,
}

#[derive(Debug)]
pub struct BatchSubmitResponse {
    pub job_ids: Vec<String>,
    pub count: usize,
}

#[derive(Debug)]
pub struct WorkerRegisterRequest {
    pub worker_id: String,
    pub cpus: u32,
    pub memory_mb: u64,
    pub labels: StringMap,
}

/// A worker asks for work that fits what it has free.
#[derive(Debug)]
pub struct WorkerPollRequest {
    pub available_cpus: u32,
    pub available_memory_mb: u64,
    pub labels: StringMap,
    pub max_jobs: usize,
}

/// A job handed to a worker, with the attempt it runs under.
#[derive(Debug)]
pub struct AssignedJob {
    pub job: Job,
    pub attempt_id: String,
    pub lease_duration_seconds: u64,
}

#[derive(Debug)]
pub struct WorkerPollResponse {
    pub jobs: Vec<AssignedJob>,
}

#[derive(Debug)]
pub struct RenewLeaseRequest {
    pub attempt_id: String,
    pub duration_seconds: Option<u64>,
}

#[derive(Debug)]
pub struct RenewLeaseResponse {
    pub status: String,
    pub new_expires_at: i64,
}

/// A worker reports how an attempt ended.
#[derive(Debug)]
pub struct CompleteJobRequest {
    pub attempt_id: String,
    pub exit_code: i32,
    pub stdout: String,
    pub stderr: String,
    pub runtime_ms: u64,
}

#[derive(Debug)]
pub struct CompleteJobResponse {
    pub status: String,
    pub message: Option<String>,
}

/// Counts of jobs by state, of workers, and of active leases.
#[derive(Clone, Copy, Debug, PartialEq, Eq, Structural)]
pub struct MetricsResponse {
    pub jobs_queued: usize,
    pub jobs_assigned: usize,
    pub jobs_running: usize,
    pub jobs_retrying: usize,
    pub jobs_succeeded: usize,
    pub jobs_failed: usize,
    pub jobs_cancelled: usize,
    pub jobs_blocked: usize,
    pub total_jobs: usize,
    pub workers_active: usize,
    pub workers_unavailable: usize,
    pub workers_total: usize,
    pub active_leases: usize,
}

} // verus!
