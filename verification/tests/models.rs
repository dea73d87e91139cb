use relay::models::{JobStatus, Priority, ResourceRequirements, WorkerCapacity};
use relay::string_map::StringMap;

#[test]
fn test_priority_score_aging() {
    let low = Priority::Low;
    let high = Priority::High;

    // Immediately, high priority beats low priority
    assert!(high.scaled_score(0, 0) > low.scaled_score(0, 0));

    // After waiting 300 seconds (5 minutes), low priority gains half a point a
    // minute; in units of 1/120 point: Low 120 + 300 = 420 > High at 0 s, 360.
    assert!(low.scaled_score(0, 300_000) > high.scaled_score(0, 0));
}

#[test]
fn test_worker_capacity_matching() {
    let mut worker_labels = StringMap::new();
    worker_labels.insert("arch".to_string(), "x86_64".to_string());
    worker_labels.insert("zone".to_string(), "us-east-1".to_string());

    let cap = WorkerCapacity {
        cpus: 8,
        memory_mb: 16384,
        labels: worker_labels,
    };

    let mut req_labels = StringMap::new();
    req_labels.insert("arch".to_string(), "x86_64".to_string());

    let req_fit = ResourceRequirements {
        cpus: 4,
        memory_mb: 8192,
        labels: req_labels.clone(),
    };
    assert!(cap.satisfies(&req_fit));

    let req_too_many_cpus = ResourceRequirements {
        cpus: 16,
        memory_mb: 8192,
        labels: req_labels.clone(),
    };
    assert!(!cap.satisfies(&req_too_many_cpus));

    let mut wrong_labels = req_labels;
    wrong_labels.insert("gpu".to_string(), "true".to_string());
    let req_missing_label = ResourceRequirements {
        cpus: 4,
        memory_mb: 8192,
        labels: wrong_labels,
    };
    assert!(!cap.satisfies(&req_missing_label));
}

#[test]
fn test_status_parsing() {
    assert_eq!("QUEUED".parse::<JobStatus>().unwrap(), JobStatus::Queued);
    assert_eq!("RUNNING".parse::<JobStatus>().unwrap(), JobStatus::Running);
    assert_eq!("RETRYING".parse::<JobStatus>().unwrap(), JobStatus::Retrying);
    assert_eq!("SUCCEEDED".parse::<JobStatus>().unwrap(), JobStatus::Succeeded);
    assert_eq!("FAILED".parse::<JobStatus>().unwrap(), JobStatus::Failed);
    assert_eq!("CANCELLED".parse::<JobStatus>().unwrap(), JobStatus::Cancelled);
    assert_eq!("BLOCKED".parse::<JobStatus>().unwrap(), JobStatus::Blocked);
}

#[test]
fn status_parsing_ignores_case_and_quotes_unknown_names() {
    assert_eq!("queued".parse::<JobStatus>().unwrap(), JobStatus::Queued);
    assert_eq!("Assigned".parse::<JobStatus>().unwrap(), JobStatus::Assigned);
    assert_eq!(
        "paused".parse::<JobStatus>().unwrap_err(),
        "Unknown job status: PAUSED".to_string()
    );
}

#[test]
fn status_names_and_terminal_states() {
    assert_eq!(JobStatus::Queued.as_str(), "QUEUED");
    assert_eq!(JobStatus::Blocked.as_str(), "BLOCKED");
    assert!(JobStatus::Succeeded.is_terminal());
    assert!(JobStatus::Failed.is_terminal());
    assert!(JobStatus::Cancelled.is_terminal());
    assert!(!JobStatus::Running.is_terminal());
    assert!(!JobStatus::Retrying.is_terminal());
}

#[test]
fn priority_numbers_and_names() {
    assert_eq!(Priority::Low.as_i32(), 1);
    assert_eq!(Priority::Critical.as_i32(), 4);
    assert_eq!(Priority::from_i32(3), Priority::High);
    assert_eq!(Priority::from_i32(7), Priority::Normal);
    assert_eq!("HIGH".parse::<Priority>().unwrap(), Priority::High);
    assert_eq!(
        "urgent".parse::<Priority>().unwrap_err(),
        "Unknown priority: urgent".to_string()
    );
    assert!(Priority::Critical > Priority::Low);
}

#[test]
fn aging_score_counts_whole_seconds() {
    // 120 per priority point, one per second waited.
    assert_eq!(Priority::Normal.scaled_score(1_000, 1_000), 240);
    assert_eq!(Priority::Normal.scaled_score(1_000, 62_999), 240 + 61);
    // A job seen before its creation time has not waited.
    assert_eq!(Priority::Low.scaled_score(5_000, 1_000), 120);
}

#[test]
fn default_requirements() {
    let r = ResourceRequirements::default();
    assert_eq!(r.cpus, 1);
    assert_eq!(r.memory_mb, 512);
    assert!(r.labels.get("anything").is_none());
}

#[test]
fn label_values_must_match() {
    let mut offered = StringMap::new();
    offered.insert("zone".to_string(), "eu".to_string());
    let cap = WorkerCapacity { cpus: 1, memory_mb: 512, labels: offered };
    let mut wanted = StringMap::new();
    wanted.insert("zone".to_string(), "us".to_string());
    let req = ResourceRequirements { cpus: 1, memory_mb: 512, labels: wanted };
    assert!(!cap.satisfies(&req));
    let exact = ResourceRequirements { cpus: 1, memory_mb: 512, labels: StringMap::new() };
    assert!(cap.satisfies(&exact));
}

#[test]
fn string_map_insert_replaces() {
    let mut m = StringMap::new();
    assert_eq!(m.insert("k".to_string(), "a".to_string()), None);
    assert_eq!(m.insert("k".to_string(), "b".to_string()), Some("a".to_string()));
    assert_eq!(m.get("k"), Some(&"b".to_string()));
    assert_eq!(m.entries().len(), 1);
}

#[test]
fn every_name_reads_back() {
    let statuses = [
        JobStatus::Queued,
        JobStatus::Assigned,
        JobStatus::Running,
        JobStatus::Retrying,
        JobStatus::Succeeded,
        JobStatus::Failed,
        JobStatus::Cancelled,
        JobStatus::Blocked,
    ];
    for st in statuses {
        assert_eq!(JobStatus::parse(st.as_str()), Ok(st));
        assert_eq!(st.as_str().parse::<JobStatus>(), Ok(st));
    }
    for p in [Priority::Low, Priority::Normal, Priority::High, Priority::Critical] {
        assert_eq!(Priority::parse(p.name_str()), Ok(p));
        assert_eq!(p.name_str().parse::<Priority>(), Ok(p));
    }
}
