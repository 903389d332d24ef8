use coresched::ids::{jid_string, next_jid, room_for_id};
use coresched::paths::{
    home_dir, job_output_path, job_progress_path, jobs_dir, lock_path, state_dir, state_path,
};
use coresched::state::{
    default_reserved_physical_cores, normalize_reserved_physical_cores, read_reserved_cores,
    CoreschedState, JobEntry, JobPriority, ReservedCoresError, ReservedValue,
};
use coresched::topology;

#[test]
fn test_default_state() {
    let s = CoreschedState::default();
    let expected_cores = topology::num_physical_cores();
    let expected_cpus = topology::num_logical_cpus();
    assert_eq!(s.cfd.len(), expected_cores);
    assert!((0..expected_cores).all(|i| !*s.cfd.value_at(i)));
    assert_eq!(s.cpus.len(), expected_cpus);
    assert!((0..expected_cpus).all(|i| s.cpus.value_at(i).is_none()));
    assert_eq!(s.next_jid, 1);
    assert_eq!(s.reserved_cores(), topology::default_reserved_cores());
}

#[test]
fn test_next_jid() {
    let mut s = CoreschedState::default();
    let existing: Vec<String> = Vec::new();
    let first = next_jid(&mut s, &existing);
    let second = next_jid(&mut s, &existing);
    assert_ne!(first, second);
    assert!(second > first);
    assert!(s.next_jid >= 3);
}

fn stored_reservation(json: &str) -> ReservedValue {
    let value: serde_json::Value = serde_json::from_str(json).unwrap();
    let field = value
        .get("reserved_physical_cores")
        .or_else(|| value.get("reserved_physical_core"))
        .unwrap();
    if field.is_null() {
        ReservedValue::Null
    } else if field.is_number() {
        ReservedValue::Number(field.as_u64())
    } else if let Some(list) = field.as_array() {
        ReservedValue::List(list.iter().map(|v| v.as_u64()).collect())
    } else {
        ReservedValue::Other
    }
}

fn state_with(json: &str) -> CoreschedState {
    let mut state = CoreschedState::default();
    state.reserved_physical_cores = read_reserved_cores(&stored_reservation(json)).unwrap();
    state
}

#[test]
fn test_legacy_single_reserved_core_migrates_to_collection() {
    let state = state_with(r#"{"reserved_physical_core":7,"next":1}"#);
    assert_eq!(state.reserved_cores(), vec![7]);
}

#[test]
fn test_legacy_empty_reservation_adopts_configured_default() {
    let state = state_with(r#"{"reserved_physical_core":null,"next":1}"#);
    assert_eq!(state.reserved_cores(), topology::default_reserved_cores());
}

#[test]
fn test_explicit_empty_reservation_stays_cleared() {
    let state = state_with(r#"{"reserved_physical_cores":[],"next":1}"#);
    assert!(state.reserved_cores().is_empty());
}

#[test]
fn test_legacy_job_defaults_to_priority_zero() {
    let legacy = r#"{
        "jid": "j0001",
        "type": "py",
        "need": 1,
        "pid": null,
        "submit": null,
        "start": null,
        "cmd": null,
        "output": null,
        "cores": null,
        "cpus": null
    }"#;
    let value: serde_json::Value = serde_json::from_str(legacy).unwrap();
    let priority = match value.get("priority").and_then(|v| v.as_str()) {
        Some(label) => JobPriority::from_label(label).unwrap(),
        None => JobPriority::default(),
    };
    assert_eq!(priority, JobPriority::P0);
}

#[test]
fn test_priority_serializes_as_numeric_and_accepts_previous_labels() {
    assert_eq!(
        serde_json::to_string(JobPriority::P2.as_str()).unwrap(),
        "\"2\""
    );
    assert_eq!(
        JobPriority::from_label(&serde_json::from_str::<String>("\"normal\"").unwrap()).unwrap(),
        JobPriority::P0
    );
    assert_eq!(
        JobPriority::from_label(&serde_json::from_str::<String>("\"high\"").unwrap()).unwrap(),
        JobPriority::P2
    );
}

#[test]
fn labels_read_back() {
    for p in [JobPriority::P0, JobPriority::P1, JobPriority::P2, JobPriority::P3] {
        assert_eq!(JobPriority::from_label(p.as_str()), Some(p));
    }
    assert_eq!(JobPriority::from_label("low"), Some(JobPriority::P0));
    assert_eq!(JobPriority::from_label("4"), None);
    assert_eq!(JobPriority::from_str("1"), Ok(JobPriority::P1));
    assert_eq!(
        JobPriority::from_str("3"),
        Err("priority must be 0, 1, or 2".to_string())
    );
    assert_eq!(
        JobPriority::from_str(""),
        Err("priority must be 0, 1, or 2".to_string())
    );
}

#[test]
fn stored_reservations_that_are_wrong() {
    let read = |json: &str| read_reserved_cores(&stored_reservation(json));
    assert_eq!(
        read(r#"{"reserved_physical_core":256}"#),
        Err(ReservedCoresError::CoreNotInteger)
    );
    assert_eq!(
        read(r#"{"reserved_physical_core":1.5}"#),
        Err(ReservedCoresError::CoreNotInteger)
    );
    assert_eq!(
        read(r#"{"reserved_physical_cores":[1,-2]}"#),
        Err(ReservedCoresError::CoresNotIntegers)
    );
    assert_eq!(
        read(r#"{"reserved_physical_cores":"6"}"#),
        Err(ReservedCoresError::WrongShape)
    );
    assert_eq!(
        ReservedCoresError::CoreNotInteger.message(),
        "reserved physical core must be an integer"
    );
    assert_eq!(
        ReservedCoresError::CoresNotIntegers.message(),
        "reserved physical cores must be integers"
    );
    assert_eq!(
        ReservedCoresError::WrongShape.message(),
        "reserved physical cores must be an integer or an array of integers"
    );
    assert_eq!(read(r#"{"reserved_physical_cores":[7,9,7,0]}"#), Ok(vec![7, 0]));
}

#[test]
fn normalizing_drops_unknown_cores_and_repetitions() {
    assert_eq!(
        normalize_reserved_physical_cores(&vec![3, 8, 3, 200, 0]),
        vec![3, 0]
    );
    assert_eq!(default_reserved_physical_cores(), vec![6, 7]);
    let mut s = CoreschedState::default();
    s.set_reserved_cores(vec![1, 1, 9]);
    assert_eq!(s.reserved_physical_cores, vec![1]);
}

#[test]
fn migrating_fills_gaps_and_keeps_entries() {
    let mut s = CoreschedState::default();
    s.cfd.remove("3");
    s.cpus.remove("15");
    s.cpus.insert("0".to_string(), Some(true));
    s.reserved_physical_cores = vec![9, 5];
    s.migrate();
    assert_eq!(s.cfd.get("3"), Some(&false));
    assert_eq!(s.cpus.get("15"), Some(&None));
    assert_eq!(s.cpus.get("0"), Some(&Some(true)));
    assert_eq!(s.reserved_physical_cores, vec![5]);
}

fn entry(jid: &str) -> JobEntry {
    JobEntry {
        jid: jid.to_string(),
        job_type: "py".to_string(),
        need: 1,
        pid: None,
        submit: None,
        start: None,
        cmd: None,
        output: None,
        cores: None,
        cpus: None,
        priority: JobPriority::P0,
    }
}

#[test]
fn job_ids_pass_over_what_is_taken() {
    let mut s = CoreschedState::default();
    s.pids.insert("j0001".to_string(), entry("j0001"));
    s.pending.insert("j0002".to_string(), entry("j0002"));
    s.queued.push_back(entry("j0003"));
    let existing = vec!["j0004".to_string()];
    assert_eq!(next_jid(&mut s, &existing), "j0005");
    assert_eq!(s.next_jid, 6);
    assert_eq!(jid_string(7), "j0007");
    assert_eq!(jid_string(12345), "j12345");
}

#[test]
fn job_ids_can_be_handed_out_up_to_the_limit() {
    let mut s = CoreschedState::default();
    let none: Vec<String> = Vec::new();
    assert!(room_for_id(&s, &none));
    s.next_jid = u64::MAX - 1;
    assert!(room_for_id(&s, &none));
    assert!(!room_for_id(&s, &vec![jid_string(u64::MAX - 1)]));
    assert_eq!(next_jid(&mut s, &vec!["j0001".to_string()]), jid_string(u64::MAX - 1));
    assert_eq!(s.next_jid, u64::MAX);
    assert!(!room_for_id(&s, &none));
}

#[test]
fn paths_under_the_home_directory() {
    assert_eq!(home_dir(Some("/home/a".to_string()), None), "/home/a");
    assert_eq!(home_dir(None, Some("/users/b".to_string())), "/users/b");
    assert_eq!(home_dir(None, None), "/tmp");
    assert_eq!(state_dir("/home/a"), "/home/a/.coresched");
    assert_eq!(state_path("/home/a"), "/home/a/.coresched/state.json");
    assert_eq!(lock_path("/home/a"), "/home/a/.coresched/state.lock");
    assert_eq!(jobs_dir("/home/a"), "/home/a/.coresched/jobs");
    assert_eq!(
        job_output_path("/home/a/", "j0001"),
        "/home/a/.coresched/jobs/j0001.out"
    );
    assert_eq!(
        job_progress_path("/home/a", "j0001"),
        "/home/a/.coresched/jobs/j0001.progress.json"
    );
}
