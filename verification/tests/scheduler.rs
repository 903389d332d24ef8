use coresched::outside::Liveness;
use coresched::scheduler::{
    alloc_cfd_for_priority, alloc_py_for_priority, barred_cores, clean_up, dispatch_at,
    eligible_cpus,
    eligible_physical_cores, forbidden_cores, forbidden_cpus, free_job,
    has_higher_priority_pending, has_higher_priority_waiting, needed_for_priority,
    next_queued_job_index, orphan_cleanup, preferred_cores, priority_exclusive_core,
    probe_targets, reserved_physical_cores,
    try_dispatch_one,
};
use coresched::state::{CoreschedState, JobEntry, JobPriority, Timestamp};
use coresched::topology;

fn fresh_state() -> CoreschedState {
    CoreschedState::default()
}

fn cfd(s: &CoreschedState, core: &str) -> bool {
    *s.cfd.get(core).unwrap()
}

fn cpu(s: &CoreschedState, cpu: &str) -> Option<bool> {
    *s.cpus.get(cpu).unwrap()
}

fn now() -> Timestamp {
    Timestamp {
        bits: 1_700_000_000.5f64.to_bits(),
    }
}

#[test]
fn test_alloc_cfd_basic() {
    let mut s = fresh_state();
    let cores = alloc_cfd_for_priority(&mut s, 2, JobPriority::P1);
    assert_eq!(cores.len(), 2);
    assert_eq!(cores[0], 0);
    assert_eq!(cores[1], 1);
    assert!(cfd(&s, "0"));
    assert!(cpu(&s, "0").unwrap());
    assert!(cpu(&s, "8").unwrap());
}

#[test]
fn test_alloc_cfd_exhausted_p2() {
    let mut s = fresh_state();
    let cores = alloc_cfd_for_priority(&mut s, 10, JobPriority::P2);
    assert_eq!(cores.len(), 7);
}

#[test]
fn test_alloc_cfd_exhausted_p3() {
    let mut s = fresh_state();
    let cores = alloc_cfd_for_priority(&mut s, 10, JobPriority::P3);
    assert_eq!(cores.len(), 8);
}

#[test]
fn test_alloc_py_basic() {
    let mut s = fresh_state();
    let cpus = alloc_py_for_priority(&mut s, 4, JobPriority::P1);
    assert_eq!(cpus.len(), 4);
    assert_eq!(cpus, vec![0, 1, 2, 3]);
}

#[test]
fn test_cfd_then_py_no_overlap() {
    let mut s = fresh_state();
    alloc_cfd_for_priority(&mut s, 1, JobPriority::P1);
    let py = alloc_py_for_priority(&mut s, 2, JobPriority::P1);
    assert_eq!(py, vec![1, 2]);
}

#[test]
fn test_free_and_reuse() {
    let mut s = fresh_state();
    let cores = alloc_cfd_for_priority(&mut s, 1, JobPriority::P1);
    let jid = "j0001".to_string();
    s.pids.insert(
        jid.clone(),
        JobEntry {
            jid: jid.clone(),
            job_type: "cfd".into(),
            need: 1,
            pid: None,
            submit: None,
            start: None,
            cmd: None,
            output: None,
            cores: Some(cores),
            cpus: None,
            priority: JobPriority::P1,
        },
    );

    free_job(&mut s, &jid);
    assert!(!cfd(&s, "0"));
    assert!(cpu(&s, "0").is_none());
    assert!(cpu(&s, "8").is_none());
}

#[test]
fn test_needed_for() {
    let mut s = fresh_state();
    alloc_cfd_for_priority(&mut s, 6, JobPriority::P2);
    assert_eq!(needed_for_priority(&s, "cfd", 8, JobPriority::P2), 7);
    assert_eq!(needed_for_priority(&s, "cfd", 4, JobPriority::P2), 3);
    assert_eq!(needed_for_priority(&s, "cfd", 2, JobPriority::P2), 1);
    assert_eq!(needed_for_priority(&s, "cfd", 1, JobPriority::P2), 0);
}

#[test]
fn test_reserved_cores_are_excluded_from_priority_zero_and_one_jobs() {
    let mut s = fresh_state();
    assert_eq!(
        eligible_physical_cores(&s, JobPriority::P1),
        vec![0, 1, 2, 3, 4, 5]
    );
    assert_eq!(needed_for_priority(&s, "py", 12, JobPriority::P1), 0);

    let priority_one_cpus = alloc_py_for_priority(&mut s, 12, JobPriority::P1);
    assert_eq!(priority_one_cpus.len(), 12);
    assert!(!priority_one_cpus.contains(&6));
    assert!(!priority_one_cpus.contains(&7));
    assert!(!priority_one_cpus.contains(&14));
    assert!(!priority_one_cpus.contains(&15));

    let mut s = fresh_state();
    let priority_zero_cpus = alloc_py_for_priority(&mut s, 12, JobPriority::P0);
    assert!(!priority_zero_cpus.contains(&6));
    assert!(!priority_zero_cpus.contains(&7));
    assert!(!priority_zero_cpus.contains(&14));
    assert!(!priority_zero_cpus.contains(&15));
}

#[test]
fn test_p2_prefers_own_exclusive_core_only() {
    let mut s = fresh_state();
    assert_eq!(
        alloc_cfd_for_priority(&mut s, 2, JobPriority::P2),
        vec![6, 0]
    );

    let mut s = fresh_state();
    assert_eq!(
        alloc_py_for_priority(&mut s, 4, JobPriority::P2),
        vec![6, 14, 0, 1]
    );
}

#[test]
fn test_p3_gets_last_core_exclusively() {
    let mut s = fresh_state();
    assert_eq!(
        alloc_cfd_for_priority(&mut s, 2, JobPriority::P3),
        vec![7, 0]
    );

    let mut s = fresh_state();
    assert_eq!(
        alloc_py_for_priority(&mut s, 4, JobPriority::P3),
        vec![7, 15, 0, 1]
    );
}

#[test]
fn test_p3_no_interference_from_p2() {
    let s = fresh_state();
    let p3_eligible = eligible_physical_cores(&s, JobPriority::P3);
    let p2_eligible = eligible_physical_cores(&s, JobPriority::P2);
    assert_eq!(p3_eligible.len(), 8);
    assert_eq!(p2_eligible.len(), 7);
    assert!(!p2_eligible.contains(&(topology::num_physical_cores() as u8 - 1)));
}

#[test]
fn test_cfd_does_not_overlap_existing_python_allocation() {
    let mut s = fresh_state();
    s.cpus.insert("0".to_string(), Some(true));
    let cores = alloc_cfd_for_priority(&mut s, 1, JobPriority::P1);
    assert_eq!(cores, vec![1]);
}

fn queued_job(jid: &str, priority: JobPriority) -> JobEntry {
    JobEntry {
        jid: jid.to_string(),
        job_type: "py".to_string(),
        need: 1,
        pid: None,
        submit: None,
        start: None,
        cmd: None,
        output: None,
        cores: None,
        cpus: None,
        priority,
    }
}

#[test]
fn test_queued_priority_order_p3_first() {
    let mut s = fresh_state();
    s.queued.push_back(queued_job("j0001", JobPriority::P0));
    s.queued.push_back(queued_job("j0002", JobPriority::P1));
    s.queued.push_back(queued_job("j0003", JobPriority::P2));
    s.queued.push_back(queued_job("j0004", JobPriority::P3));
    assert_eq!(next_queued_job_index(&s), Some(3));
}

#[test]
fn test_waiting_higher_priority_run_blocks_lower_queue_dispatch() {
    let mut s = fresh_state();
    s.pending
        .insert("j0001".to_string(), queued_job("j0001", JobPriority::P3));
    s.queued.push_back(queued_job("j0002", JobPriority::P2));
    assert_eq!(next_queued_job_index(&s), None);
}

#[test]
fn test_forbidden_cores() {
    let total = topology::num_physical_cores() as u8;
    assert!(forbidden_cores(JobPriority::P3).is_empty());
    if total >= 1 {
        assert_eq!(forbidden_cores(JobPriority::P2), vec![total - 1]);
    }
    if total >= 2 {
        let mut f = forbidden_cores(JobPriority::P0);
        f.sort();
        assert_eq!(f, vec![total - 2, total - 1]);
    }
}

#[test]
fn exclusive_cores_and_their_cpus() {
    assert_eq!(priority_exclusive_core(JobPriority::P3), Some(7));
    assert_eq!(priority_exclusive_core(JobPriority::P2), Some(6));
    assert_eq!(priority_exclusive_core(JobPriority::P1), None);
    assert_eq!(forbidden_cpus(JobPriority::P1), vec![7, 15, 6, 14]);
    let s = fresh_state();
    assert_eq!(
        eligible_cpus(&s, JobPriority::P2),
        vec![6, 14, 0, 1, 2, 3, 4, 5, 8, 9, 10, 11, 12, 13]
    );
    assert_eq!(reserved_physical_cores(&s), vec![6, 7]);
}

#[test]
fn equal_levels_keep_their_order() {
    let mut s = fresh_state();
    assert_eq!(next_queued_job_index(&s), None);
    s.queued.push_back(queued_job("j0001", JobPriority::P1));
    s.queued.push_back(queued_job("j0002", JobPriority::P2));
    s.queued.push_back(queued_job("j0003", JobPriority::P2));
    assert_eq!(next_queued_job_index(&s), Some(1));
    s.pending
        .insert("j0004".to_string(), queued_job("j0004", JobPriority::P2));
    assert_eq!(next_queued_job_index(&s), Some(1));
}

#[test]
fn a_run_yields_to_higher_levels_but_not_to_itself() {
    let mut s = fresh_state();
    s.pending
        .insert("j0001".to_string(), queued_job("j0001", JobPriority::P2));
    assert!(has_higher_priority_pending(&s, JobPriority::P1, None));
    assert!(!has_higher_priority_pending(&s, JobPriority::P1, Some("j0001")));
    assert!(!has_higher_priority_pending(&s, JobPriority::P2, None));
    s.queued.push_back(queued_job("j0002", JobPriority::P3));
    assert!(has_higher_priority_waiting(&s, JobPriority::P2, None));
    assert!(!has_higher_priority_waiting(&s, JobPriority::P3, None));
}

#[test]
fn a_dispatch_moves_the_job_and_its_end_frees_its_units() {
    let mut s = fresh_state();
    let mut job = queued_job("j0007", JobPriority::P2);
    job.job_type = "cfd".to_string();
    job.need = 2;
    job.cmd = Some("[\"solver\",\"-case\",\"x y\"]".to_string());
    s.queued.push_back(queued_job("j0001", JobPriority::P0));
    s.queued.push_back(job);
    let info = try_dispatch_one(&mut s, now()).unwrap();
    assert_eq!(info.jid, "j0007");
    assert_eq!(info.args, vec!["solver", "-case", "x y"]);
    assert_eq!(info.pin_cpus, vec![6, 14, 0, 8]);
    assert_eq!(s.queued.len(), 1);
    let entry = s.pids.get("j0007").unwrap();
    assert_eq!(entry.cores, Some(vec![6, 0]));
    assert_eq!(entry.start, Some(now()));
    assert!(cfd(&s, "6"));
    assert_eq!(cpu(&s, "8"), Some(true));
    free_job(&mut s, "j0007");
    assert!(!s.pids.contains_key("j0007"));
    assert!(!cfd(&s, "6"));
    assert_eq!(cpu(&s, "8"), None);
}

#[test]
fn a_command_that_is_no_list_is_one_argument() {
    let mut s = fresh_state();
    let mut job = queued_job("j0001", JobPriority::P0);
    job.cmd = Some("echo hi".to_string());
    s.queued.push_back(job);
    let info = try_dispatch_one(&mut s, now()).unwrap();
    assert_eq!(info.args, vec!["echo hi"]);
    assert_eq!(info.cmd, "echo hi");
    assert_eq!(info.pin_cpus, vec![0]);
}

#[test]
fn a_job_that_lacks_units_stays_queued() {
    let mut s = fresh_state();
    let mut job = queued_job("j0001", JobPriority::P0);
    job.need = 13;
    s.queued.push_back(job);
    assert!(try_dispatch_one(&mut s, now()).is_none());
    assert_eq!(s.queued.len(), 1);
    assert!(dispatch_at(&mut s, 0, None, now()).is_none());
    assert_eq!(s.queued.len(), 1);
}

#[test]
fn a_job_of_unknown_kind() {
    let mut s = fresh_state();
    let mut job = queued_job("j0001", JobPriority::P0);
    job.job_type = "gpu".to_string();
    assert_eq!(needed_for_priority(&s, "gpu", 3, JobPriority::P0), 3);
    s.queued.push_back(job);
    assert!(try_dispatch_one(&mut s, now()).is_none());
    assert_eq!(s.queued.len(), 1);
    s.queued[0].need = 0;
    assert!(try_dispatch_one(&mut s, now()).is_none());
    assert_eq!(s.queued.len(), 1);
    assert_eq!(s.pids.len(), 0);
}

#[test]
fn a_job_that_asks_for_more_than_a_byte_holds_stays_queued() {
    for need in [256, 257, 512, u64::MAX] {
        let mut s = fresh_state();
        let mut job = queued_job("j0001", JobPriority::P2);
        job.need = need;
        s.queued.push_back(job);
        assert!(try_dispatch_one(&mut s, now()).is_none());
        assert_eq!(s.queued.len(), 1);
        assert_eq!(s.queued[0].need, need);
        assert_eq!(s.pids.len(), 0);
        s.queued[0].job_type = "cfd".to_string();
        assert!(dispatch_at(&mut s, 0, None, now()).is_none());
        assert_eq!(s.queued.len(), 1);
    }
}

#[test]
fn a_reservation_closes_cores_to_low_levels() {
    let mut s = fresh_state();
    s.set_reserved_cores(vec![0, 1]);
    for level in [JobPriority::P0, JobPriority::P1] {
        assert_eq!(eligible_physical_cores(&s, level), vec![2, 3, 4, 5]);
        assert_eq!(eligible_cpus(&s, level), vec![2, 3, 4, 5, 10, 11, 12, 13]);
        assert_eq!(barred_cores(&s, level), vec![7, 6, 0, 1]);
        assert_eq!(preferred_cores(&s, level), Vec::<u8>::new());
        assert_eq!(needed_for_priority(&s, "cfd", 5, level), 1);
    }
    assert_eq!(alloc_cfd_for_priority(&mut s, 8, JobPriority::P0), vec![2, 3, 4, 5]);
    assert_eq!(alloc_py_for_priority(&mut s, 1, JobPriority::P1), Vec::<u8>::new());
    assert_eq!(alloc_cfd_for_priority(&mut s, 8, JobPriority::P2), vec![6, 0, 1]);
}

#[test]
fn calibration_takes_reserved_cores_before_others() {
    let mut s = fresh_state();
    s.set_reserved_cores(vec![3, 7, 2]);
    assert_eq!(preferred_cores(&s, JobPriority::P2), vec![6, 3, 2]);
    assert_eq!(barred_cores(&s, JobPriority::P2), vec![7]);
    assert_eq!(
        eligible_physical_cores(&s, JobPriority::P2),
        vec![6, 3, 2, 0, 1, 4, 5]
    );
    assert_eq!(
        eligible_cpus(&s, JobPriority::P2),
        vec![6, 14, 3, 11, 2, 10, 0, 1, 4, 5, 8, 9, 12, 13]
    );
    assert_eq!(
        eligible_physical_cores(&s, JobPriority::P3),
        vec![7, 0, 1, 2, 3, 4, 5, 6]
    );
    assert_eq!(alloc_cfd_for_priority(&mut s, 2, JobPriority::P2), vec![6, 3]);
    assert_eq!(alloc_py_for_priority(&mut s, 3, JobPriority::P2), vec![2, 10, 0]);
}

#[test]
fn without_a_reservation_only_the_last_two_cores_are_closed() {
    let mut s = fresh_state();
    s.set_reserved_cores(Vec::new());
    assert_eq!(
        eligible_physical_cores(&s, JobPriority::P0),
        vec![0, 1, 2, 3, 4, 5]
    );
    assert_eq!(
        eligible_physical_cores(&s, JobPriority::P2),
        vec![6, 0, 1, 2, 3, 4, 5]
    );
}

#[test]
fn the_process_of_each_job_is_probed() {
    let mut s = fresh_state();
    for (jid, pid) in [("j0003", Some(7)), ("j0001", None), ("j0002", Some(9))] {
        let mut job = queued_job(jid, JobPriority::P1);
        job.pid = pid;
        s.pids.insert(jid.to_string(), job);
    }
    let expected: Vec<Option<u32>> = (0..s.pids.len()).map(|i| s.pids.value_at(i).pid).collect();
    assert_eq!(probe_targets(&s.pids), expected);
    let mut sorted = probe_targets(&s.pids);
    sorted.sort();
    assert_eq!(sorted, vec![None, Some(7), Some(9)]);
    assert!(probe_targets(&s.pending).is_empty());
}

#[test]
fn a_process_that_may_not_be_signalled_keeps_its_job() {
    let mut s = fresh_state();
    for (jid, pid) in [("j0001", 10), ("j0002", 11), ("j0003", 12)] {
        let mut job = queued_job(jid, JobPriority::P1);
        job.pid = Some(pid);
        s.pids.insert(jid.to_string(), job);
    }
    let probes = vec![Liveness::Denied, Liveness::Alive, Liveness::Unknown];
    assert_eq!(clean_up(&mut s, &probes, &Vec::new()), 0);
    assert_eq!(s.pids.len(), 3);
}

#[test]
fn cleanup_takes_out_exactly_the_jobs_that_are_gone() {
    let mut s = fresh_state();
    let cores = alloc_cfd_for_priority(&mut s, 2, JobPriority::P1);
    for (i, jid) in ["j0001", "j0002", "j0003"].iter().enumerate() {
        let mut job = queued_job(jid, JobPriority::P1);
        job.pid = if i == 2 { None } else { Some(10 + i as u32) };
        if i < 2 {
            job.cores = Some(vec![cores[i]]);
        }
        s.pids.insert(jid.to_string(), job);
    }
    let mut waiting = queued_job("j0004", JobPriority::P1);
    waiting.pid = Some(20);
    s.pending.insert("j0004".to_string(), waiting);
    let running = vec![Liveness::Gone, Liveness::Unknown, Liveness::Gone];
    let pending = vec![Liveness::Gone];
    assert_eq!(clean_up(&mut s, &running, &pending), 2);
    assert!(!s.pids.contains_key("j0001"));
    assert!(s.pids.contains_key("j0002"));
    assert!(s.pids.contains_key("j0003"));
    assert!(!s.pending.contains_key("j0004"));
    assert!(!cfd(&s, "0"));
    assert!(cfd(&s, "1"));
}

#[test]
fn orphans_are_found_by_their_processes() {
    let mut s = fresh_state();
    let mut gone = queued_job("j0001", JobPriority::P1);
    gone.pid = Some(999_999_999);
    gone.cpus = Some(alloc_py_for_priority(&mut s, 1, JobPriority::P1));
    s.pids.insert("j0001".to_string(), gone);
    let mut living = queued_job("j0002", JobPriority::P1);
    living.pid = Some(nix::unistd::getpid().as_raw() as u32);
    s.pending.insert("j0002".to_string(), living);
    assert_eq!(orphan_cleanup(&mut s), 1);
    assert!(!s.pids.contains_key("j0001"));
    assert!(s.pending.contains_key("j0002"));
    assert_eq!(cpu(&s, "0"), None);
}
