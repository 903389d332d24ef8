use coresched::ids::{jid_string, next_jid};
use coresched::jobs::{
    cancel, enqueue, register_run, reserve, try_start_run, validate_request, JobKind,
};
use coresched::paths::{job_output_path, job_progress_path};
use coresched::scheduler::{
    alloc_cfd_for_priority, clean_up, eligible_cpus, eligible_physical_cores, free_job, needed_for_priority,
    try_dispatch_one,
};
use coresched::outside::Liveness;
use coresched::state::{CoreschedState, JobPriority, Timestamp};
use coresched::topology::{all_cpus, logical_cpus, physical_cores};

const LEVELS: [JobPriority; 4] = [
    JobPriority::P0,
    JobPriority::P1,
    JobPriority::P2,
    JobPriority::P3,
];

#[test]
fn each_cpu_is_on_one_core() {
    for cpu in all_cpus() {
        let homes = physical_cores()
            .into_iter()
            .filter(|&core| {
                let (a, b) = logical_cpus(core).unwrap();
                cpu == a || cpu == b
            })
            .count();
        assert_eq!(homes, 1);
    }
}

fn reservations() -> Vec<Vec<u8>> {
    vec![vec![6, 7], Vec::new(), vec![0, 1], vec![3], (0..8).collect()]
}

#[test]
fn reserved_cores_are_never_granted_to_low_levels() {
    for reserved in reservations() {
        for level in [JobPriority::P0, JobPriority::P1] {
            let mut s = CoreschedState::default();
            s.set_reserved_cores(reserved.clone());
            let cores = alloc_cfd_for_priority(&mut s, 8, level);
            assert!(cores.iter().all(|core| !reserved.contains(core) && *core < 6));
        }
    }
}

#[test]
fn calibration_gets_no_other_core_before_all_reserved_ones() {
    for reserved in reservations() {
        for n in 0..9u8 {
            let mut s = CoreschedState::default();
            s.set_reserved_cores(reserved.clone());
            let cores = alloc_cfd_for_priority(&mut s, n, JobPriority::P2);
            if cores.iter().any(|core| *core != 6 && !reserved.contains(core)) {
                assert!(reserved.iter().all(|core| *core == 7 || cores.contains(core)));
            }
        }
    }
}

#[test]
fn a_job_that_ends_leaves_the_tables_as_they_were() {
    let mut s = CoreschedState::default();
    let none: Vec<String> = Vec::new();
    let command = vec!["x".to_string()];
    enqueue(&mut s, &none, "/h", JobKind::Cfd, 3, JobPriority::P2, at(1), &command);
    let cfd: Vec<bool> = (0..8).map(|c| *s.cfd.get(&c.to_string()).unwrap()).collect();
    let cpus: Vec<Option<bool>> = (0..16).map(|c| *s.cpus.get(&c.to_string()).unwrap()).collect();
    assert!(try_dispatch_one(&mut s, at(2)).is_some());
    assert_eq!(s.pids.get("j0001").unwrap().need, 3);
    free_job(&mut s, "j0001");
    let cfd_after: Vec<bool> = (0..8).map(|c| *s.cfd.get(&c.to_string()).unwrap()).collect();
    let cpus_after: Vec<Option<bool>> =
        (0..16).map(|c| *s.cpus.get(&c.to_string()).unwrap()).collect();
    assert_eq!(cfd, cfd_after);
    assert_eq!(cpus, cpus_after);
    assert_eq!(s.cfd.len(), 8);
    assert_eq!(s.cpus.len(), 16);
}

#[test]
fn ids_handed_out_one_after_the_other_grow() {
    let mut s = CoreschedState::default();
    let first = next_jid(&mut s, &vec!["j0001".to_string(), "j0002".to_string()]);
    let second = next_jid(&mut s, &Vec::new());
    assert_eq!(first, "j0003");
    assert_eq!(second, "j0004");
    assert!(first < second);
    assert_eq!(s.next_jid, 5);
}

#[test]
fn levels_may_use_more_and_more() {
    let mut s = CoreschedState::default();
    for reserved in reservations() {
        s.set_reserved_cores(reserved);
        for i in 0..3 {
            let low = eligible_physical_cores(&s, LEVELS[i]);
            let high = eligible_physical_cores(&s, LEVELS[i + 1]);
            assert!(low.iter().all(|core| high.contains(core)));
        }
        for level in LEVELS {
            let cores = eligible_physical_cores(&s, level);
            let cpus = eligible_cpus(&s, level);
            assert_eq!(cpus.len(), 2 * cores.len());
            for core in cores {
                let (a, b) = logical_cpus(core).unwrap();
                assert!(cpus.contains(&a) && cpus.contains(&b));
            }
        }
    }
}

#[test]
fn admitted_requests_fit_an_idle_machine() {
    let mut s = CoreschedState::default();
    for reserved in reservations() {
        s.set_reserved_cores(reserved);
        for kind in ["cfd", "py", "gpu"] {
            for level in LEVELS {
                for n in 0..20u8 {
                    let admitted = validate_request(&s, kind, n, level).is_ok();
                    assert_eq!(admitted, needed_for_priority(&s, kind, n, level) == 0);
                }
            }
        }
    }
}

#[test]
fn ids_and_output_files_differ() {
    assert!(jid_string(9) < jid_string(10));
    assert!(jid_string(999) < jid_string(1000));
    assert_ne!(jid_string(9999), jid_string(10000));
    assert_ne!(job_output_path("/h", "j0001"), job_output_path("/h", "j0002"));
    assert_ne!(job_progress_path("/h", "j0001"), job_progress_path("/h", "j0002"));
    assert_ne!(job_progress_path("/h", "j0001"), job_output_path("/h", "j0001"));
    assert_ne!(
        job_progress_path("/h", "j0001"),
        job_output_path("/h", "j0001.progress.json")
    );
    assert_eq!(jid_string(0).len(), 5);
    assert_eq!(jid_string(9999).len(), 5);
}

fn at(n: u64) -> Timestamp {
    Timestamp { bits: n }
}

/// Checks that the tables tell exactly what the running jobs hold.
fn check_accounts(s: &CoreschedState) {
    for cpu in all_cpus() {
        let mut holders = 0;
        for i in 0..s.pids.len() {
            let job = s.pids.value_at(i);
            let mut held: Vec<u8> = job.cpus.clone().unwrap_or_default();
            for core in job.cores.clone().unwrap_or_default() {
                let (a, b) = logical_cpus(core).unwrap();
                held.push(a);
                held.push(b);
            }
            if held.contains(&cpu) {
                holders += 1;
            }
        }
        assert!(holders <= 1);
        let used = s.cpus.get(&cpu.to_string()).unwrap().is_some();
        assert_eq!(used, holders == 1);
    }
    for core in physical_cores() {
        let held = (0..s.pids.len()).any(|i| {
            let cores = s.pids.value_at(i).cores.clone().unwrap_or_default();
            cores.contains(&core)
        });
        assert_eq!(*s.cfd.get(&core.to_string()).unwrap(), held);
    }
}

#[test]
fn the_tables_tell_what_is_held_throughout() {
    let mut s = CoreschedState::default();
    let none: Vec<String> = Vec::new();
    let command = vec!["x".to_string()];
    for (i, level) in LEVELS.iter().enumerate() {
        let kind = if i % 2 == 0 { JobKind::Cfd } else { JobKind::Py };
        enqueue(&mut s, &none, "/h", kind, 2, *level, at(1), &command);
    }
    check_accounts(&s);
    while try_dispatch_one(&mut s, at(2)).is_some() {
        check_accounts(&s);
    }
    assert_eq!(s.queued.len(), 0);
    assert_eq!(s.pids.len(), 4);
    let (run, output) = register_run(
        &mut s, &none, "/h", JobKind::Py, 3, JobPriority::P1, 5, at(3), &command,
    );
    assert!(try_start_run(
        &mut s, &run, JobKind::Py, 3, JobPriority::P1, at(4), &command, &output,
    )
    .is_some());
    check_accounts(&s);
    free_job(&mut s, "j0002");
    check_accounts(&s);
    cancel(&mut s, "j0003");
    check_accounts(&s);
    reserve(&mut s, vec![1]);
    s.migrate();
    check_accounts(&s);
    let probes: Vec<Liveness> = (0..s.pids.len()).map(|_| Liveness::Gone).collect();
    clean_up(&mut s, &probes, &Vec::new());
    check_accounts(&s);
    assert_eq!(s.pids.len(), 3);
}
