use coresched::outside::Liveness;
use coresched::process::{
    cancel_plan, found_alive, groups_among, is_alive, job_process_groups, parse_children,
    plan_cancellation, CancelStep, TreeWalk,
};

fn own_pid() -> u32 {
    nix::unistd::getpid().as_raw() as u32
}

#[test]
fn test_is_alive_self() {
    assert!(is_alive(own_pid()));
}

#[test]
fn test_is_alive_nonexistent() {
    assert!(!is_alive(999_999_999));
}

#[test]
fn only_a_process_that_was_found_is_alive() {
    assert!(found_alive(Liveness::Alive));
    assert!(found_alive(Liveness::Denied));
    assert!(!found_alive(Liveness::Gone));
    assert!(!found_alive(Liveness::Unknown));
}

#[test]
fn children_are_listed_by_number() {
    assert_eq!(parse_children("12 x 13\n-1 +14 4294967296 "), vec![12, 13, 14]);
}

#[test]
fn a_walk_takes_each_process_once() {
    let mut walk = TreeWalk::new(10);
    assert_eq!(walk.next(), Some(10));
    walk.add_children("11 12 0 10");
    assert_eq!(walk.next(), Some(11));
    walk.add_children("12 13");
    assert_eq!(walk.next(), Some(12));
    assert_eq!(walk.next(), Some(13));
    assert_eq!(walk.next(), None);
    assert_eq!(*walk.processes(), vec![10, 11, 12, 13]);
}

#[test]
fn groups_are_those_led_by_the_jobs_own_processes() {
    let processes = vec![30, 20, 10];
    let groups = vec![Some(30), Some(10), Some(5)];
    assert_eq!(groups_among(&processes, &groups), vec![10, 30]);
    assert!(groups_among(&processes, &vec![None, Some(0), Some(-10)]).is_empty());
}

#[test]
fn the_group_of_a_process_is_found() {
    let own = nix::unistd::Pid::from_raw(0);
    let _ = nix::unistd::setpgid(own, own);
    assert_eq!(
        nix::unistd::getpgid(None).unwrap(),
        nix::unistd::getpid()
    );
    let processes = vec![999_999_999, own_pid()];
    assert_eq!(job_process_groups(&processes), vec![own_pid()]);
}

#[test]
fn cancelling_terminates_then_kills_groups_and_processes() {
    let plan = cancel_plan(&vec![10], &vec![10, 11]);
    assert_eq!(
        plan,
        vec![
            CancelStep::Terminate(-10),
            CancelStep::Terminate(10),
            CancelStep::Terminate(11),
            CancelStep::Pause(250),
            CancelStep::Kill(-10),
            CancelStep::Kill(10),
            CancelStep::Kill(11),
        ]
    );
    let own = plan_cancellation(&vec![999_999_999]);
    assert_eq!(
        own,
        vec![
            CancelStep::Terminate(999_999_999),
            CancelStep::Pause(250),
            CancelStep::Kill(999_999_999),
        ]
    );
}
