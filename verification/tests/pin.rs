use coresched::pin::{cpu_set_of, pin_str, pin_to_cpus};
use nix::sched::{sched_getaffinity, CpuSet};
use nix::unistd::Pid;

#[test]
fn test_pin_str() {
    assert_eq!(pin_str(&[0, 1, 2]), "0,1,2");
    assert_eq!(pin_str(&[7]), "7");
}

#[test]
fn test_cpuset_operations() {
    let set: CpuSet = cpu_set_of(&[0, 7]).unwrap();
    assert!(set.is_set(0).unwrap());
    assert!(set.is_set(7).unwrap());
    assert!(!set.is_set(1).unwrap());
}

#[test]
fn binding_to_no_cpu_is_an_error() {
    assert!(pin_to_cpus(&[]).is_err());
    assert_eq!(pin_str(&[]), "");
}

#[test]
fn binding_takes_effect() {
    let allowed = sched_getaffinity(Pid::from_raw(0)).unwrap();
    let mut first: Option<u8> = None;
    for cpu in 0..256usize {
        if first.is_none() && allowed.is_set(cpu).unwrap() {
            first = Some(cpu as u8);
        }
    }
    let cpu = first.unwrap();
    assert!(pin_to_cpus(&[cpu]).is_ok());
    let bound = sched_getaffinity(Pid::from_raw(0)).unwrap();
    for other in 0..256usize {
        assert_eq!(bound.is_set(other).unwrap(), other == cpu as usize);
    }
}
