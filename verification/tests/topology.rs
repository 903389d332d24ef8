use coresched::topology::{
    all_cpus, default_reserved_cores, is_schedulable_cpu, logical_cpus, physical_cores,
    schedulable_cpus,
};

#[test]
fn test_topology_mapping() {
    assert_eq!(logical_cpus(0), Some((0, 8)));
    assert_eq!(logical_cpus(7), Some((7, 15)));
    assert_eq!(logical_cpus(8), None);
}

#[test]
fn test_iterators() {
    assert_eq!(physical_cores().iter().count(), 8);
    assert_eq!(all_cpus().iter().count(), 16);
    assert_eq!(schedulable_cpus().iter().count(), 16);
}

#[test]
fn schedulable_cpus_and_the_default_reservation() {
    assert!(is_schedulable_cpu(15));
    assert!(!is_schedulable_cpu(16));
    assert_eq!(default_reserved_cores(), vec![6, 7]);
    assert_eq!(all_cpus()[15], 15);
}
