use dupfinder::gate::{AdmissionGate, MAX_CONCURRENT_TASKS};

#[test]
fn the_walk_admits_ten_traversals() {
    assert_eq!(MAX_CONCURRENT_TASKS, 10);
}

#[test]
fn a_gate_grants_up_to_its_capacity() {
    let mut gate = AdmissionGate::new(3);
    assert_eq!(gate.limit(), 3);
    assert_eq!(gate.held(), 0);
    assert!(gate.try_acquire());
    assert!(gate.try_acquire());
    assert!(gate.try_acquire());
    assert_eq!(gate.held(), 3);
    assert!(!gate.try_acquire());
    assert_eq!(gate.held(), 3);
}

#[test]
fn a_released_permit_can_be_taken_again() {
    let mut gate = AdmissionGate::new(1);
    assert!(gate.try_acquire());
    assert!(!gate.try_acquire());
    gate.release();
    assert_eq!(gate.held(), 0);
    assert!(gate.try_acquire());
}

#[test]
fn a_gate_without_permits_grants_nothing() {
    let mut gate = AdmissionGate::new(0);
    assert!(!gate.try_acquire());
    assert_eq!(gate.held(), 0);
}
