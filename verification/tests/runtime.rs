use hooch::runtime::{exit_runtime_guard, set_runtime_guard, RuntimeBuilder};

#[test]
fn test_runtime_builder_default() {
    assert!(RuntimeBuilder::default().num_workers == 1);
}

#[test]
fn test_runtime_builder_num_workers() {
    assert!(RuntimeBuilder::default().num_workers(2).num_workers == 2);
}

#[test]
fn builder_new_has_one_worker() {
    assert_eq!(RuntimeBuilder::new().num_workers, 1);
    assert_eq!(RuntimeBuilder::new().num_workers(7).num_workers(3).num_workers, 3);
}

#[test]
fn runtime_guard_enter_and_exit() {
    let mut guard = false;
    set_runtime_guard(&mut guard);
    assert!(guard);
    exit_runtime_guard(&mut guard);
    assert!(!guard);
    set_runtime_guard(&mut guard);
    assert!(guard);
}
