use rosin_core::reactive::{DependencyMap, SlotState, VarKey};

fn key(slot: usize, generation: u64) -> VarKey {
    VarKey { slot, generation }
}

fn slot(generation: u64, version: u64) -> SlotState {
    SlotState { generation, version }
}

#[test]
fn unchanged_vars_report_nothing() {
    let mut deps = DependencyMap::default();
    deps.record(key(0, 1), 3);
    deps.record(key(1, 2), 5);
    let slots = vec![slot(1, 3), slot(2, 5)];
    assert!(!deps.any_changed(&slots));
    assert!(!deps.any_changed_update(&slots));
}

#[test]
fn record_keeps_highest_version() {
    let mut deps = DependencyMap::new();
    deps.record(key(0, 1), 7);
    deps.record(key(0, 1), 4);
    assert!(!deps.any_changed(&[slot(1, 7)]));
    assert!(deps.any_changed(&[slot(1, 4)]));
}

#[test]
fn write_is_reported_once_by_update() {
    let mut deps = DependencyMap::new();
    deps.record(key(0, 1), 1);
    let slots = vec![slot(1, 2)];
    assert!(deps.any_changed(&slots));
    assert!(deps.any_changed(&slots));
    assert!(deps.any_changed_update(&slots));
    assert!(!deps.any_changed(&slots));
    assert!(!deps.any_changed_update(&slots));
}

#[test]
fn dropped_var_is_reported_and_forgotten() {
    let mut deps = DependencyMap::new();
    deps.record(key(0, 1), 1);
    deps.record(key(1, 1), 1);
    let slots = vec![slot(2, 1), slot(1, 1)];
    assert!(deps.any_changed_update(&slots));
    assert!(!deps.any_changed(&slots));
    // Slot 0 was reused; the old variable is no longer tracked, so its later writes do not count.
    let slots = vec![slot(2, 9), slot(1, 1)];
    assert!(!deps.any_changed(&slots));
}

#[test]
fn missing_slot_counts_as_dropped() {
    let mut deps = DependencyMap::new();
    deps.record(key(4, 0), 0);
    assert!(deps.any_changed(&[]));
    assert!(deps.any_changed_update(&[]));
    assert!(!deps.any_changed(&[]));
}

#[test]
fn clear_forgets_everything() {
    let mut deps = DependencyMap::new();
    deps.record(key(0, 1), 1);
    deps.clear();
    assert!(!deps.any_changed(&[]));
    let mut again = DependencyMap::new();
    again.record(key(0, 1), 1);
    let cleared = again.cleared();
    assert!(!cleared.any_changed(&[]));
}
