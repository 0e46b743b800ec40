//! Edge-triggered enter/exit bookkeeping for one trigger.

use physics2d::triggers::TriggerOverlapSet;

#[test]
fn enter_fires_only_on_the_edge() {
    let mut s = TriggerOverlapSet::new();
    assert!(s.enter(7));
    assert!(!s.enter(7));
    assert!(s.contains(7));
    assert!(s.enter(3));
    assert!(!s.enter(3));
    assert_eq!(s.get_overlapping_entity_list(), vec![7, 3]);
}

#[test]
fn exit_fires_only_on_the_edge() {
    let mut s = TriggerOverlapSet::new();
    assert!(!s.exit(7));
    s.enter(7);
    s.enter(3);
    assert!(s.exit(7));
    assert!(!s.exit(7));
    assert!(!s.contains(7));
    assert!(s.contains(3));
    assert_eq!(s.get_overlapping_entity_list(), vec![3]);
}

#[test]
fn the_list_is_duplicate_free() {
    let mut s = TriggerOverlapSet::new();
    s.enter(1);
    s.enter(2);
    s.enter(1);
    s.enter(2);
    assert_eq!(s.get_overlapping_entity_list(), vec![1, 2]);
    s.exit(1);
    s.enter(1);
    assert_eq!(s.get_overlapping_entity_list(), vec![2, 1]);
}

#[test]
fn an_empty_set_reports_nothing() {
    let s = TriggerOverlapSet::new();
    assert!(!s.contains(0));
    assert_eq!(s.get_overlapping_entity_list(), Vec::<usize>::new());
}
