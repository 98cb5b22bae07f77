use goap::condition::Condition;
use goap::state::{GoapState, GoapWorldState};
use goap::{create_world_state_system, Goap};

const HAS_AXE: u64 = 1;
const HAS_WOOD: u64 = 2;
const NEAR_TREE: u64 = 3;

#[test]
fn empty_state_constrains_nothing() {
    let s = GoapState::new();
    assert_eq!(s.get(HAS_AXE), None);
    assert_eq!(s.get(HAS_WOOD), None);
}

#[test]
fn insert_and_get() {
    let mut s = GoapState::new();
    s.insert(HAS_AXE, true);
    s.insert(HAS_WOOD, false);
    assert_eq!(s.get(HAS_AXE), Some(true));
    assert_eq!(s.get(HAS_WOOD), Some(false));
    assert_eq!(s.get(NEAR_TREE), None);
    s.insert(HAS_AXE, false);
    assert_eq!(s.get(HAS_AXE), Some(false));
}

#[test]
fn merge_is_right_biased() {
    // the incoming state's entries win on conflict and new entries are added
    let mut a = GoapState::new();
    a.insert(HAS_AXE, true);
    a.insert(HAS_WOOD, false);
    let mut b = GoapState::new();
    b.insert(HAS_WOOD, true);
    b.insert(NEAR_TREE, true);
    a.extend(b);
    assert_eq!(a.get(HAS_AXE), Some(true));
    assert_eq!(a.get(HAS_WOOD), Some(true));
    assert_eq!(a.get(NEAR_TREE), Some(true));
}

#[test]
fn merge_with_empty_changes_nothing() {
    let mut a = GoapState::new();
    a.insert(HAS_AXE, true);
    a.extend(GoapState::new());
    assert_eq!(a.get(HAS_AXE), Some(true));
    assert_eq!(a.get(HAS_WOOD), None);
}

#[test]
fn matches_ignores_extra_conditions() {
    let mut s = GoapState::new();
    s.insert(HAS_AXE, true);
    s.insert(HAS_WOOD, false);
    let mut t = GoapState::new();
    t.insert(HAS_AXE, true);
    assert!(s.matches(&t));
    assert!(!t.matches(&s));
}

#[test]
fn missing_condition_counts_as_mismatch() {
    let s = GoapState::new();
    let mut t = GoapState::new();
    t.insert(HAS_AXE, true);
    assert!(!s.matches(&t));
    assert_eq!(s.mismatch_count(&t), 1);
}

#[test]
fn differing_condition_counts_as_mismatch() {
    let mut s = GoapState::new();
    s.insert(HAS_AXE, false);
    s.insert(HAS_WOOD, true);
    let mut t = GoapState::new();
    t.insert(HAS_AXE, true);
    t.insert(HAS_WOOD, true);
    t.insert(NEAR_TREE, false);
    assert_eq!(s.mismatch_count(&t), 2);
    assert!(!s.matches(&t));
}

#[test]
fn matches_iff_mismatch_count_zero() {
    let mut s = GoapState::new();
    s.insert(HAS_AXE, true);
    s.insert(HAS_WOOD, false);
    let mut t = GoapState::new();
    t.insert(HAS_WOOD, false);
    assert_eq!(s.mismatch_count(&t), 0);
    assert!(s.matches(&t));
    t.insert(HAS_WOOD, true);
    assert!(s.mismatch_count(&t) != 0);
    assert!(!s.matches(&t));
}

#[test]
fn every_state_matches_itself() {
    let mut s = GoapState::new();
    assert!(s.matches(&s.cloned()));
    s.insert(HAS_AXE, true);
    s.insert(HAS_WOOD, false);
    let copy = s.cloned();
    assert!(s.matches(&copy));
    assert_eq!(s.mismatch_count(&copy), 0);
}

#[test]
fn cloned_state_is_independent() {
    let mut s = GoapState::new();
    s.insert(HAS_AXE, true);
    let copy = s.cloned();
    s.insert(HAS_AXE, false);
    assert_eq!(copy.get(HAS_AXE), Some(true));
    assert_eq!(s.get(HAS_AXE), Some(false));
}

#[test]
fn world_state_holder() {
    let mut w = GoapWorldState::new();
    assert_eq!(w.get().get(NEAR_TREE), None);
    w.insert(NEAR_TREE, true);
    assert_eq!(w.get().get(NEAR_TREE), Some(true));
    w.insert(NEAR_TREE, false);
    assert_eq!(w.get().get(NEAR_TREE), Some(false));
}

// a domain declares its condition kinds as marker types carrying a handle
struct HasAxeCondition;
impl Condition for HasAxeCondition {}

#[test]
fn condition_markers_tag_domain_types() {
    fn declare<C: Condition>(_c: C, handle: u64) -> u64 {
        handle
    }
    let mut s = GoapState::new();
    s.insert(declare(HasAxeCondition, HAS_AXE), true);
    assert_eq!(s.get(HAS_AXE), Some(true));
}

#[test]
fn world_state_system_resets_holder() {
    let mut g = Goap::new();
    g.world_state.insert(NEAR_TREE, true);
    create_world_state_system(&mut g);
    assert_eq!(g.world_state.get().get(NEAR_TREE), None);
}
