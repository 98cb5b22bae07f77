use goap::planning::plan_node::{PlanNode, PlanNodeId};
use goap::planning::{create_plan, Candidate};
use goap::state::GoapState;

const HAS_AXE: u64 = 1;
const HAS_WOOD: u64 = 2;
const RESTED: u64 = 3;

fn state(entries: &[(u64, bool)]) -> GoapState {
    let mut s = GoapState::new();
    for (k, v) in entries {
        s.insert(*k, *v);
    }
    s
}

fn cand(action_id: usize, pre: &[(u64, bool)], post: &[(u64, bool)], cost: u32) -> Candidate {
    Candidate {
        action_id,
        preconditions: state(pre),
        postconditions: state(post),
        cost,
    }
}

// get-axe: pre {HasAxe: false}, post {HasAxe: true}, cost 1
// chop-tree: pre {HasAxe: true}, post {HasWood: true}, cost 1
fn axe_and_chop() -> Vec<Candidate> {
    vec![
        cand(10, &[(HAS_AXE, false)], &[(HAS_AXE, true)], 1),
        cand(11, &[(HAS_AXE, true)], &[(HAS_WOOD, true)], 1),
    ]
}

#[test]
fn planner_chains_preconditions() {
    let start = state(&[(HAS_AXE, false), (HAS_WOOD, false)]);
    let goal = state(&[(HAS_WOOD, true)]);
    let path = create_plan(&start, &goal, axe_and_chop());
    assert_eq!(path, vec![10, 11]);
}

#[test]
fn planner_prefers_cheaper_combined_path() {
    // collect-wood reaches the goal in one step but costs more than
    // get-axe + chop-tree together, so it is excluded
    let mut cands = axe_and_chop();
    cands.push(cand(12, &[], &[(HAS_WOOD, true)], 3));
    let start = state(&[(HAS_AXE, false), (HAS_WOOD, false)]);
    let goal = state(&[(HAS_WOOD, true)]);
    let path = create_plan(&start, &goal, cands);
    assert_eq!(path, vec![10, 11]);
}

#[test]
fn planner_takes_cheap_single_action() {
    // with the one-step action now cheapest, it wins
    let mut cands = axe_and_chop();
    cands.push(cand(12, &[], &[(HAS_WOOD, true)], 1));
    let start = state(&[(HAS_AXE, false), (HAS_WOOD, false)]);
    let goal = state(&[(HAS_WOOD, true)]);
    let path = create_plan(&start, &goal, cands);
    assert_eq!(path, vec![12]);
}

#[test]
fn planner_returns_empty_path_when_goal_unreachable() {
    // the goal names a condition no action's postconditions ever set
    let start = state(&[(HAS_AXE, false), (HAS_WOOD, false)]);
    let goal = state(&[(RESTED, true)]);
    let path = create_plan(&start, &goal, axe_and_chop());
    assert_eq!(path, Vec::<usize>::new());
}

#[test]
fn planner_returns_empty_path_when_goal_already_met() {
    let start = state(&[(HAS_WOOD, true)]);
    let goal = state(&[(HAS_WOOD, true)]);
    let path = create_plan(&start, &goal, axe_and_chop());
    assert_eq!(path, Vec::<usize>::new());
}

#[test]
fn planner_with_no_candidates_finds_nothing() {
    let start = state(&[(HAS_WOOD, false)]);
    let goal = state(&[(HAS_WOOD, true)]);
    let path = create_plan(&start, &goal, Vec::new());
    assert_eq!(path, Vec::<usize>::new());
}

#[test]
fn planner_is_deterministic() {
    let start = state(&[(HAS_AXE, false), (HAS_WOOD, false)]);
    let goal = state(&[(HAS_WOOD, true)]);
    let first = create_plan(&start, &goal, axe_and_chop());
    let second = create_plan(&start, &goal, axe_and_chop());
    assert_eq!(first, second);
    assert_eq!(first, vec![10, 11]);
}

#[test]
fn plan_node_successors_follow_preconditions() {
    let start_node = PlanNode::get_initial(&state(&[(HAS_AXE, false)]));
    assert_eq!(start_node.id, PlanNodeId::Start);
    let succ = start_node.get_successors(&axe_and_chop());
    // only get-axe is applicable: chop-tree needs HasAxe = true
    assert_eq!(succ.len(), 1);
    assert_eq!(succ[0].0.id, PlanNodeId::Action(10));
    assert_eq!(succ[0].1, 1);
    // the reached node carries the merged state, so chop-tree opens up
    let succ2 = succ[0].0.get_successors(&axe_and_chop());
    assert_eq!(succ2.len(), 1);
    assert_eq!(succ2[0].0.id, PlanNodeId::Action(11));
}

#[test]
fn plan_node_heuristic_and_goal_test() {
    let goal = state(&[(HAS_AXE, true), (HAS_WOOD, true)]);
    let node = PlanNode::get_initial(&state(&[(HAS_AXE, true)]));
    assert_eq!(node.mismatch_count(&goal), 1);
    assert!(!node.matches(&goal));
    let done = PlanNode::get_initial(&state(&[(HAS_AXE, true), (HAS_WOOD, true)]));
    assert_eq!(done.mismatch_count(&goal), 0);
    assert!(done.matches(&goal));
}
