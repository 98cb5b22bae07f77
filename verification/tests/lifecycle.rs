use goap::action::{Action, ActionState, EvaluationResult};
use goap::actor::{Actor, ActorState};
use goap::planning::{create_plan_system, request_plan_event_handler_system, RequestPlanEvent};
use goap::{action::action_state_system, actor::build_new_actor_system, Goap};

const HAS_AXE: u64 = 1;
const HAS_WOOD: u64 = 2;

const LUMBERJACK: u64 = 100;
const GET_AXE: u64 = 1;
const CHOP_TREE: u64 = 2;
const COLLECT_WOOD: u64 = 3;

struct ActionTestCase {
    tag: u64,
    new_cost: u32,
    evaluation_result: EvaluationResult,
    execution_result: ActionState,
}

struct ActorTestCase {
    action_test_cases: Vec<ActionTestCase>,
    current_action_idx: usize,
    expected_path: Vec<u64>,
    expected_final_actor_state: ActorState,
}

impl ActorTestCase {
    fn case_for(&self, tag: u64) -> &ActionTestCase {
        self.action_test_cases
            .iter()
            .find(|c| c.tag == tag)
            .expect("no test case for this action")
    }

    fn assert_correct_idx_in_path(&self, tag: u64) {
        assert_eq!(
            *self
                .expected_path
                .get(self.current_action_idx)
                .expect("An action was completed, but it was not expected to have executed!"),
            tag
        );
    }

    fn assert_not_in_expected_path(&self, tag: u64) {
        assert!(!self.expected_path.contains(&tag));
    }
}

/// The external controller: drives each action through its lifecycle per the
/// test case, as the integrator's action systems would.
fn action_systems(goap: &mut Goap, tc: &mut ActorTestCase) {
    for a in 0..goap.actions.len() {
        let tag = goap.actions[a].tag;
        match goap.actions[a].state {
            ActionState::Evaluate => {
                let case = tc.case_for(tag);
                let cost = case.new_cost;
                let result = case.evaluation_result;
                goap.actions[a].update_cost(cost);
                goap.actions[a].state = ActionState::EvaluationComplete(result);
            }
            ActionState::NotInPlan(_) => {
                tc.assert_not_in_expected_path(tag);
                goap.actions[a].state = ActionState::Idle;
            }
            ActionState::Started => {
                tc.assert_correct_idx_in_path(tag);
                goap.actions[a].state = ActionState::Executing;
            }
            ActionState::Executing => {
                tc.assert_correct_idx_in_path(tag);
                tc.current_action_idx += 1;
                goap.actions[a].state = tc.case_for(tag).execution_result;
            }
            _ => {}
        }
    }
}

/// One scheduler tick, in dependency order: the integrator's action systems,
/// the action state transition pass, then the plan-request queue drain.
fn tick(goap: &mut Goap, tc: &mut ActorTestCase) {
    action_systems(goap, tc);
    action_state_system(goap);
    create_plan_system(goap);
}

fn create_lumberjack(goap: &mut Goap) -> usize {
    let get_axe_action = Action::build(GET_AXE)
        .with_precondition(HAS_AXE, false)
        .with_postcondition(HAS_AXE, true);

    let chop_tree_action = Action::build(CHOP_TREE)
        .with_precondition(HAS_AXE, true)
        .with_postcondition(HAS_WOOD, true);

    let collect_wood_action = Action::build(COLLECT_WOOD).with_postcondition(HAS_WOOD, true);

    let lumberjack = Actor::build(LUMBERJACK)
        .with_initial_condition(HAS_AXE, false)
        .with_initial_condition(HAS_WOOD, false)
        .with_goal(HAS_WOOD, true)
        .with_action(get_axe_action)
        .with_action(chop_tree_action)
        .with_action(collect_wood_action);

    let id = build_new_actor_system(goap, lumberjack);
    request_plan_event_handler_system(goap, RequestPlanEvent(id));
    id
}

#[test]
fn integration() {
    let mut goap = Goap::new();

    let mut actor_test_case = ActorTestCase {
        action_test_cases: vec![
            ActionTestCase {
                tag: GET_AXE,
                new_cost: 1,
                evaluation_result: EvaluationResult::Success,
                execution_result: ActionState::Complete,
            },
            ActionTestCase {
                tag: CHOP_TREE,
                new_cost: 1,
                evaluation_result: EvaluationResult::Success,
                execution_result: ActionState::Complete,
            },
            // a higher cost than the two actions above combined (which
            // together achieve the goal), so it must not be in the path
            ActionTestCase {
                tag: COLLECT_WOOD,
                new_cost: 3,
                evaluation_result: EvaluationResult::Success,
                execution_result: ActionState::Complete,
            },
        ],
        current_action_idx: 0,
        expected_path: vec![GET_AXE, CHOP_TREE],
        expected_final_actor_state: ActorState::CompletedPlan,
    };

    // Build the actor and its actions.
    let lumberjack = create_lumberjack(&mut goap);

    assert_eq!(goap.actors.len(), 1);
    assert_eq!(
        goap.actions.len(),
        actor_test_case.action_test_cases.len()
    );

    // Actor should be waiting for a plan.
    assert_eq!(goap.actors[lumberjack].state, ActorState::AwaitingPlan);

    // ActionStates should be Evaluate.
    assert!(goap
        .actions
        .iter()
        .all(|action| action.state == ActionState::Evaluate));

    // Let the actions finish evaluation, the plan be created, and the first
    // action be started.
    tick(&mut goap, &mut actor_test_case);

    // Actor should now be executing a plan.
    assert_eq!(goap.actors[lumberjack].state, ActorState::ExecutingPlan);

    for _ in 0..actor_test_case.expected_path.len() {
        // Let the current action finish the Started action state.
        tick(&mut goap, &mut actor_test_case);

        // Let the current action finish the Executing action state.
        tick(&mut goap, &mut actor_test_case);
    }

    // Actor should now have finished their plan.
    assert_eq!(
        goap.actors[lumberjack].state,
        actor_test_case.expected_final_actor_state
    );

    // All actions should now be Idle.
    assert!(goap
        .actions
        .iter()
        .all(|action| action.state == ActionState::Idle));

    // The postconditions of the executed path were merged into the actor.
    assert_eq!(
        goap.actors[lumberjack].current_state.get(HAS_AXE),
        Some(true)
    );
    assert_eq!(
        goap.actors[lumberjack].current_state.get(HAS_WOOD),
        Some(true)
    );
}

#[test]
fn satisfied_action_is_skipped_not_evaluated() {
    // an action whose postconditions the current state already matches goes
    // straight to EvaluationComplete(Skipped), never through Evaluate
    let mut goap = Goap::new();
    let satisfied = Action::build(GET_AXE).with_postcondition(HAS_AXE, true);
    let pending = Action::build(CHOP_TREE).with_postcondition(HAS_WOOD, true);
    let actor = Actor::build(LUMBERJACK)
        .with_initial_condition(HAS_AXE, true)
        .with_goal(HAS_WOOD, true)
        .with_action(satisfied)
        .with_action(pending);
    let id = build_new_actor_system(&mut goap, actor);
    request_plan_event_handler_system(&mut goap, RequestPlanEvent(id));

    let a_satisfied = goap.actors[id].actions[0];
    let a_pending = goap.actors[id].actions[1];
    assert_eq!(
        goap.actions[a_satisfied].state,
        ActionState::EvaluationComplete(EvaluationResult::Skipped)
    );
    assert_eq!(goap.actions[a_pending].state, ActionState::Evaluate);
    assert_eq!(goap.planning.queue, vec![id]);

    // once the pending action reports, the plan uses it alone, and the
    // skipped action is excluded without cleanup being due
    goap.actions[a_pending].state = ActionState::EvaluationComplete(EvaluationResult::Success);
    create_plan_system(&mut goap);
    assert_eq!(goap.actors[id].current_path, vec![a_pending]);
    assert_eq!(goap.actions[a_pending].state, ActionState::Started);
    assert_eq!(goap.actions[a_satisfied].state, ActionState::NotInPlan(false));
}

#[test]
fn fully_satisfied_request_is_dropped() {
    // if every action is already satisfied the request is silently dropped
    let mut goap = Goap::new();
    let satisfied = Action::build(GET_AXE).with_postcondition(HAS_AXE, true);
    let actor = Actor::build(LUMBERJACK)
        .with_initial_condition(HAS_AXE, true)
        .with_action(satisfied);
    let id = build_new_actor_system(&mut goap, actor);
    request_plan_event_handler_system(&mut goap, RequestPlanEvent(id));
    assert!(goap.planning.queue.is_empty());
    let a0 = goap.actors[id].actions[0];
    assert_eq!(
        goap.actions[a0].state,
        ActionState::EvaluationComplete(EvaluationResult::Skipped)
    );
}

#[test]
fn request_for_missing_actor_is_ignored() {
    let mut goap = Goap::new();
    request_plan_event_handler_system(&mut goap, RequestPlanEvent(7));
    assert!(goap.planning.queue.is_empty());
    assert!(goap.actors.is_empty());
}

#[test]
fn planner_waits_for_evaluation_barrier() {
    // the planner is never invoked while any action remains in Evaluate:
    // the actor stays queued and untouched until the last report arrives
    let mut goap = Goap::new();
    let id = create_lumberjack(&mut goap);
    let first = goap.actors[id].actions[0];

    // only one of the three actions reports
    goap.actions[first].state = ActionState::EvaluationComplete(EvaluationResult::Success);
    create_plan_system(&mut goap);

    assert_eq!(goap.actors[id].state, ActorState::AwaitingPlan);
    assert!(goap.actors[id].current_path.is_empty());
    assert_eq!(goap.planning.queue, vec![id]);
    let second = goap.actors[id].actions[1];
    assert_eq!(goap.actions[second].state, ActionState::Evaluate);

    // once every action has reported, the queued request goes through
    for &a in goap.actors[id].actions.clone().iter() {
        goap.actions[a].state = ActionState::EvaluationComplete(EvaluationResult::Success);
    }
    create_plan_system(&mut goap);
    assert_eq!(goap.actors[id].state, ActorState::ExecutingPlan);
    assert!(goap.planning.queue.is_empty());
}

#[test]
fn failed_evaluation_excludes_action() {
    // get-axe fails evaluation, so only collect-wood can reach the goal
    let mut goap = Goap::new();
    let id = create_lumberjack(&mut goap);
    let get_axe = goap.actors[id].actions[0];
    let chop_tree = goap.actors[id].actions[1];
    let collect_wood = goap.actors[id].actions[2];
    goap.actions[get_axe].state = ActionState::EvaluationComplete(EvaluationResult::Failure);
    goap.actions[chop_tree].state = ActionState::EvaluationComplete(EvaluationResult::Success);
    goap.actions[collect_wood].state =
        ActionState::EvaluationComplete(EvaluationResult::Success);
    create_plan_system(&mut goap);
    assert_eq!(goap.actors[id].state, ActorState::ExecutingPlan);
    assert_eq!(goap.actors[id].current_path, vec![collect_wood]);
    assert_eq!(goap.actions[collect_wood].state, ActionState::Started);
}

#[test]
fn no_plan_available_when_goal_unreachable() {
    // the goal names a condition no action's postconditions ever set
    let mut goap = Goap::new();
    let action = Action::build(GET_AXE)
        .with_precondition(HAS_AXE, false)
        .with_postcondition(HAS_AXE, true);
    let actor = Actor::build(LUMBERJACK)
        .with_initial_condition(HAS_AXE, false)
        .with_goal(HAS_WOOD, true)
        .with_action(action);
    let id = build_new_actor_system(&mut goap, actor);
    request_plan_event_handler_system(&mut goap, RequestPlanEvent(id));
    let a0 = goap.actors[id].actions[0];
    goap.actions[a0].state = ActionState::EvaluationComplete(EvaluationResult::Success);
    create_plan_system(&mut goap);
    assert_eq!(goap.actors[id].state, ActorState::NoPlanAvailable);
    assert!(goap.actors[id].current_path.is_empty());
    // the evaluated action is told it is not in a plan, with cleanup due
    assert_eq!(goap.actions[a0].state, ActionState::NotInPlan(true));
}

#[test]
fn execution_failure_marks_actor_failed() {
    let mut goap = Goap::new();
    let id = create_lumberjack(&mut goap);
    for &a in goap.actors[id].actions.clone().iter() {
        goap.actions[a].state = ActionState::EvaluationComplete(EvaluationResult::Success);
    }
    create_plan_system(&mut goap);
    assert_eq!(goap.actors[id].state, ActorState::ExecutingPlan);
    let started = goap.actors[id].current_path[0];
    goap.actions[started].state = ActionState::Failure;
    action_state_system(&mut goap);
    assert_eq!(goap.actors[id].state, ActorState::FailedDuringPlan);
    assert_eq!(goap.actions[started].state, ActionState::Idle);
}

#[test]
fn replanning_same_state_reproduces_path() {
    // determinism: after a completed cycle, resetting the same start state
    // and goal and replanning yields the original path
    let mut goap = Goap::new();

    let mut tc = ActorTestCase {
        action_test_cases: vec![
            ActionTestCase {
                tag: GET_AXE,
                new_cost: 1,
                evaluation_result: EvaluationResult::Success,
                execution_result: ActionState::Complete,
            },
            ActionTestCase {
                tag: CHOP_TREE,
                new_cost: 1,
                evaluation_result: EvaluationResult::Success,
                execution_result: ActionState::Complete,
            },
            ActionTestCase {
                tag: COLLECT_WOOD,
                new_cost: 3,
                evaluation_result: EvaluationResult::Success,
                execution_result: ActionState::Complete,
            },
        ],
        current_action_idx: 0,
        expected_path: vec![GET_AXE, CHOP_TREE],
        expected_final_actor_state: ActorState::CompletedPlan,
    };

    let id = create_lumberjack(&mut goap);
    tick(&mut goap, &mut tc);
    let first_path = goap.actors[id].current_path.clone();
    assert_eq!(first_path.len(), 2);
    while goap.actors[id].state == ActorState::ExecutingPlan {
        tick(&mut goap, &mut tc);
    }
    assert_eq!(goap.actors[id].state, ActorState::CompletedPlan);

    // reset the actor to the original start state and replan
    goap.actors[id].current_state.insert(HAS_AXE, false);
    goap.actors[id].current_state.insert(HAS_WOOD, false);
    tc.current_action_idx = 0;
    request_plan_event_handler_system(&mut goap, RequestPlanEvent(id));
    tick(&mut goap, &mut tc);
    assert_eq!(goap.actors[id].state, ActorState::ExecutingPlan);
    assert_eq!(goap.actors[id].current_path, first_path);
}

#[test]
fn mark_not_in_plan_remembers_evaluation() {
    let mut s = ActionState::EvaluationComplete(EvaluationResult::Success);
    s.mark_not_in_plan();
    assert_eq!(s, ActionState::NotInPlan(true));

    let mut skipped = ActionState::EvaluationComplete(EvaluationResult::Skipped);
    skipped.mark_not_in_plan();
    assert_eq!(skipped, ActionState::NotInPlan(false));

    let mut failed = ActionState::EvaluationComplete(EvaluationResult::Failure);
    failed.mark_not_in_plan();
    assert_eq!(failed, ActionState::NotInPlan(true));

    let mut idle = ActionState::Idle;
    idle.mark_not_in_plan();
    assert_eq!(idle, ActionState::Idle);
}
