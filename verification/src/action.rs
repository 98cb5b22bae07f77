//! Actions: named units of work with preconditions, postconditions and a
//! cost, driven through an explicit lifecycle state machine.

use vstd::prelude::*;

use crate::actor::{Actor, ActorState};
use crate::state::GoapState;
use crate::{lemma_wf_preserved, Goap};

verus! {

/// The outcome an external controller reports for an action's evaluation
/// round.
#[derive(Clone, Copy, Debug, PartialEq, Eq, Structural)]
pub enum EvaluationResult {
    /// The action is viable as a candidate in the next plan, with an updated
    /// cost.
    Success,
    /// The action is not viable; it is excluded from the next plan.
    Failure,
    /// Evaluation was skipped because the action's postconditions already
    /// satisfied the actor's current state; it is excluded without penalty.
    Skipped,
}

/// The lifecycle of an action.
///
/// The engine moves an action `Idle -> Evaluate` on a plan request, gates
/// planning on every action of the actor reaching `EvaluationComplete`, and
/// after planning hands out `Started`, `WaitingToStart` or `NotInPlan`. An
/// external controller drives `Evaluate -> EvaluationComplete`,
/// `Started -> Executing -> Complete | Failure`, and `NotInPlan -> Idle`.
#[derive(Clone, Copy, Debug, PartialEq, Eq, Structural)]
pub enum ActionState {
    /// Not executing and not being considered for a plan.
    Idle,
    /// A plan was requested; the controller must report viability and cost.
    Evaluate,
    /// The evaluation barrier: once all of an actor's actions are here, the
    /// planner runs.
    EvaluationComplete(EvaluationResult),
    /// The computed plan does not use this action. The flag says whether the
    /// action actually ran through `Evaluate`, so the controller knows
    /// whether cleanup is due.
    NotInPlan(bool),
    /// In the current plan, queued behind an earlier action.
    WaitingToStart,
    /// In the current plan and due for one-time setup by the controller.
    Started,
    /// Running; the controller polls for completion.
    Executing,
    /// Finished successfully; the engine merges postconditions and advances
    /// the plan.
    Complete,
    /// Failed during execution; the engine marks the owning actor failed.
    Failure,
}

/// Where `mark_not_in_plan` sends a state: an action at the evaluation
/// barrier is excluded from the plan, remembering whether it was evaluated;
/// any other state is left alone.
pub open spec fn spec_mark_not_in_plan(s: ActionState) -> ActionState {
    match s {
        ActionState::EvaluationComplete(r) => ActionState::NotInPlan(!(r is Skipped)),
        _ => s,
    }
}

impl ActionState {
    /// Exclude an evaluated action from the plan just computed.
    pub fn mark_not_in_plan(&mut self)
        ensures
            *final(self) == spec_mark_not_in_plan(*old(self)),
    {
        if let ActionState::EvaluationComplete(result) = *self {
            *self = ActionState::NotInPlan(!matches!(result, EvaluationResult::Skipped));
        }
    }
}

/// An action: the owning actor, the state it requires, the state change it
/// asserts to cause, its current cost, and its lifecycle state.
pub struct Action {
    /// Index of the owning actor in the engine's actor arena.
    pub actor_id: usize,
    /// Caller-supplied tag naming the domain behavior bound to this action.
    pub tag: u64,
    /// State required for this action to be includable in a plan.
    pub preconditions: GoapState,
    /// State change this action is asserted to cause when executed.
    pub postconditions: GoapState,
    /// Cost of including this action in a plan; updated during evaluation.
    pub cost: u32,
    pub state: ActionState,
}

impl Action {
    /// Start describing an action bound to the behavior tagged `tag`.
    pub fn build(tag: u64) -> (r: ActionBuilder)
        ensures
            r.tag == tag,
            r.preconditions@ == Map::<u64, bool>::empty(),
            r.postconditions@ == Map::<u64, bool>::empty(),
    {
        ActionBuilder {
            tag,
            preconditions: GoapState::new(),
            postconditions: GoapState::new(),
        }
    }

    /// Record the cost computed during evaluation.
    pub fn update_cost(&mut self, new_cost: u32)
        ensures
            *final(self) == (Action { cost: new_cost, ..*old(self) }),
    {
        self.cost = new_cost;
    }
}

/// A description of an action, collected before the owning actor is built.
pub struct ActionBuilder {
    pub tag: u64,
    pub preconditions: GoapState,
    pub postconditions: GoapState,
}

impl ActionBuilder {
    /// Require condition `key` to hold value `value` for this action to be
    /// includable in a plan.
    pub fn with_precondition(self, key: u64, value: bool) -> (r: Self)
        ensures
            r.tag == self.tag,
            r.preconditions@ == self.preconditions@.insert(key, value),
            r.postconditions == self.postconditions,
    {
        let mut r = self;
        r.preconditions.insert(key, value);
        r
    }

    /// Assert that executing this action sets condition `key` to `value`.
    pub fn with_postcondition(self, key: u64, value: bool) -> (r: Self)
        ensures
            r.tag == self.tag,
            r.preconditions == self.preconditions,
            r.postconditions@ == self.postconditions@.insert(key, value),
    {
        let mut r = self;
        r.postconditions.insert(key, value);
        r
    }
}

/// The action is reporting an execution outcome the engine must act on.
pub open spec fn reporting(s: ActionState) -> bool {
    s is Complete || s is Failure
}

/// Action `c` is completing and action `a` is the one queued right behind it
/// in their actor's path, so the transition pass will start `a`.
pub open spec fn next_of_completed(g: Goap, c: int, a: int) -> bool {
    &&& 0 <= c < g.actions@.len()
    &&& g.actions@[c].state is Complete
    &&& 0 <= a < g.actions@.len()
    &&& g.actions@[a].actor_id == g.actions@[c].actor_id
    &&& g.actions@[c].actor_id < g.actors@.len()
    &&& g.actors@[g.actions@[c].actor_id as int].current_path@.len() >= 2
    &&& g.actors@[g.actions@[c].actor_id as int].current_path@[1] == a
}

/// Some action owned by actor `t` is reporting an outcome.
pub open spec fn actor_reporting(g: Goap, t: int) -> bool {
    exists|a: int|
        0 <= a < g.actions@.len() && (#[trigger] g.actions@[a]).actor_id == t && reporting(
            g.actions@[a].state,
        )
}

/// The engine drives one action of an actor at a time, so in any one pass at
/// most one action per actor reports an outcome, and a completing action is
/// not also the action queued right behind itself.
pub open spec fn transition_reports_clean(g: Goap) -> bool {
    &&& forall|a1: int, a2: int|
        0 <= a1 < g.actions@.len() && 0 <= a2 < g.actions@.len() && a1 != a2 && reporting(
            (#[trigger] g.actions@[a1]).state,
        ) && reporting((#[trigger] g.actions@[a2]).state) ==> g.actions@[a1].actor_id
            != g.actions@[a2].actor_id
    &&& forall|c: int|
        0 <= c < g.actions@.len() && (#[trigger] g.actions@[c]).state is Complete
            && g.actions@[c].actor_id < g.actors@.len() ==> {
            let p = g.actors@[g.actions@[c].actor_id as int].current_path@;
            p.len() < 2 || p[1] != c
        }
}

/// A path after its front action completed.
pub open spec fn advanced_path(p: Seq<usize>) -> Seq<usize> {
    if p.len() > 0 {
        p.drop_first()
    } else {
        p
    }
}

/// One completing action: back to `Idle`, postconditions merged into the
/// owning actor's current state, the path advanced, and the next queued
/// action (if any) `Started`; with the path exhausted the actor reaches
/// `CompletedPlan`.
fn handle_complete(goap: &mut Goap, i: usize)
    requires
        old(goap).wf(),
        i < old(goap).actions@.len(),
        old(goap).actions@[i as int].state is Complete,
    ensures
        final(goap).wf(),
        final(goap).actions@.len() == old(goap).actions@.len(),
        final(goap).actors@.len() == old(goap).actors@.len(),
        final(goap).planning == old(goap).planning,
        final(goap).world_state == old(goap).world_state,
        forall|a: int|
            #![trigger final(goap).actions@[a]]
            0 <= a < old(goap).actions@.len() ==> {
                &&& final(goap).actions@[a].actor_id == old(goap).actions@[a].actor_id
                &&& final(goap).actions@[a].tag == old(goap).actions@[a].tag
                &&& final(goap).actions@[a].preconditions == old(goap).actions@[a].preconditions
                &&& final(goap).actions@[a].postconditions == old(
                    goap,
                ).actions@[a].postconditions
                &&& final(goap).actions@[a].cost == old(goap).actions@[a].cost
            },
        forall|t0: int|
            #![trigger final(goap).actors@[t0]]
            0 <= t0 < old(goap).actors@.len() ==> {
                &&& final(goap).actors@[t0].tag == old(goap).actors@[t0].tag
                &&& final(goap).actors@[t0].actions == old(goap).actors@[t0].actions
                &&& final(goap).actors@[t0].current_goal == old(goap).actors@[t0].current_goal
            },
        ({
            let t = old(goap).actions@[i as int].actor_id as int;
            let p = old(goap).actors@[t].current_path@;
            &&& forall|a: int|
                #![trigger final(goap).actions@[a]]
                0 <= a < old(goap).actions@.len() ==> final(goap).actions@[a].state == (if p.len()
                    >= 2 && a == p[1] as int {
                    ActionState::Started
                } else if a == i as int {
                    ActionState::Idle
                } else {
                    old(goap).actions@[a].state
                })
            &&& final(goap).actors@[t].current_state@ == old(goap).actors@[t].current_state@
                .union_prefer_right(old(goap).actions@[i as int].postconditions@)
            &&& final(goap).actors@[t].current_path@ == advanced_path(p)
            &&& final(goap).actors@[t].state == (if advanced_path(p).len() == 0 {
                ActorState::CompletedPlan
            } else {
                old(goap).actors@[t].state
            })
            &&& forall|t0: int|
                #![trigger final(goap).actors@[t0]]
                0 <= t0 < old(goap).actors@.len() && t0 != t ==> final(goap).actors@[t0] == old(
                    goap,
                ).actors@[t0]
        }),
{
    let ghost g_pre = *old(goap);
    let t = goap.actions[i].actor_id;
    let post = goap.actions[i].postconditions.cloned();
    {
        let slot = &mut goap.actions[i];
        slot.state = ActionState::Idle;
    }
    let next = {
        let ar = &mut goap.actors[t];
        ar.complete_action(post)
    };
    match next {
        Some(nx) => {
            proof {
                assert(goap.actors@[t as int].current_path@.len() >= 1);
                assert(goap.actors@[t as int].actions@.contains(nx));
            }
            let slot = &mut goap.actions[nx];
            slot.state = ActionState::Started;
        },
        None => {
            let ar = &mut goap.actors[t];
            ar.state = ActorState::CompletedPlan;
        },
    }
    proof {
        assert forall|a0: int| 0 <= a0 < goap.actions@.len() implies (
        #[trigger] goap.actions@[a0]).actor_id == g_pre.actions@[a0].actor_id by {}
        assert forall|t0: int| 0 <= t0 < goap.actors@.len() implies (
        #[trigger] goap.actors@[t0]).actions == g_pre.actors@[t0].actions by {}
        assert forall|t0: int|
            #![trigger goap.actors@[t0]]
            0 <= t0 < goap.actors@.len() implies (goap.actors@[t0].current_path@
                == g_pre.actors@[t0].current_path@ || (forall|j: int|
            0 <= j < goap.actors@[t0].current_path@.len() ==> goap.actors@[t0].actions@.contains(
                #[trigger] goap.actors@[t0].current_path@[j],
            ))) by {
            if t0 == t as int {
                let p_old = g_pre.actors@[t0].current_path@;
                let p_new = goap.actors@[t0].current_path@;
                if p_old.len() > 0 {
                    let t0_acts = goap.actors@[t0].actions@;
                    assert forall|j: int| 0 <= j < p_new.len() implies t0_acts.contains(
                        #[trigger] p_new[j],
                    ) by {
                        assert(p_new[j] == p_old[j + 1]);
                        assert(g_pre.actors@[t0].actions@.contains(p_old[j + 1]));
                        assert(goap.actors@[t0].actions == g_pre.actors@[t0].actions);
                    }
                } else {
                    assert(p_new == p_old);
                }
            } else {
                assert(goap.actors@[t0] == g_pre.actors@[t0]);
            }
        }
        lemma_wf_preserved(g_pre, *goap);
    }
}

/// One failing action: back to `Idle`, and the owning actor marked
/// `FailedDuringPlan`; an external collaborator decides whether to replan.
fn handle_failure(goap: &mut Goap, i: usize)
    requires
        old(goap).wf(),
        i < old(goap).actions@.len(),
        old(goap).actions@[i as int].state is Failure,
    ensures
        final(goap).wf(),
        final(goap).actions@.len() == old(goap).actions@.len(),
        final(goap).actors@.len() == old(goap).actors@.len(),
        final(goap).planning == old(goap).planning,
        final(goap).world_state == old(goap).world_state,
        forall|a: int|
            #![trigger final(goap).actions@[a]]
            0 <= a < old(goap).actions@.len() ==> final(goap).actions@[a] == (if a == i as int {
                Action { state: ActionState::Idle, ..old(goap).actions@[a] }
            } else {
                old(goap).actions@[a]
            }),
        ({
            let t = old(goap).actions@[i as int].actor_id as int;
            &&& final(goap).actors@[t] == (Actor {
                state: ActorState::FailedDuringPlan,
                ..old(goap).actors@[t]
            })
            &&& forall|t0: int|
                #![trigger final(goap).actors@[t0]]
                0 <= t0 < old(goap).actors@.len() && t0 != t ==> final(goap).actors@[t0] == old(
                    goap,
                ).actors@[t0]
        }),
{
    let ghost g_pre = *old(goap);
    let t = goap.actions[i].actor_id;
    {
        let slot = &mut goap.actions[i];
        slot.state = ActionState::Idle;
    }
    let ar = &mut goap.actors[t];
    ar.state = ActorState::FailedDuringPlan;
    proof {
        assert forall|a0: int| 0 <= a0 < goap.actions@.len() implies (
        #[trigger] goap.actions@[a0]).actor_id == g_pre.actions@[a0].actor_id by {}
        assert forall|t0: int| 0 <= t0 < goap.actors@.len() implies (
        #[trigger] goap.actors@[t0]).actions == g_pre.actors@[t0].actions by {}
        assert forall|t0: int|
            #![trigger goap.actors@[t0]]
            0 <= t0 < goap.actors@.len() implies goap.actors@[t0].current_path@
                == g_pre.actors@[t0].current_path@ by {}
        lemma_wf_preserved(g_pre, *goap);
    }
}

/// The action state transition pass: each action reporting `Complete` goes
/// back to `Idle`, its postconditions are merged into its actor's current
/// state and the actor's path advances — the next queued action is
/// `Started`, or, with the path exhausted, the actor reaches
/// `CompletedPlan`. Each action reporting `Failure` goes back to `Idle` and
/// its actor reaches `FailedDuringPlan`. Everything else is left alone.
#[verifier::rlimit(100)]
pub fn action_state_system(goap: &mut Goap)
    requires
        old(goap).wf(),
    ensures
        final(goap).wf(),
        final(goap).actions@.len() == old(goap).actions@.len(),
        final(goap).actors@.len() == old(goap).actors@.len(),
        final(goap).planning == old(goap).planning,
        final(goap).world_state == old(goap).world_state,
        forall|a: int|
            #![trigger final(goap).actions@[a]]
            0 <= a < old(goap).actions@.len() ==> {
                &&& final(goap).actions@[a].actor_id == old(goap).actions@[a].actor_id
                &&& final(goap).actions@[a].tag == old(goap).actions@[a].tag
                &&& final(goap).actions@[a].preconditions == old(goap).actions@[a].preconditions
                &&& final(goap).actions@[a].postconditions == old(
                    goap,
                ).actions@[a].postconditions
                &&& final(goap).actions@[a].cost == old(goap).actions@[a].cost
            },
        forall|t: int|
            #![trigger final(goap).actors@[t]]
            0 <= t < old(goap).actors@.len() ==> {
                &&& final(goap).actors@[t].tag == old(goap).actors@[t].tag
                &&& final(goap).actors@[t].actions == old(goap).actors@[t].actions
                &&& final(goap).actors@[t].current_goal == old(goap).actors@[t].current_goal
            },
        transition_reports_clean(*old(goap)) ==> {
            &&& forall|a: int|
                0 <= a < old(goap).actions@.len() && reporting(
                    (#[trigger] old(goap).actions@[a]).state,
                ) ==> final(goap).actions@[a].state is Idle
            &&& forall|a: int|
                0 <= a < old(goap).actions@.len() && !reporting(
                    (#[trigger] old(goap).actions@[a]).state,
                ) ==> final(goap).actions@[a].state == (if (exists|c: int|
                    next_of_completed(*old(goap), c, a)) {
                    ActionState::Started
                } else {
                    old(goap).actions@[a].state
                })
            &&& forall|a: int|
                #![trigger old(goap).actions@[a]]
                0 <= a < old(goap).actions@.len() && old(goap).actions@[a].state is Complete ==> {
                    let t = old(goap).actions@[a].actor_id as int;
                    let oa = old(goap).actors@[t];
                    &&& final(goap).actors@[t].current_state@ == oa.current_state@
                        .union_prefer_right(old(goap).actions@[a].postconditions@)
                    &&& final(goap).actors@[t].current_path@ == advanced_path(oa.current_path@)
                    &&& final(goap).actors@[t].state == (if advanced_path(
                        oa.current_path@,
                    ).len() == 0 {
                        ActorState::CompletedPlan
                    } else {
                        oa.state
                    })
                }
            &&& forall|a: int|
                #![trigger old(goap).actions@[a]]
                0 <= a < old(goap).actions@.len() && old(goap).actions@[a].state is Failure ==> {
                    let t = old(goap).actions@[a].actor_id as int;
                    final(goap).actors@[t] == (Actor {
                        state: ActorState::FailedDuringPlan,
                        ..old(goap).actors@[t]
                    })
                }
            &&& forall|t: int|
                #![trigger final(goap).actors@[t]]
                0 <= t < old(goap).actors@.len() && !actor_reporting(*old(goap), t)
                    ==> final(goap).actors@[t] == old(goap).actors@[t]
        },
{
    let n = goap.actions.len();
    let mut i: usize = 0;
    while i < n
        invariant
            old(goap).wf(),
            goap.wf(),
            0 <= i <= n,
            n == goap.actions@.len(),
            n == old(goap).actions@.len(),
            goap.actors@.len() == old(goap).actors@.len(),
            goap.planning == old(goap).planning,
            goap.world_state == old(goap).world_state,
            forall|a: int|
                #![trigger goap.actions@[a]]
                0 <= a < n ==> {
                    &&& goap.actions@[a].actor_id == old(goap).actions@[a].actor_id
                    &&& goap.actions@[a].tag == old(goap).actions@[a].tag
                    &&& goap.actions@[a].preconditions == old(goap).actions@[a].preconditions
                    &&& goap.actions@[a].postconditions == old(goap).actions@[a].postconditions
                    &&& goap.actions@[a].cost == old(goap).actions@[a].cost
                },
            forall|t: int|
                #![trigger goap.actors@[t]]
                0 <= t < goap.actors@.len() ==> {
                    &&& goap.actors@[t].tag == old(goap).actors@[t].tag
                    &&& goap.actors@[t].actions == old(goap).actors@[t].actions
                    &&& goap.actors@[t].current_goal == old(goap).actors@[t].current_goal
                },
            transition_reports_clean(*old(goap)) ==> {
                &&& forall|a: int|
                    0 <= a < n && reporting((#[trigger] old(goap).actions@[a]).state) ==> (if a
                        < i {
                        goap.actions@[a].state is Idle
                    } else {
                        goap.actions@[a].state == old(goap).actions@[a].state
                    })
                &&& forall|a: int|
                    0 <= a < n && !reporting((#[trigger] old(goap).actions@[a]).state)
                        ==> goap.actions@[a].state == (if (exists|c: int|
                        c < i && next_of_completed(*old(goap), c, a)) {
                        ActionState::Started
                    } else {
                        old(goap).actions@[a].state
                    })
                &&& forall|a: int|
                    #![trigger old(goap).actions@[a]]
                    0 <= a < i && old(goap).actions@[a].state is Complete ==> {
                        let t = old(goap).actions@[a].actor_id as int;
                        let oa = old(goap).actors@[t];
                        &&& goap.actors@[t].current_state@ == oa.current_state@
                            .union_prefer_right(old(goap).actions@[a].postconditions@)
                        &&& goap.actors@[t].current_path@ == advanced_path(oa.current_path@)
                        &&& goap.actors@[t].state == (if advanced_path(oa.current_path@).len()
                            == 0 {
                            ActorState::CompletedPlan
                        } else {
                            oa.state
                        })
                    }
                &&& forall|a: int|
                    #![trigger old(goap).actions@[a]]
                    0 <= a < i && old(goap).actions@[a].state is Failure ==> {
                        let t = old(goap).actions@[a].actor_id as int;
                        goap.actors@[t] == (Actor {
                            state: ActorState::FailedDuringPlan,
                            ..old(goap).actors@[t]
                        })
                    }
                &&& forall|t: int|
                    #![trigger goap.actors@[t]]
                    0 <= t < goap.actors@.len() && (!actor_reporting(*old(goap), t) || (exists|
                        a: int,
                    |
                        0 <= a < n && i <= a && (#[trigger] old(goap).actions@[a]).actor_id == t
                            && reporting(old(goap).actions@[a].state))) ==> goap.actors@[t]
                        == old(goap).actors@[t]
            },
        decreases n - i,
    {
        let st = goap.actions[i].state;
        let ghost g_pre = *goap;
        let ghost og = *old(goap);
        match st {
            ActionState::Complete => {
                proof {
                    if transition_reports_clean(og) {
                        assert(og.actions@[i as int].state is Complete);
                    }
                }
                handle_complete(goap, i);
                proof {
                    if transition_reports_clean(og) {
                        let ii = i as int;
                        let t = g_pre.actions@[ii].actor_id as int;
                        assert(og.actions@[ii].actor_id as int == t);
                        assert(exists|a: int|
                            0 <= a < n && i <= a && (#[trigger] og.actions@[a]).actor_id as int
                                == t && reporting(og.actions@[a].state)) by {
                            assert(0 <= ii < n && i <= ii && og.actions@[ii].actor_id as int == t
                                && reporting(og.actions@[ii].state));
                        }
                        assert(actor_reporting(og, t));
                        assert(g_pre.actors@[t] == og.actors@[t]);
                        let p = og.actors@[t].current_path@;
                        assert(g_pre.actors@[t].current_path@ == p);
                        if p.len() >= 2 {
                            let nx = p[1] as int;
                            assert(og.actors@[t].actions@.contains(p[1]));
                            assert(0 <= nx < n && og.actions@[nx].actor_id as int == t);
                            assert(next_of_completed(og, ii, nx));
                            assert(!reporting(og.actions@[nx].state)) by {
                                assert(nx != ii);
                            }
                        }
                        assert forall|a0: int|
                            0 <= a0 < n && !reporting((#[trigger] og.actions@[a0]).state) implies
                            goap.actions@[a0].state == (if (exists|c: int|
                            c < i + 1 && next_of_completed(og, c, a0)) {
                            ActionState::Started
                        } else {
                            og.actions@[a0].state
                        }) by {
                            if p.len() >= 2 && a0 == p[1] as int {
                                assert(ii < i + 1 && next_of_completed(og, ii, a0));
                                assert(goap.actions@[a0].state == ActionState::Started);
                            } else {
                                assert(!next_of_completed(og, ii, a0));
                                assert(goap.actions@[a0].state == g_pre.actions@[a0].state);
                            }
                        }
                        assert forall|t0: int|
                            #![trigger goap.actors@[t0]]
                            0 <= t0 < goap.actors@.len() && (!actor_reporting(og, t0) || (exists|
                                a: int,
                            |
                                0 <= a < n && i + 1 <= a && (#[trigger] og.actions@[a]).actor_id
                                    == t0 && reporting(og.actions@[a].state))) implies
                            goap.actors@[t0] == og.actors@[t0] by {
                            assert(t0 != t) by {
                                if t0 == t {
                                    if !actor_reporting(og, t0) {
                                        assert(og.actions@[ii].actor_id == t0 && reporting(
                                            og.actions@[ii].state,
                                        ));
                                    } else {
                                        let a2 = choose|a: int|
                                            0 <= a < n && i + 1 <= a && (
                                            #[trigger] og.actions@[a]).actor_id == t0 && reporting(
                                                og.actions@[a].state,
                                            );
                                        assert(a2 != ii);
                                    }
                                }
                            }
                            assert(goap.actors@[t0] == g_pre.actors@[t0]);
                            assert(!actor_reporting(og, t0) || (exists|a: int|
                                0 <= a < n && i <= a && (#[trigger] og.actions@[a]).actor_id == t0
                                    && reporting(og.actions@[a].state)));
                        }
                    }
                }
            },
            ActionState::Failure => {
                proof {
                    if transition_reports_clean(og) {
                        assert(og.actions@[i as int].state is Failure);
                    }
                }
                handle_failure(goap, i);
                proof {
                    if transition_reports_clean(og) {
                        let ii = i as int;
                        let t = g_pre.actions@[ii].actor_id as int;
                        assert(og.actions@[ii].actor_id as int == t);
                        assert(exists|a: int|
                            0 <= a < n && i <= a && (#[trigger] og.actions@[a]).actor_id as int
                                == t && reporting(og.actions@[a].state)) by {
                            assert(0 <= ii < n && i <= ii && og.actions@[ii].actor_id as int == t
                                && reporting(og.actions@[ii].state));
                        }
                        assert(actor_reporting(og, t));
                        assert(g_pre.actors@[t] == og.actors@[t]);
                        assert forall|a0: int|
                            0 <= a0 < n && !reporting((#[trigger] og.actions@[a0]).state) implies
                            goap.actions@[a0].state == (if (exists|c: int|
                            c < i + 1 && next_of_completed(og, c, a0)) {
                            ActionState::Started
                        } else {
                            og.actions@[a0].state
                        }) by {
                            assert(!next_of_completed(og, ii, a0));
                            assert(goap.actions@[a0].state == g_pre.actions@[a0].state);
                        }
                        assert forall|t0: int|
                            #![trigger goap.actors@[t0]]
                            0 <= t0 < goap.actors@.len() && (!actor_reporting(og, t0) || (exists|
                                a: int,
                            |
                                0 <= a < n && i + 1 <= a && (#[trigger] og.actions@[a]).actor_id
                                    == t0 && reporting(og.actions@[a].state))) implies
                            goap.actors@[t0] == og.actors@[t0] by {
                            assert(t0 != t) by {
                                if t0 == t {
                                    if !actor_reporting(og, t0) {
                                        assert(og.actions@[ii].actor_id == t0 && reporting(
                                            og.actions@[ii].state,
                                        ));
                                    } else {
                                        let a2 = choose|a: int|
                                            0 <= a < n && i + 1 <= a && (
                                            #[trigger] og.actions@[a]).actor_id == t0 && reporting(
                                                og.actions@[a].state,
                                            );
                                        assert(a2 != ii);
                                    }
                                }
                            }
                            assert(goap.actors@[t0] == g_pre.actors@[t0]);
                            assert(!actor_reporting(og, t0) || (exists|a: int|
                                0 <= a < n && i <= a && (#[trigger] og.actions@[a]).actor_id == t0
                                    && reporting(og.actions@[a].state)));
                        }
                    }
                }
            },
            _ => {},
        }
        i += 1;
    }
}

} // verus!
