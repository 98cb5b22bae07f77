//! Actors: agents owning a set of actions, a current world state, a goal,
//! and (once planned) an ordered path of actions to execute.

use vstd::prelude::*;

use crate::action::{Action, ActionBuilder, ActionState};
use crate::state::GoapState;
use crate::Goap;

verus! {

/// The lifecycle of an actor.
///
/// `CompletedPlan`, `NoPlanAvailable` and `FailedDuringPlan` are not
/// terminal: an external collaborator observing them decides whether to
/// adjust state or goal and issue a new plan request, which returns the
/// actor to `AwaitingPlan`.
#[derive(Clone, Copy, Debug, PartialEq, Eq, Structural)]
pub enum ActorState {
    /// A plan was requested; the actor's actions are evaluating.
    AwaitingPlan,
    /// A non-empty path is installed and an action is running.
    ExecutingPlan,
    /// The path was exhausted and every postcondition merged.
    CompletedPlan,
    /// The search found no path to the goal.
    NoPlanAvailable,
    /// An action reported failure mid-execution.
    FailedDuringPlan,
}

/// An actor: its owned actions (by arena index), its current and goal world
/// states, the ordered action path of the active plan (empty when none), and
/// its lifecycle state.
pub struct Actor {
    /// Caller-supplied tag naming the agent this actor stands for.
    pub tag: u64,
    /// Indices of the actions this actor owns, in the engine's action arena.
    pub actions: Vec<usize>,
    /// The active plan: action indices in execution order, front first.
    pub current_path: Vec<usize>,
    pub current_state: GoapState,
    pub current_goal: GoapState,
    pub state: ActorState,
}

impl Actor {
    /// Start describing an actor for the agent tagged `tag`.
    pub fn build(tag: u64) -> (r: ActorBuilder)
        ensures
            r.tag == tag,
            r.actions@ == Seq::<ActionBuilder>::empty(),
            r.initial_state@ == Map::<u64, bool>::empty(),
            r.initial_goal@ == Map::<u64, bool>::empty(),
    {
        ActorBuilder {
            tag,
            actions: Vec::new(),
            initial_state: GoapState::new(),
            initial_goal: GoapState::new(),
        }
    }

    /// Record that the action at the front of the path completed: merge its
    /// postconditions into the current state, advance the path, and hand
    /// back the next action if one is queued.
    pub(crate) fn complete_action(&mut self, postconditions: GoapState) -> (next: Option<usize>)
        ensures
            final(self).current_state@ == old(self).current_state@.union_prefer_right(
                postconditions@,
            ),
            final(self).current_path@ == if old(self).current_path@.len() > 0 {
                old(self).current_path@.drop_first()
            } else {
                old(self).current_path@
            },
            next == if final(self).current_path@.len() > 0 {
                Some(final(self).current_path@[0])
            } else {
                None::<usize>
            },
            final(self).tag == old(self).tag,
            final(self).actions == old(self).actions,
            final(self).current_goal == old(self).current_goal,
            final(self).state == old(self).state,
    {
        self.current_state.extend(postconditions);
        if self.current_path.len() > 0 {
            self.current_path.remove(0);
        }
        if self.current_path.len() > 0 {
            Some(self.current_path[0])
        } else {
            None
        }
    }
}

/// A description of an actor and its actions, consumed when the actor is
/// built into the engine.
pub struct ActorBuilder {
    pub tag: u64,
    pub actions: Vec<ActionBuilder>,
    pub initial_state: GoapState,
    pub initial_goal: GoapState,
}

impl ActorBuilder {
    /// Add an action to the actor being described.
    pub fn with_action(self, action: ActionBuilder) -> (r: Self)
        ensures
            r.tag == self.tag,
            r.actions@ == self.actions@.push(action),
            r.initial_state == self.initial_state,
            r.initial_goal == self.initial_goal,
    {
        let mut r = self;
        r.actions.push(action);
        r
    }

    /// Constrain condition `key` to `value` in the actor's initial state.
    pub fn with_initial_condition(self, key: u64, value: bool) -> (r: Self)
        ensures
            r.tag == self.tag,
            r.actions == self.actions,
            r.initial_state@ == self.initial_state@.insert(key, value),
            r.initial_goal == self.initial_goal,
    {
        let mut r = self;
        r.initial_state.insert(key, value);
        r
    }

    /// Require condition `key` to hold value `value` in the actor's goal.
    pub fn with_goal(self, key: u64, value: bool) -> (r: Self)
        ensures
            r.tag == self.tag,
            r.actions == self.actions,
            r.initial_state == self.initial_state,
            r.initial_goal@ == self.initial_goal@.insert(key, value),
    {
        let mut r = self;
        r.initial_goal.insert(key, value);
        r
    }
}

/// The shape of a freshly built action: owned by actor `id`, fields taken
/// from its builder, cost `1`, state `Idle`.
pub open spec fn action_from_builder(a: Action, ab: ActionBuilder, id: int) -> bool {
    &&& a.actor_id == id
    &&& a.tag == ab.tag
    &&& a.preconditions@ == ab.preconditions@
    &&& a.postconditions@ == ab.postconditions@
    &&& a.cost == 1
    &&& a.state == ActionState::Idle
}

/// Build a described actor into the engine: its actions enter the action
/// arena as `Idle` siblings with cost `1`, the actor enters the actor arena
/// with an empty path in state `AwaitingPlan`, and its index is returned.
/// The caller follows up with a plan request for that index.
pub fn build_new_actor_system(goap: &mut Goap, builder: ActorBuilder) -> (id: usize)
    requires
        old(goap).wf(),
        old(goap).actions@.len() + builder.actions@.len() < 0x8000_0000,
    ensures
        final(goap).wf(),
        id == old(goap).actors@.len(),
        final(goap).actors@.len() == old(goap).actors@.len() + 1,
        final(goap).actions@.len() == old(goap).actions@.len() + builder.actions@.len(),
        forall|t: int|
            0 <= t < old(goap).actors@.len() ==> final(goap).actors@[t] == old(goap).actors@[t],
        forall|a: int|
            0 <= a < old(goap).actions@.len() ==> final(goap).actions@[a] == old(
                goap,
            ).actions@[a],
        final(goap).actors@[id as int].tag == builder.tag,
        final(goap).actors@[id as int].current_state@ == builder.initial_state@,
        final(goap).actors@[id as int].current_goal@ == builder.initial_goal@,
        final(goap).actors@[id as int].current_path@ == Seq::<usize>::empty(),
        final(goap).actors@[id as int].state == ActorState::AwaitingPlan,
        final(goap).actors@[id as int].actions@.len() == builder.actions@.len(),
        forall|j: int|
            0 <= j < builder.actions@.len() ==> final(goap).actors@[id as int].actions@[j]
                == old(goap).actions@.len() + j,
        forall|j: int|
            0 <= j < builder.actions@.len() ==> action_from_builder(
                final(goap).actions@[old(goap).actions@.len() + j],
                #[trigger] builder.actions@[j],
                id as int,
            ),
        final(goap).planning == old(goap).planning,
        final(goap).world_state == old(goap).world_state,
{
    let id = goap.actors.len();
    let k = builder.actions.len();
    let ghost base = goap.actions@.len() as int;
    let mut action_ids: Vec<usize> = Vec::new();
    let mut j: usize = 0;
    while j < k
        invariant
            old(goap).wf(),
            k == builder.actions@.len(),
            id == old(goap).actors@.len(),
            base == old(goap).actions@.len(),
            base + k < 0x8000_0000,
            0 <= j <= k,
            goap.actors == old(goap).actors,
            goap.planning == old(goap).planning,
            goap.world_state == old(goap).world_state,
            goap.actions@.len() == base + j,
            forall|a: int| 0 <= a < base ==> goap.actions@[a] == old(goap).actions@[a],
            action_ids@.len() == j,
            forall|j0: int| 0 <= j0 < j ==> action_ids@[j0] == base + j0,
            forall|j0: int|
                0 <= j0 < j ==> action_from_builder(
                    goap.actions@[base + j0],
                    #[trigger] builder.actions@[j0],
                    id as int,
                ),
        decreases k - j,
    {
        let ab = &builder.actions[j];
        goap.actions.push(
            Action {
                actor_id: id,
                tag: ab.tag,
                preconditions: ab.preconditions.cloned(),
                postconditions: ab.postconditions.cloned(),
                cost: 1,
                state: ActionState::Idle,
            },
        );
        let next_id = goap.actions.len() - 1;
        action_ids.push(next_id);
        proof {
            assert(action_from_builder(
                goap.actions@[base + j],
                builder.actions@[j as int],
                id as int,
            ));
        }
        j += 1;
    }
    goap.actors.push(
        Actor {
            tag: builder.tag,
            actions: action_ids,
            current_path: Vec::new(),
            current_state: builder.initial_state,
            current_goal: builder.initial_goal,
            state: ActorState::AwaitingPlan,
        },
    );
    proof {
        let g1 = *goap;
        let g0 = *old(goap);
        assert forall|a: int| 0 <= a < g1.actions@.len() implies (
        #[trigger] g1.actions@[a]).actor_id < g1.actors@.len() by {
            if a < g0.actions@.len() {
                assert(g1.actions@[a] == g0.actions@[a]);
            } else {
                assert(action_from_builder(
                    g1.actions@[a],
                    builder.actions@[a - g0.actions@.len()],
                    id as int,
                ));
            }
        }
        assert forall|qi: int| 0 <= qi < g1.planning.queue@.len() implies (
        #[trigger] g1.planning.queue@[qi]) < g1.actors@.len() by {
            assert(g0.planning.queue@[qi] < g0.actors@.len());
        }
        assert forall|t: int, j0: int|
            0 <= t < g1.actors@.len() && 0 <= j0 < g1.actors@[t].actions@.len() implies (
        #[trigger] g1.actors@[t].actions@[j0]) < g1.actions@.len()
            && g1.actions@[g1.actors@[t].actions@[j0] as int].actor_id == t by {
            if t < g0.actors@.len() {
                assert(g1.actors@[t] == g0.actors@[t]);
                assert(g0.actors@[t].actions@[j0] < g0.actions@.len());
                let aid = g0.actors@[t].actions@[j0];
                assert(g1.actions@[aid as int] == g0.actions@[aid as int]);
            } else {
                assert(g1.actors@[t].actions@[j0] == g0.actions@.len() + j0);
                assert(action_from_builder(
                    g1.actions@[g0.actions@.len() + j0],
                    builder.actions@[j0],
                    id as int,
                ));
            }
        }
        assert forall|t: int, j0: int|
            0 <= t < g1.actors@.len() && 0 <= j0 < g1.actors@[t].current_path@.len() implies
            g1.actors@[t].actions@.contains(#[trigger] g1.actors@[t].current_path@[j0]) by {
            if t < g0.actors@.len() {
                assert(g1.actors@[t] == g0.actors@[t]);
                assert(g0.actors@[t].actions@.contains(g0.actors@[t].current_path@[j0]));
            }
        }
    }
    id
}

} // verus!
