//! A goal-oriented action planning (GOAP) engine.
//!
//! Given an agent's current world state, a goal state, and a roster of
//! actions (each with preconditions, postconditions and a cost), the engine
//! computes a minimum-cost ordered sequence of actions that transforms the
//! current state into one satisfying the goal, and drives execution of that
//! sequence with support for re-evaluation, failure and replanning.
//!
//! The engine holds its actors and actions in arenas and exposes one
//! function per scheduler pass; a host tick driver calls them in dependency
//! order: new-actor construction, the integrator's action systems, the
//! action state transition pass, the integrator's actor systems, and the
//! plan-request queue drain.

pub mod action;
pub mod actor;
pub mod condition;
pub mod planning;
pub mod state;

use vstd::prelude::*;

use crate::action::Action;
use crate::actor::Actor;
use crate::planning::PlanningState;
use crate::state::GoapWorldState;

verus! {

/// The two scheduler stages the engine asks its host to expose to the
/// integrator: one for systems that drive actions, one for systems that
/// react to actors.
#[derive(Clone, Copy, Debug, PartialEq, Eq, Structural)]
pub enum GoapStage {
    /// The integrator's action systems run here.
    Actions,
    /// The integrator's actor systems run here.
    Actors,
}

/// The engine: an arena of actors, an arena of their actions, the
/// plan-request queue, and a world-level state holder. Actors and actions
/// reference each other by arena index.
pub struct Goap {
    pub actors: Vec<Actor>,
    pub actions: Vec<Action>,
    pub planning: PlanningState,
    pub world_state: GoapWorldState,
}

impl Goap {
    /// The arenas are consistent: every action names an existing owning
    /// actor that lists it back; every actor's action list, and its current
    /// path, name existing actions it owns; the queue names existing actors.
    /// The action count stays small enough that no cost sum in a search can
    /// overflow.
    pub open spec fn wf(&self) -> bool {
        &&& self.actions@.len() < 0x8000_0000
        &&& forall|a: int|
            0 <= a < self.actions@.len() ==> (#[trigger] self.actions@[a]).actor_id
                < self.actors@.len()
        &&& forall|t: int, j: int|
            0 <= t < self.actors@.len() && 0 <= j < self.actors@[t].actions@.len() ==> (
            #[trigger] self.actors@[t].actions@[j]) < self.actions@.len()
                && self.actions@[self.actors@[t].actions@[j] as int].actor_id == t
        &&& forall|t: int, j: int|
            0 <= t < self.actors@.len() && 0 <= j < self.actors@[t].current_path@.len()
                ==> self.actors@[t].actions@.contains(
                #[trigger] self.actors@[t].current_path@[j],
            )
        &&& forall|qi: int|
            0 <= qi < self.planning.queue@.len() ==> (#[trigger] self.planning.queue@[qi])
                < self.actors@.len()
        &&& forall|t: int|
            0 <= t < self.actors@.len() ==> (#[trigger] self.actors@[t]).actions@.len()
                < 0x8000_0000
    }

    /// An engine with no actors, no actions, and nothing queued.
    pub fn new() -> (r: Goap)
        ensures
            r.wf(),
            r.actors@ == Seq::<Actor>::empty(),
            r.actions@ == Seq::<Action>::empty(),
            r.planning.queue@ == Seq::<usize>::empty(),
            r.world_state@ == Map::<u64, bool>::empty(),
    {
        Goap {
            actors: Vec::new(),
            actions: Vec::new(),
            planning: crate::planning::create_planning_state(),
            world_state: GoapWorldState::new(),
        }
    }
}

/// A pass that changes only lifecycle states, world states and paths — never
/// arena sizes, ownership links or action lists — keeps the engine
/// well-formed, as long as every changed path still names actions of its
/// actor.
pub proof fn lemma_wf_preserved(g1: Goap, g2: Goap)
    requires
        g1.wf(),
        g2.actions@.len() == g1.actions@.len(),
        forall|a: int|
            0 <= a < g2.actions@.len() ==> (#[trigger] g2.actions@[a]).actor_id
                == g1.actions@[a].actor_id,
        g2.actors@.len() == g1.actors@.len(),
        forall|t: int|
            0 <= t < g2.actors@.len() ==> (#[trigger] g2.actors@[t]).actions
                == g1.actors@[t].actions,
        forall|t: int|
            #![trigger g2.actors@[t]]
            0 <= t < g2.actors@.len() ==> (g2.actors@[t].current_path@
                == g1.actors@[t].current_path@ || (forall|j: int|
                0 <= j < g2.actors@[t].current_path@.len() ==> g2.actors@[t].actions@.contains(
                    #[trigger] g2.actors@[t].current_path@[j],
                ))),
        g2.planning.queue@ == g1.planning.queue@,
    ensures
        g2.wf(),
{
    assert forall|t: int| 0 <= t < g2.actors@.len() implies (
    #[trigger] g2.actors@[t]).actions@.len() < 0x8000_0000 by {
        assert(g2.actors@[t].actions == g1.actors@[t].actions);
    }
    assert forall|t: int, j: int|
        0 <= t < g2.actors@.len() && 0 <= j < g2.actors@[t].actions@.len() implies (
    #[trigger] g2.actors@[t].actions@[j]) < g2.actions@.len()
        && g2.actions@[g2.actors@[t].actions@[j] as int].actor_id == t by {
        assert(g2.actors@[t].actions == g1.actors@[t].actions);
        let aid = g1.actors@[t].actions@[j];
        assert(aid < g1.actions@.len() && g1.actions@[aid as int].actor_id == t);
        assert(g2.actions@[aid as int].actor_id == g1.actions@[aid as int].actor_id);
    }
    assert forall|t: int, j: int|
        0 <= t < g2.actors@.len() && 0 <= j < g2.actors@[t].current_path@.len() implies
        g2.actors@[t].actions@.contains(#[trigger] g2.actors@[t].current_path@[j]) by {
        if g2.actors@[t].current_path@ == g1.actors@[t].current_path@ {
            assert(g1.actors@[t].actions@.contains(g1.actors@[t].current_path@[j]));
            assert(g2.actors@[t].actions == g1.actors@[t].actions);
        }
    }
}

/// Reset the engine's world-level state holder.
pub fn create_world_state_system(goap: &mut Goap)
    ensures
        final(goap).world_state@ == Map::<u64, bool>::empty(),
        final(goap).actors == old(goap).actors,
        final(goap).actions == old(goap).actions,
        final(goap).planning == old(goap).planning,
{
    goap.world_state = GoapWorldState::new();
}

} // verus!
