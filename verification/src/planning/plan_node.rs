//! Plan nodes: the vertices of the planning graph.
//!
//! The synthetic start node carries the actor's current world state; an
//! action node carries an action identity plus the state reached by applying
//! that action's postconditions on top of its predecessor's state. Node
//! identity is the start marker or the action identity, never the carried
//! state.

use vstd::prelude::*;

use crate::planning::Candidate;
use crate::state::{state_matches, state_mismatch_count, GoapState};

verus! {

/// The identity of a plan node: the synthetic start, or an action by arena
/// index.
#[derive(Clone, Copy, Debug, PartialEq, Eq, Structural)]
pub enum PlanNodeId {
    Start,
    Action(usize),
}

/// A plan node: its identity and the world state it was reached with. Its
/// model is that state.
pub struct PlanNode {
    pub id: PlanNodeId,
    current_state: GoapState,
}

impl PlanNode {
    /// The identity of this node.
    pub closed spec fn spec_id(&self) -> PlanNodeId {
        self.id
    }
}

impl View for PlanNode {
    type V = Map<u64, bool>;

    closed spec fn view(&self) -> Map<u64, bool> {
        self.current_state@
    }
}

/// The successor edges of a node with state `s`: one per candidate whose
/// preconditions `s` matches, in roster order — the reached node carries the
/// merged state, and the edge weighs the candidate's cost.
pub open spec fn spec_successors(s: Map<u64, bool>, cands: Seq<Candidate>) -> Seq<
    (PlanNodeId, Map<u64, bool>, u64),
>
    decreases cands.len(),
{
    if cands.len() == 0 {
        Seq::empty()
    } else {
        let rest = spec_successors(s, cands.drop_last());
        let c = cands.last();
        if state_matches(s, c.preconditions@) {
            rest.push(
                (
                    PlanNodeId::Action(c.action_id),
                    s.union_prefer_right(c.postconditions@),
                    c.cost as u64,
                ),
            )
        } else {
            rest
        }
    }
}

impl PlanNode {
    /// The synthetic start node, carrying the actor's current world state.
    pub fn get_initial(initial_state: &GoapState) -> (r: PlanNode)
        ensures
            r.spec_id() == PlanNodeId::Start,
            r@ == initial_state@,
    {
        PlanNode { id: PlanNodeId::Start, current_state: initial_state.cloned() }
    }

    /// The node reached from `prev_state` by taking `action`.
    fn get_next(prev_state: &GoapState, action: &Candidate) -> (r: PlanNode)
        ensures
            r.spec_id() == PlanNodeId::Action(action.action_id),
            r@ == prev_state@.union_prefer_right(action.postconditions@),
    {
        let mut next_state = prev_state.cloned();
        next_state.extend(action.postconditions.cloned());
        PlanNode { id: PlanNodeId::Action(action.action_id), current_state: next_state }
    }

    /// The successors of this node among `actions`: an edge to each
    /// candidate whose preconditions this node's state matches, weighted by
    /// that candidate's cost.
    pub fn get_successors(&self, actions: &Vec<Candidate>) -> (r: Vec<(PlanNode, u64)>)
        ensures
            r@.map_values(|p: (PlanNode, u64)| (p.0.spec_id(), p.0@, p.1)) == spec_successors(
                self@,
                actions@,
            ),
    {
        let n = actions.len();
        let mut r: Vec<(PlanNode, u64)> = Vec::new();
        let mut i: usize = 0;
        while i < n
            invariant
                n == actions@.len(),
                0 <= i <= n,
                r@.map_values(|p: (PlanNode, u64)| (p.0.spec_id(), p.0@, p.1)) == spec_successors(
                    self@,
                    actions@.take(i as int),
                ),
            decreases n - i,
        {
            proof {
                assert(actions@.take(i as int + 1).drop_last() =~= actions@.take(i as int));
                assert(actions@.take(i as int + 1).last() == actions@[i as int]);
            }
            let c = &actions[i];
            if self.current_state.matches(&c.preconditions) {
                let node = PlanNode::get_next(&self.current_state, c);
                r.push((node, c.cost as u64));
                proof {
                    assert(r@.map_values(|p: (PlanNode, u64)| (p.0.spec_id(), p.0@, p.1))
                        =~= spec_successors(self@, actions@.take(i as int + 1)));
                }
            } else {
                proof {
                    assert(r@.map_values(|p: (PlanNode, u64)| (p.0.spec_id(), p.0@, p.1))
                        =~= spec_successors(self@, actions@.take(i as int + 1)));
                }
            }
            i += 1;
        }
        proof {
            assert(actions@.take(n as int) =~= actions@);
        }
        r
    }

    /// How many goal conditions this node's state misses: the search
    /// heuristic.
    pub fn mismatch_count(&self, target: &GoapState) -> (r: usize)
        ensures
            r == state_mismatch_count(self@, target@),
    {
        self.current_state.mismatch_count(target)
    }

    /// Whether this node's state satisfies `target`: the goal test.
    pub fn matches(&self, target: &GoapState) -> (r: bool)
        ensures
            r == state_matches(self@, target@),
    {
        self.current_state.matches(target)
    }
}

} // verus!
