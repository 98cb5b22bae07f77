//! The planner and the plan-request queue.
//!
//! The planner runs A* over an implicit graph: the start node carries the
//! actor's current world state; each action node carries the state obtained
//! by merging the predecessor's state with that action's postconditions; an
//! edge leads from a node to an action node exactly when the node's state
//! matches the action's preconditions, and weighs the action's cost. Node
//! identity is the action identity alone, so each action is a single
//! potential graph vertex, visited at most once per search and carrying the
//! state it was first reached with. The heuristic is the mismatch count
//! against the goal; the goal test is a state match against the goal.

pub mod plan_node;

use vstd::prelude::*;

use crate::action::{Action, ActionState, EvaluationResult};
use crate::actor::{Actor, ActorState};
use crate::state::{state_matches, state_mismatch_count, GoapState};
use crate::{lemma_wf_preserved, Goap};

verus! {

/// A request to compute a plan for the named actor (by arena index).
pub struct RequestPlanEvent(pub usize);

/// The plan-request queue: actors whose plan request is deferred until all
/// of their actions have finished an evaluation round.
pub struct PlanningState {
    pub queue: Vec<usize>,
}

impl Default for PlanningState {
    /// An empty queue.
    fn default() -> (r: Self)
        ensures
            r.queue@ == Seq::<usize>::empty(),
    {
        PlanningState { queue: Vec::new() }
    }
}

/// The planning state a fresh engine starts from: an empty queue.
pub fn create_planning_state() -> (r: PlanningState)
    ensures
        r.queue@ == Seq::<usize>::empty(),
{
    PlanningState { queue: Vec::new() }
}

/// An action admitted to a planning round: its arena index, its conditions,
/// and the cost its evaluation produced.
pub struct Candidate {
    /// Index of the action in the engine's action arena.
    pub action_id: usize,
    pub preconditions: GoapState,
    pub postconditions: GoapState,
    pub cost: u32,
}

/// What the search sees of a candidate: preconditions, postconditions, cost.
pub open spec fn cand_views(cands: Seq<Candidate>) -> Seq<(Map<u64, bool>, Map<u64, bool>, u64)> {
    cands.map_values(|c: Candidate| (c.preconditions@, c.postconditions@, c.cost as u64))
}

/// The state reached from `start` by applying the postconditions of the
/// candidates named by `chain`, in order.
pub open spec fn chain_state(
    cands: Seq<(Map<u64, bool>, Map<u64, bool>, u64)>,
    start: Map<u64, bool>,
    chain: Seq<int>,
) -> Map<u64, bool>
    decreases chain.len(),
{
    if chain.len() == 0 {
        start
    } else {
        chain_state(cands, start, chain.drop_last()).union_prefer_right(cands[chain.last()].1)
    }
}

/// `chain` names candidates, and each one's preconditions are matched by the
/// state reached just before it.
pub open spec fn chain_ok(
    cands: Seq<(Map<u64, bool>, Map<u64, bool>, u64)>,
    start: Map<u64, bool>,
    chain: Seq<int>,
) -> bool {
    forall|j: int|
        0 <= j < chain.len() ==> 0 <= #[trigger] chain[j] < cands.len() && state_matches(
            chain_state(cands, start, chain.take(j)),
            cands[chain[j]].0,
        )
}

/// `s` is reachable from `start` by a valid candidate chain ending with
/// candidate `last`.
pub open spec fn derived_via(
    cands: Seq<(Map<u64, bool>, Map<u64, bool>, u64)>,
    start: Map<u64, bool>,
    s: Map<u64, bool>,
    last: int,
) -> bool {
    exists|chain: Seq<int>|
        #[trigger] chain_ok(cands, start, chain) && chain.len() >= 1 && chain.last() == last && s
            == chain_state(cands, start, chain)
}

proof fn lemma_chain_singleton(
    cands: Seq<(Map<u64, bool>, Map<u64, bool>, u64)>,
    start: Map<u64, bool>,
    i: int,
)
    requires
        0 <= i < cands.len(),
        state_matches(start, cands[i].0),
    ensures
        chain_ok(cands, start, seq![i]),
        chain_state(cands, start, seq![i]) == start.union_prefer_right(cands[i].1),
        seq![i].len() == 1,
        seq![i].last() == i,
{
    let c = seq![i];
    assert(c.drop_last() =~= Seq::<int>::empty());
    assert(chain_state(cands, start, Seq::<int>::empty()) == start);
    assert forall|j: int| 0 <= j < c.len() implies 0 <= #[trigger] c[j] < cands.len()
        && state_matches(chain_state(cands, start, c.take(j)), cands[c[j]].0) by {
        assert(c.take(0) =~= Seq::<int>::empty());
    }
}

proof fn lemma_chain_push(
    cands: Seq<(Map<u64, bool>, Map<u64, bool>, u64)>,
    start: Map<u64, bool>,
    chain: Seq<int>,
    i: int,
)
    requires
        chain_ok(cands, start, chain),
        0 <= i < cands.len(),
        state_matches(chain_state(cands, start, chain), cands[i].0),
    ensures
        chain_ok(cands, start, chain.push(i)),
        chain_state(cands, start, chain.push(i)) == chain_state(
            cands,
            start,
            chain,
        ).union_prefer_right(cands[i].1),
        chain.push(i).len() >= 1,
        chain.push(i).last() == i,
{
    let c = chain.push(i);
    assert(c.drop_last() =~= chain);
    assert forall|j: int| 0 <= j < c.len() implies 0 <= #[trigger] c[j] < cands.len()
        && state_matches(chain_state(cands, start, c.take(j)), cands[c[j]].0) by {
        if j < chain.len() {
            assert(c.take(j) =~= chain.take(j));
            assert(c[j] == chain[j]);
        } else {
            assert(c.take(j) =~= chain);
        }
    }
}

/// If no candidate's postconditions touch condition `k`, no reachable chain
/// state changes `k` away from its start value.
pub proof fn lemma_chain_state_untouched(
    cands: Seq<(Map<u64, bool>, Map<u64, bool>, u64)>,
    start: Map<u64, bool>,
    chain: Seq<int>,
    k: u64,
)
    requires
        forall|i: int| 0 <= i < cands.len() ==> !(#[trigger] cands[i].1).dom().contains(k),
        forall|j: int| 0 <= j < chain.len() ==> 0 <= #[trigger] chain[j] < cands.len(),
    ensures
        chain_state(cands, start, chain).dom().contains(k) == start.dom().contains(k),
        start.dom().contains(k) ==> chain_state(cands, start, chain)[k] == start[k],
    decreases chain.len(),
{
    if chain.len() > 0 {
        assert(forall|j: int|
            0 <= j < chain.drop_last().len() ==> 0 <= #[trigger] chain.drop_last()[j]
                < cands.len()) by {
            assert(forall|j: int|
                0 <= j < chain.drop_last().len() ==> chain.drop_last()[j] == chain[j]);
        }
        lemma_chain_state_untouched(cands, start, chain.drop_last(), k);
    }
}

/// The planner's working table: the candidate roster, the goal, and the
/// state carried by each search node. Node `0` is the start node; node
/// `i + 1` stands for candidate `i`, its state filled in when the search
/// first reaches it.
pub(crate) struct SearchTable {
    pub candidates: Vec<Candidate>,
    pub goal: GoapState,
    pub states: Vec<Option<GoapState>>,
}

impl SearchTable {
    pub(crate) open spec fn wf(&self) -> bool {
        &&& self.states@.len() == self.candidates@.len() + 1
        &&& self.candidates@.len() < 0x8000_0000
    }

    pub(crate) open spec fn cv(&self) -> Seq<(Map<u64, bool>, Map<u64, bool>, u64)> {
        cand_views(self.candidates@)
    }

    pub(crate) open spec fn has_state(&self, i: int) -> bool {
        0 <= i < self.states@.len() && self.states@[i] is Some
    }

    pub(crate) open spec fn state_at(&self, i: int) -> Map<u64, bool> {
        self.states@[i]->Some_0@
    }

    pub(crate) open spec fn start_state(&self) -> Map<u64, bool> {
        self.state_at(0)
    }

    /// All filled-in states other than the start are reachable by a valid
    /// candidate chain ending with their own candidate.
    pub(crate) open spec fn states_derived(&self) -> bool {
        forall|i: int|
            1 <= i < self.states@.len() && #[trigger] self.states@[i] is Some ==> derived_via(
                self.cv(),
                self.start_state(),
                self.state_at(i),
                i - 1,
            )
    }

    /// The successors of node `n`: one edge per candidate whose
    /// preconditions the node's state matches, weighted by that candidate's
    /// cost. Fills in the state of each successor reached for the first
    /// time; states already present are kept, so a node's state stays the
    /// one it was first reached with.
    #[verifier::rlimit(60)]
    fn expand(&mut self, n: u64) -> (succ: Vec<(u64, u64)>)
        ensures
            final(self).candidates == old(self).candidates,
            final(self).goal == old(self).goal,
            final(self).states@.len() == old(self).states@.len(),
            forall|i: int|
                old(self).has_state(i) ==> final(self).states@[i] == old(self).states@[i],
            forall|i: int|
                #![trigger final(self).states@[i]]
                0 <= i < final(self).states@.len() && final(self).states@[i] is Some && !(old(
                    self,
                ).states@[i] is Some) ==> {
                    &&& 1 <= i
                    &&& old(self).has_state(n as int)
                    &&& state_matches(old(self).state_at(n as int), old(self).cv()[i - 1].0)
                    &&& final(self).state_at(i) == old(self).state_at(
                        n as int,
                    ).union_prefer_right(old(self).cv()[i - 1].1)
                },
            forall|j: int|
                #![trigger succ@[j]]
                0 <= j < succ@.len() ==> {
                    &&& 1 <= succ@[j].0 as int <= old(self).candidates@.len()
                    &&& old(self).has_state(n as int)
                    &&& final(self).has_state(succ@[j].0 as int)
                    &&& state_matches(
                        old(self).state_at(n as int),
                        old(self).cv()[succ@[j].0 as int - 1].0,
                    )
                    &&& succ@[j].1 == old(self).cv()[succ@[j].0 as int - 1].2
                },
            !(old(self).wf() && old(self).has_state(n as int)) ==> *final(self) == *old(self)
                && succ@.len() == 0,
            old(self).has_state(0) && old(self).states_derived() ==> final(self).states_derived(),
    {
        let len = self.states.len();
        let m = self.candidates.len();
        if !(m < 0x8000_0000 && m + 1 == len) {
            return Vec::new();
        }
        if n >= len as u64 {
            return Vec::new();
        }
        let ni = n as usize;
        let s: GoapState = match &self.states[ni] {
            Some(st) => st.cloned(),
            None => {
                return Vec::new();
            },
        };
        let ghost t0 = *self;
        let mut succ: Vec<(u64, u64)> = Vec::new();
        let mut i: usize = 0;
        while i < m
            invariant
                m == self.candidates@.len(),
                m + 1 == len,
                len == self.states@.len(),
                m < 0x8000_0000,
                0 <= i <= m,
                ni == n as int,
                0 <= ni < len,
                self.candidates == t0.candidates,
                self.goal == t0.goal,
                t0.states@.len() == len,
                t0.has_state(ni as int),
                s@ == t0.state_at(ni as int),
                forall|i0: int| t0.has_state(i0) ==> self.states@[i0] == t0.states@[i0],
                forall|i0: int|
                    #![trigger self.states@[i0]]
                    0 <= i0 < len && self.states@[i0] is Some && !(t0.states@[i0] is Some) ==> {
                        &&& 1 <= i0
                        &&& state_matches(t0.state_at(ni as int), t0.cv()[i0 - 1].0)
                        &&& self.state_at(i0) == t0.state_at(ni as int).union_prefer_right(
                            t0.cv()[i0 - 1].1,
                        )
                    },
                forall|j: int|
                    #![trigger succ@[j]]
                    0 <= j < succ@.len() ==> {
                        &&& 1 <= succ@[j].0 as int <= m
                        &&& self.states@[succ@[j].0 as int] is Some
                        &&& state_matches(
                            t0.state_at(ni as int),
                            t0.cv()[succ@[j].0 as int - 1].0,
                        )
                        &&& succ@[j].1 == t0.cv()[succ@[j].0 as int - 1].2
                    },
                t0.has_state(0) && t0.states_derived() ==> self.states_derived(),
            decreases m - i,
        {
            let pre_matched = s.matches(&self.candidates[i].preconditions);
            if pre_matched {
                succ.push(((i as u64) + 1, self.candidates[i].cost as u64));
                let needs_fill = self.states[i + 1].is_none();
                if needs_fill {
                    let mut ns = s.cloned();
                    ns.extend(self.candidates[i].postconditions.cloned());
                    proof {
                        if t0.has_state(0) && t0.states_derived() {
                            let cv = t0.cv();
                            let start = t0.start_state();
                            assert(self.cv() == cv);
                            if ni == 0 {
                                lemma_chain_singleton(cv, start, i as int);
                                assert(chain_ok(cv, start, seq![i as int]));
                            } else {
                                assert(self.states@[ni as int] == t0.states@[ni as int]);
                                assert(derived_via(cv, start, t0.state_at(ni as int), ni - 1));
                                let chain = choose|chain: Seq<int>|
                                    #[trigger] chain_ok(cv, start, chain) && chain.len() >= 1
                                        && chain.last() == ni - 1 && t0.state_at(ni as int)
                                        == chain_state(cv, start, chain);
                                lemma_chain_push(cv, start, chain, i as int);
                                assert(chain_ok(cv, start, chain.push(i as int)));
                            }
                        }
                    }
                    self.states.set(i + 1, Some(ns));
                }
            }
            i += 1;
        }
        succ
    }

    /// The search heuristic for node `n`: its state's mismatch count against
    /// the goal, clamped so that cost sums stay well below the cost type's
    /// range; `0` for a node with no state yet.
    fn heuristic_of(&self, n: u64) -> (h: u64)
        ensures
            h <= 0xFFFF_FFFF,
            self.has_state(n as int) ==> h as nat == (if state_mismatch_count(
                self.state_at(n as int),
                self.goal@,
            ) <= 0xFFFF_FFFF {
                state_mismatch_count(self.state_at(n as int), self.goal@)
            } else {
                0xFFFF_FFFF as nat
            }),
            !self.has_state(n as int) ==> h == 0,
    {
        if n >= self.states.len() as u64 {
            return 0;
        }
        let c: usize = match &self.states[n as usize] {
            Some(st) => st.mismatch_count(&self.goal),
            None => {
                return 0;
            },
        };
        if c as u64 > 0xFFFF_FFFF {
            0xFFFF_FFFF
        } else {
            c as u64
        }
    }

    /// The goal test for node `n`: whether its state matches the goal.
    fn goal_reached(&self, n: u64) -> (r: bool)
        ensures
            r == (self.has_state(n as int) && state_matches(
                self.state_at(n as int),
                self.goal@,
            )),
    {
        if n >= self.states.len() as u64 {
            return false;
        }
        match &self.states[n as usize] {
            Some(st) => st.matches(&self.goal),
            None => false,
        }
    }
}

/// The node path `pathfinding::prelude::astar` computes on the plan graph a
/// fresh search table describes. The search is deterministic — its node
/// set, expansion order and tie-breaking depend only on the candidate
/// roster, the start state and the goal — so the result is a function of
/// those arguments alone.
pub uninterp spec fn astar_plan(
    cands: Seq<(Map<u64, bool>, Map<u64, bool>, u64)>,
    start: Map<u64, bool>,
    goal: Map<u64, bool>,
) -> Option<Seq<u64>>;

/// Runs the A* search over the plan graph held in `table`.
///
/// Relies on `pathfinding::prelude::astar`: it reads and grows the graph
/// only through the three closures below, which call this module's verified
/// `expand`, `heuristic_of` and `goal_reached`. Per its source, it returns
/// `Some` with the node path from the start node `0` up to a node whose
/// state matches the goal, each consecutive pair of path nodes being an edge
/// that `expand` produced; it returns `None` only after exhausting the
/// reachable graph, every reached node having failed the goal test. Its
/// index map is seeded deterministically, and neither lookup order nor heap
/// tie-breaking depends on anything outside the table, so the result is the
/// function of the table named by `astar_plan`. Edge costs are `u32` values
/// widened to `u64` and the heuristic is clamped to `u32` range, so with
/// fewer than `0x8000_0000` candidates no cost sum in the search overflows.
#[verifier::external_body]
fn run_astar(table: &mut SearchTable) -> (r: Option<Vec<u64>>)
    requires
        old(table).wf(),
        old(table).has_state(0),
        forall|i: int| 1 <= i < old(table).states@.len() ==> !(old(table).states@[i] is Some),
    ensures
        final(table).wf(),
        final(table).candidates == old(table).candidates,
        final(table).goal == old(table).goal,
        final(table).states@.len() == old(table).states@.len(),
        final(table).states@[0] == old(table).states@[0],
        final(table).states_derived(),
        (match r {
            Some(v) => astar_plan(old(table).cv(), old(table).start_state(), old(table).goal@)
                == Some(v@),
            None => astar_plan(old(table).cv(), old(table).start_state(), old(table).goal@)
                is None,
        }),
        (match r {
            Some(v) => {
                &&& v@.len() >= 1
                &&& v@[0] == 0
                &&& forall|j: int|
                    0 <= j < v@.len() ==> final(table).has_state(#[trigger] v@[j] as int)
                &&& forall|j: int|
                    0 <= j < v@.len() - 1 ==> 1 <= #[trigger] v@[j + 1] as int
                        <= final(table).candidates@.len() && state_matches(
                        final(table).state_at(v@[j] as int),
                        final(table).cv()[v@[j + 1] as int - 1].0,
                    )
                &&& state_matches(
                    final(table).state_at(v@[v@.len() - 1] as int),
                    final(table).goal@,
                )
            },
            None => forall|i: int|
                final(table).has_state(i) ==> !state_matches(
                    final(table).state_at(i),
                    final(table).goal@,
                ),
        }),
        state_matches(old(table).start_state(), old(table).goal@) ==> r is Some && r->Some_0@
            =~= seq![0u64],
{
    let cell = std::cell::RefCell::new(table);
    let result = pathfinding::prelude::astar(
        &0u64,
        |n: &u64| cell.borrow_mut().expand(*n),
        |n: &u64| cell.borrow().heuristic_of(*n),
        |n: &u64| cell.borrow().goal_reached(*n),
    );
    result.map(|(path, _cost)| path)
}

/// `k` makes the goal unreachable: the goal requires it, the start state
/// does not already satisfy it, and no candidate's postconditions ever set
/// it.
pub open spec fn goal_key_unreachable(
    cands: Seq<(Map<u64, bool>, Map<u64, bool>, u64)>,
    start: Map<u64, bool>,
    goal: Map<u64, bool>,
    k: u64,
) -> bool {
    &&& goal.dom().contains(k)
    &&& !(start.dom().contains(k) && start[k] == goal[k])
    &&& forall|i: int| 0 <= i < cands.len() ==> !(#[trigger] cands[i].1).dom().contains(k)
}

/// The action path the planner installs: the node path of the search with
/// the synthetic start node dropped, each remaining node replaced by its
/// candidate's arena action index.
pub open spec fn planned_path(
    cands: Seq<(Map<u64, bool>, Map<u64, bool>, u64)>,
    ids: Seq<usize>,
    start: Map<u64, bool>,
    goal: Map<u64, bool>,
) -> Seq<usize> {
    match astar_plan(cands, start, goal) {
        Some(p) => p.skip(1).map_values(|n: u64| ids[n as int - 1]),
        None => Seq::empty(),
    }
}

/// The arena action indices of a candidate roster, in roster order.
pub open spec fn cand_ids(cands: Seq<Candidate>) -> Seq<usize> {
    cands.map_values(|c: Candidate| c.action_id)
}

/// The planner: from the actor's current state, its goal, and the candidates
/// whose evaluation succeeded, compute the minimum-cost action path the
/// search finds, in execution order. An empty path means no plan is needed
/// or none is available.
pub fn create_plan(current: &GoapState, goal: &GoapState, candidates: Vec<Candidate>) -> (path:
    Vec<usize>)
    requires
        candidates@.len() < 0x8000_0000,
    ensures
        path@ == planned_path(cand_views(candidates@), cand_ids(candidates@), current@, goal@),
        forall|j: int|
            0 <= j < path@.len() ==> exists|i: int|
                0 <= i < candidates@.len() && #[trigger] path@[j] == candidates@[i].action_id,
        state_matches(current@, goal@) ==> path@ == Seq::<usize>::empty(),
        (exists|k: u64|
            goal_key_unreachable(cand_views(candidates@), current@, goal@, k)) ==> path@
            == Seq::<usize>::empty(),
{
    let m = candidates.len();
    let mut states: Vec<Option<GoapState>> = Vec::new();
    states.push(Some(current.cloned()));
    let mut i: usize = 0;
    while i < m
        invariant
            0 <= i <= m,
            states@.len() == i + 1,
            states@[0] is Some,
            states@[0]->Some_0@ == current@,
            forall|j: int| 1 <= j < states@.len() ==> !(#[trigger] states@[j] is Some),
        decreases m - i,
    {
        states.push(None);
        i += 1;
    }
    let mut table = SearchTable { candidates, goal: goal.cloned(), states };
    let ghost cv = table.cv();
    let ghost ids = cand_ids(table.candidates@);
    let r = run_astar(&mut table);
    proof {
        if exists|k: u64| goal_key_unreachable(cv, current@, goal@, k) {
            let k = choose|k: u64| goal_key_unreachable(cv, current@, goal@, k);
            if r is Some {
                let v = r->Some_0;
                let last = v@[v@.len() - 1] as int;
                assert(state_matches(table.state_at(last), goal@));
                if last == 0 {
                    assert(table.state_at(0) == current@);
                    assert(goal@.dom().contains(k));
                } else {
                    assert(derived_via(cv, current@, table.state_at(last), last - 1));
                    let chain = choose|chain: Seq<int>|
                        #[trigger] chain_ok(cv, current@, chain) && chain.len() >= 1
                            && chain.last() == last - 1 && table.state_at(last) == chain_state(
                            cv,
                            current@,
                            chain,
                        );
                    lemma_chain_state_untouched(cv, current@, chain, k);
                    assert(goal@.dom().contains(k));
                }
            }
        }
    }
    match r {
        None => Vec::new(),
        Some(nodes) => {
            let mut path: Vec<usize> = Vec::new();
            let n_nodes = nodes.len();
            let mut j: usize = 1;
            while j < n_nodes
                invariant
                    1 <= j <= n_nodes,
                    n_nodes == nodes@.len(),
                    n_nodes >= 1,
                    table.candidates@.len() < 0x8000_0000,
                    ids == cand_ids(table.candidates@),
                    forall|j0: int|
                        0 <= j0 < nodes@.len() - 1 ==> 1 <= #[trigger] nodes@[j0 + 1] as int
                            <= table.candidates@.len(),
                    path@ == nodes@.subrange(1, j as int).map_values(
                        |n: u64| ids[n as int - 1],
                    ),
                decreases n_nodes - j,
            {
                let n = nodes[j];
                proof {
                    assert(1 <= nodes@[(j - 1) + 1] as int <= table.candidates@.len());
                }
                path.push(table.candidates[(n - 1) as usize].action_id);
                proof {
                    assert(nodes@.subrange(1, j as int + 1) =~= nodes@.subrange(
                        1,
                        j as int,
                    ).push(nodes@[j as int]));
                    assert(path@ =~= nodes@.subrange(1, j as int + 1).map_values(
                        |n: u64| ids[n as int - 1],
                    ));
                }
                j += 1;
            }
            proof {
                assert(nodes@.subrange(1, n_nodes as int) =~= nodes@.skip(1));
                assert(path@ =~= planned_path(cv, ids, current@, goal@));
                assert forall|j0: int| 0 <= j0 < path@.len() implies exists|i0: int|
                    0 <= i0 < table.candidates@.len() && #[trigger] path@[j0]
                        == table.candidates@[i0].action_id by {
                    let n0 = nodes@.skip(1)[j0];
                    assert(1 <= nodes@[(j0) + 1] as int <= table.candidates@.len());
                    assert(path@[j0] == ids[n0 as int - 1]);
                    assert(table.candidates@[n0 as int - 1].action_id == ids[n0 as int - 1]);
                }
                if state_matches(current@, goal@) {
                    assert(nodes@ =~= seq![0u64]);
                    assert(path@ =~= Seq::<usize>::empty());
                }
            }
            path
        },
    }
}

/// The state a plan request sends an action to: straight to the evaluation
/// barrier as `Skipped` when the actor's current state already matches the
/// action's postconditions — such an action is never placed in `Evaluate` —
/// and to `Evaluate` otherwise.
pub open spec fn requested_action_state(cur: Map<u64, bool>, a: Action) -> ActionState {
    if state_matches(cur, a.postconditions@) {
        ActionState::EvaluationComplete(EvaluationResult::Skipped)
    } else {
        ActionState::Evaluate
    }
}

/// Some action of the roster `lst` is not already satisfied by `cur`, so a
/// plan request must actually be queued.
pub open spec fn request_needs_evaluation(
    actions: Seq<Action>,
    lst: Seq<usize>,
    cur: Map<u64, bool>,
) -> bool {
    exists|j: int|
        0 <= j < lst.len() && !state_matches(
            cur,
            actions[#[trigger] lst[j] as int].postconditions@,
        )
}

/// Handle one plan request: every action of the named actor whose
/// postconditions the actor's current state already matches is marked
/// `EvaluationComplete(Skipped)`; every other one is placed in `Evaluate`.
/// If at least one action needs evaluation the actor returns to
/// `AwaitingPlan` and is queued for planning; otherwise the request is
/// dropped. A request naming no existing actor is ignored.
pub fn request_plan_event_handler_system(goap: &mut Goap, ev: RequestPlanEvent)
    requires
        old(goap).wf(),
    ensures
        final(goap).wf(),
        ev.0 >= old(goap).actors@.len() ==> *final(goap) == *old(goap),
        ev.0 < old(goap).actors@.len() ==> {
            let t = ev.0 as int;
            let cur = old(goap).actors@[t].current_state@;
            let lst = old(goap).actors@[t].actions@;
            let needs_eval = request_needs_evaluation(old(goap).actions@, lst, cur);
            &&& final(goap).actions@.len() == old(goap).actions@.len()
            &&& forall|a: int|
                0 <= a < old(goap).actions@.len() && !lst.contains(a as usize)
                    ==> final(goap).actions@[a] == old(goap).actions@[a]
            &&& forall|j: int|
                0 <= j < lst.len() ==> final(goap).actions@[#[trigger] lst[j] as int] == (Action {
                    state: requested_action_state(cur, old(goap).actions@[lst[j] as int]),
                    ..old(goap).actions@[lst[j] as int]
                })
            &&& final(goap).actors@ == if needs_eval {
                old(goap).actors@.update(
                    t,
                    Actor { state: ActorState::AwaitingPlan, ..old(goap).actors@[t] },
                )
            } else {
                old(goap).actors@
            }
            &&& final(goap).planning.queue@ == if needs_eval {
                old(goap).planning.queue@.push(ev.0)
            } else {
                old(goap).planning.queue@
            }
            &&& final(goap).world_state == old(goap).world_state
        },
{
    let t = ev.0;
    if t >= goap.actors.len() {
        return ;
    }
    let n = goap.actors[t].actions.len();
    let ghost lst = goap.actors@[t as int].actions@;
    let ghost cur = goap.actors@[t as int].current_state@;
    let mut should_queue = false;
    let mut j: usize = 0;
    while j < n
        invariant
            old(goap).wf(),
            t < goap.actors@.len(),
            goap.actors == old(goap).actors,
            goap.planning == old(goap).planning,
            goap.world_state == old(goap).world_state,
            lst == old(goap).actors@[t as int].actions@,
            cur == old(goap).actors@[t as int].current_state@,
            n == lst.len(),
            0 <= j <= n,
            goap.actions@.len() == old(goap).actions@.len(),
            forall|a: int|
                0 <= a < old(goap).actions@.len() && !lst.take(j as int).contains(a as usize)
                    ==> goap.actions@[a] == old(goap).actions@[a],
            forall|j0: int|
                0 <= j0 < j ==> goap.actions@[#[trigger] lst[j0] as int] == (Action {
                    state: requested_action_state(cur, old(goap).actions@[lst[j0] as int]),
                    ..old(goap).actions@[lst[j0] as int]
                }),
            should_queue == request_needs_evaluation(
                old(goap).actions@,
                lst.take(j as int),
                cur,
            ),
        decreases n - j,
    {
        let a = goap.actors[t].actions[j];
        proof {
            assert(lst[j as int] == a);
            assert(lst.take(j as int + 1) =~= lst.take(j as int).push(a));
        }
        let matched = goap.actors[t].current_state.matches(&goap.actions[a].postconditions);
        proof {
            assert(goap.actions@[a as int].postconditions == old(
                goap,
            ).actions@[a as int].postconditions);
        }
        let ghost pre_loop_actions = goap.actions@;
        let slot = &mut goap.actions[a];
        if matched {
            slot.state = ActionState::EvaluationComplete(EvaluationResult::Skipped);
        } else {
            slot.state = ActionState::Evaluate;
            should_queue = true;
        }
        proof {
            let tj = lst.take(j as int);
            let tj1 = lst.take(j as int + 1);
            assert forall|a0: int|
                0 <= a0 < old(goap).actions@.len() && !tj1.contains(a0 as usize) implies
                goap.actions@[a0] == old(goap).actions@[a0] by {
                assert(!tj.contains(a0 as usize)) by {
                    if tj.contains(a0 as usize) {
                        let i0 = choose|i0: int| 0 <= i0 < tj.len() && tj[i0] == a0 as usize;
                        assert(tj1[i0] == a0 as usize);
                    }
                }
                assert(a0 != a as int) by {
                    if a0 == a as int {
                        assert(tj1[j as int] == a0 as usize);
                    }
                }
                assert(goap.actions@[a0] == pre_loop_actions[a0]);
            }
            if should_queue {
                if request_needs_evaluation(old(goap).actions@, tj, cur) {
                    let j0 = choose|j0: int|
                        0 <= j0 < tj.len() && !state_matches(
                            cur,
                            old(goap).actions@[#[trigger] tj[j0] as int].postconditions@,
                        );
                    assert(tj1[j0] == tj[j0]);
                    assert(!state_matches(
                        cur,
                        old(goap).actions@[tj1[j0] as int].postconditions@,
                    ));
                } else {
                    assert(tj1[j as int] == a as usize);
                    assert(!state_matches(cur, old(goap).actions@[a as int].postconditions@));
                }
                assert(request_needs_evaluation(old(goap).actions@, tj1, cur));
            } else {
                assert forall|j0: int| 0 <= j0 < tj1.len() implies state_matches(
                    cur,
                    old(goap).actions@[#[trigger] tj1[j0] as int].postconditions@,
                ) by {
                    if j0 < j {
                        assert(tj1[j0] == tj[j0]);
                        assert(!request_needs_evaluation(old(goap).actions@, tj, cur));
                        assert(state_matches(
                            cur,
                            old(goap).actions@[tj[j0] as int].postconditions@,
                        ));
                    } else {
                        assert(tj1[j0] == a as usize);
                    }
                }
            }
        }
        j += 1;
    }
    proof {
        assert(lst.take(n as int) =~= lst);
    }
    if should_queue {
        let ar = &mut goap.actors[t];
        ar.state = ActorState::AwaitingPlan;
        goap.planning.queue.push(t);
    }
}

/// All actions of the roster `lst` have reached the evaluation barrier.
pub open spec fn all_evaluation_complete(actions: Seq<Action>, lst: Seq<usize>) -> bool {
    forall|j: int|
        0 <= j < lst.len() ==> (#[trigger] actions[lst[j] as int]).state is EvaluationComplete
}

/// What the planner sees of the actions in `lst` whose evaluation succeeded,
/// in roster order: preconditions, postconditions, cost.
pub open spec fn successful_cand_views(actions: Seq<Action>, lst: Seq<usize>) -> Seq<
    (Map<u64, bool>, Map<u64, bool>, u64),
>
    decreases lst.len(),
{
    if lst.len() == 0 {
        Seq::empty()
    } else {
        let rest = successful_cand_views(actions, lst.drop_last());
        let a = actions[lst.last() as int];
        if a.state == ActionState::EvaluationComplete(EvaluationResult::Success) {
            rest.push((a.preconditions@, a.postconditions@, a.cost as u64))
        } else {
            rest
        }
    }
}

/// The arena indices of the actions in `lst` whose evaluation succeeded, in
/// roster order.
pub open spec fn successful_cand_ids(actions: Seq<Action>, lst: Seq<usize>) -> Seq<usize>
    decreases lst.len(),
{
    if lst.len() == 0 {
        Seq::empty()
    } else {
        let rest = successful_cand_ids(actions, lst.drop_last());
        let a = actions[lst.last() as int];
        if a.state == ActionState::EvaluationComplete(EvaluationResult::Success) {
            rest.push(lst.last())
        } else {
            rest
        }
    }
}

proof fn lemma_successful_ids_members(actions: Seq<Action>, lst: Seq<usize>)
    ensures
        forall|c: int|
            0 <= c < successful_cand_ids(actions, lst).len() ==> lst.contains(
                #[trigger] successful_cand_ids(actions, lst)[c],
            ),
    decreases lst.len(),
{
    if lst.len() > 0 {
        lemma_successful_ids_members(actions, lst.drop_last());
        let ids = successful_cand_ids(actions, lst);
        let rest = successful_cand_ids(actions, lst.drop_last());
        assert forall|c: int| 0 <= c < ids.len() implies lst.contains(#[trigger] ids[c]) by {
            if c < rest.len() {
                assert(lst.drop_last().contains(rest[c]));
                let j0 = choose|j0: int|
                    0 <= j0 < lst.drop_last().len() && lst.drop_last()[j0] == rest[c];
                assert(lst[j0] == rest[c]);
            } else {
                assert(lst[lst.len() - 1] == ids[c]);
            }
        }
    }
}

/// The candidate roster is a function of the actions the roster names alone.
proof fn lemma_successful_cands_congruent(a1: Seq<Action>, a2: Seq<Action>, lst: Seq<usize>)
    requires
        forall|j: int| 0 <= j < lst.len() ==> a1[#[trigger] lst[j] as int] == a2[lst[j] as int],
    ensures
        successful_cand_views(a1, lst) == successful_cand_views(a2, lst),
        successful_cand_ids(a1, lst) == successful_cand_ids(a2, lst),
    decreases lst.len(),
{
    if lst.len() > 0 {
        assert(forall|j: int|
            0 <= j < lst.drop_last().len() ==> a1[#[trigger] lst.drop_last()[j] as int]
                == a2[lst.drop_last()[j] as int]) by {
            assert(forall|j: int|
                0 <= j < lst.drop_last().len() ==> lst.drop_last()[j] == lst[j]);
        }
        lemma_successful_cands_congruent(a1, a2, lst.drop_last());
        assert(a1[lst[lst.len() - 1] as int] == a2[lst[lst.len() - 1] as int]);
    }
}

/// The action state installed after planning: the front of the path is
/// `Started`, the rest of the path `WaitingToStart`, and everything else is
/// excluded via `mark_not_in_plan`.
pub open spec fn installed_action_state(s: ActionState, a: usize, path: Seq<usize>) -> ActionState {
    if path.len() > 0 && a == path[0] {
        ActionState::Started
    } else if path.contains(a) {
        ActionState::WaitingToStart
    } else {
        crate::action::spec_mark_not_in_plan(s)
    }
}

/// The action path the planner computes for actor `t` from engine snapshot
/// `g`: the minimum-cost path the search finds among the actor's
/// successfully evaluated actions, from its current state to its goal.
pub open spec fn plan_for_actor(g: Goap, t: int) -> Seq<usize> {
    planned_path(
        successful_cand_views(g.actions@, g.actors@[t].actions@),
        successful_cand_ids(g.actions@, g.actors@[t].actions@),
        g.actors@[t].current_state@,
        g.actors@[t].current_goal@,
    )
}

/// Whether `lst` holds `x`.
fn contains_id(v: &Vec<usize>, x: usize) -> (r: bool)
    ensures
        r == v@.contains(x),
{
    let n = v.len();
    let mut i: usize = 0;
    while i < n
        invariant
            n == v@.len(),
            0 <= i <= n,
            forall|j: int| 0 <= j < i ==> v@[j] != x,
        decreases n - i,
    {
        if v[i] == x {
            return true;
        }
        i += 1;
    }
    false
}

/// Whether every action of actor `t` has reached the evaluation barrier.
fn all_ready(goap: &Goap, t: usize) -> (r: bool)
    requires
        goap.wf(),
        t < goap.actors@.len(),
    ensures
        r == all_evaluation_complete(goap.actions@, goap.actors@[t as int].actions@),
{
    let n = goap.actors[t].actions.len();
    let mut j: usize = 0;
    while j < n
        invariant
            goap.wf(),
            t < goap.actors@.len(),
            n == goap.actors@[t as int].actions@.len(),
            0 <= j <= n,
            forall|j0: int|
                0 <= j0 < j ==> (#[trigger] goap.actions@[goap.actors@[t as int].actions@[j0] as int]).state
                    is EvaluationComplete,
        decreases n - j,
    {
        let a = goap.actors[t].actions[j];
        let is_complete = matches!(goap.actions[a].state, ActionState::EvaluationComplete(_));
        if !is_complete {
            proof {
                assert(!(goap.actions@[goap.actors@[t as int].actions@[j as int] as int].state
                    is EvaluationComplete));
            }
            return false;
        }
        j += 1;
    }
    true
}

/// Plan for one actor whose actions have all reached the evaluation
/// barrier: run the planner on its successfully evaluated actions, install
/// the resulting path, hand out `Started` / `WaitingToStart` /
/// `NotInPlan` to its actions, and move the actor to `ExecutingPlan` or
/// `NoPlanAvailable`.
#[verifier::rlimit(100)]
fn plan_actor(goap: &mut Goap, t: usize)
    requires
        old(goap).wf(),
        t < old(goap).actors@.len(),
        all_evaluation_complete(old(goap).actions@, old(goap).actors@[t as int].actions@),
    ensures
        final(goap).wf(),
        final(goap).actions@.len() == old(goap).actions@.len(),
        final(goap).actors@.len() == old(goap).actors@.len(),
        final(goap).planning == old(goap).planning,
        final(goap).world_state == old(goap).world_state,
        forall|a: int|
            #![trigger final(goap).actions@[a]]
            0 <= a < old(goap).actions@.len() ==> {
                &&& final(goap).actions@[a].actor_id == old(goap).actions@[a].actor_id
                &&& final(goap).actions@[a].tag == old(goap).actions@[a].tag
                &&& final(goap).actions@[a].preconditions == old(goap).actions@[a].preconditions
                &&& final(goap).actions@[a].postconditions == old(
                    goap,
                ).actions@[a].postconditions
                &&& final(goap).actions@[a].cost == old(goap).actions@[a].cost
            },
        forall|t0: int|
            #![trigger final(goap).actors@[t0]]
            0 <= t0 < old(goap).actors@.len() && t0 != t as int ==> final(goap).actors@[t0]
                == old(goap).actors@[t0],
        forall|a: int|
            #![trigger final(goap).actions@[a]]
            0 <= a < old(goap).actions@.len() && !old(goap).actors@[t as int].actions@.contains(
                a as usize,
            ) ==> final(goap).actions@[a].state == old(goap).actions@[a].state,
        ({
            let lst = old(goap).actors@[t as int].actions@;
            let path = plan_for_actor(*old(goap), t as int);
            &&& final(goap).actors@[t as int].tag == old(goap).actors@[t as int].tag
            &&& final(goap).actors@[t as int].actions == old(goap).actors@[t as int].actions
            &&& final(goap).actors@[t as int].current_state == old(
                goap,
            ).actors@[t as int].current_state
            &&& final(goap).actors@[t as int].current_goal == old(
                goap,
            ).actors@[t as int].current_goal
            &&& final(goap).actors@[t as int].current_path@ == path
            &&& final(goap).actors@[t as int].state == (if path.len() > 0 {
                ActorState::ExecutingPlan
            } else {
                ActorState::NoPlanAvailable
            })
            &&& forall|j: int|
                0 <= j < lst.len() ==> final(goap).actions@[#[trigger] lst[j] as int].state
                    == installed_action_state(
                    old(goap).actions@[lst[j] as int].state,
                    lst[j],
                    path,
                )
        }),
{
    let ghost g0 = *old(goap);
    let ghost lst = g0.actors@[t as int].actions@;
    let lst_len = goap.actors[t].actions.len();
    let mut cands: Vec<Candidate> = Vec::new();
    let mut j: usize = 0;
    while j < lst_len
        invariant
            g0.wf(),
            *goap == g0,
            t < g0.actors@.len(),
            lst == g0.actors@[t as int].actions@,
            lst_len == lst.len(),
            0 <= j <= lst_len,
            cands@.len() <= j,
            cand_views(cands@) == successful_cand_views(g0.actions@, lst.take(j as int)),
            cand_ids(cands@) == successful_cand_ids(g0.actions@, lst.take(j as int)),
        decreases lst_len - j,
    {
        let a = goap.actors[t].actions[j];
        proof {
            assert(lst[j as int] == a);
            assert(lst.take(j as int + 1).drop_last() =~= lst.take(j as int));
            assert(lst.take(j as int + 1).last() == a);
        }
        let is_succ = matches!(
            goap.actions[a].state,
            ActionState::EvaluationComplete(EvaluationResult::Success)
        );
        if is_succ {
            let act = &goap.actions[a];
            cands.push(
                Candidate {
                    action_id: a,
                    preconditions: act.preconditions.cloned(),
                    postconditions: act.postconditions.cloned(),
                    cost: act.cost,
                },
            );
            proof {
                assert(g0.actions@[a as int].state == ActionState::EvaluationComplete(
                    EvaluationResult::Success,
                ));
                assert(cand_views(cands@) =~= successful_cand_views(
                    g0.actions@,
                    lst.take(j as int + 1),
                ));
                assert(cand_ids(cands@) =~= successful_cand_ids(
                    g0.actions@,
                    lst.take(j as int + 1),
                ));
            }
        } else {
            proof {
                assert(g0.actions@[a as int].state != ActionState::EvaluationComplete(
                    EvaluationResult::Success,
                ));
                assert(cand_views(cands@) =~= successful_cand_views(
                    g0.actions@,
                    lst.take(j as int + 1),
                ));
                assert(cand_ids(cands@) =~= successful_cand_ids(
                    g0.actions@,
                    lst.take(j as int + 1),
                ));
            }
        }
        j += 1;
    }
    proof {
        assert(lst.take(lst_len as int) =~= lst);
        assert(cands@.len() < 0x8000_0000);
        lemma_successful_ids_members(g0.actions@, lst);
    }
    let ghost sci = successful_cand_ids(g0.actions@, lst);
    let ghost cands_snap = cands@;
    let path = create_plan(&goap.actors[t].current_state, &goap.actors[t].current_goal, cands);
    let ghost pth = path@;
    proof {
        assert(pth == plan_for_actor(g0, t as int));
        assert forall|j0: int| 0 <= j0 < pth.len() implies lst.contains(#[trigger] pth[j0]) by {
            let c = choose|c: int|
                0 <= c < cands_snap.len() && #[trigger] pth[j0] == cands_snap[c].action_id;
            assert(cand_ids(cands_snap)[c] == cands_snap[c].action_id);
            assert(sci[c] == pth[j0]);
            assert(lst.contains(sci[c]));
        }
    }
    let first: Option<usize> = if path.len() > 0 {
        Some(path[0])
    } else {
        None
    };
    let has_plan = first.is_some();
    {
        let ar = &mut goap.actors[t];
        ar.current_path = path;
        if has_plan {
            ar.state = ActorState::ExecutingPlan;
        } else {
            ar.state = ActorState::NoPlanAvailable;
        }
    }
    let ghost g1 = *goap;
    let mut j: usize = 0;
    while j < lst_len
        invariant
            g0.wf(),
            t < g0.actors@.len(),
            lst == g0.actors@[t as int].actions@,
            lst_len == lst.len(),
            0 <= j <= lst_len,
            goap.actors == g1.actors,
            goap.planning == g1.planning,
            goap.world_state == g1.world_state,
            g1.actors@.len() == g0.actors@.len(),
            g1.planning == g0.planning,
            g1.world_state == g0.world_state,
            forall|t0: int|
                0 <= t0 < g0.actors@.len() && t0 != t as int ==> g1.actors@[t0] == g0.actors@[t0],
            g1.actors@[t as int] == (Actor {
                current_path: g1.actors@[t as int].current_path,
                state: if pth.len() > 0 {
                    ActorState::ExecutingPlan
                } else {
                    ActorState::NoPlanAvailable
                },
                ..g0.actors@[t as int]
            }),
            g1.actors@[t as int].current_path@ == pth,
            g1.actions == g0.actions,
            pth == plan_for_actor(g0, t as int),
            forall|j0: int| 0 <= j0 < pth.len() ==> lst.contains(#[trigger] pth[j0]),
            (first is Some) == (pth.len() > 0),
            first is Some ==> first->Some_0 == pth[0],
            goap.actions@.len() == g0.actions@.len(),
            forall|a: int|
                #![trigger goap.actions@[a]]
                0 <= a < g0.actions@.len() ==> {
                    &&& goap.actions@[a].actor_id == g0.actions@[a].actor_id
                    &&& goap.actions@[a].tag == g0.actions@[a].tag
                    &&& goap.actions@[a].preconditions == g0.actions@[a].preconditions
                    &&& goap.actions@[a].postconditions == g0.actions@[a].postconditions
                    &&& goap.actions@[a].cost == g0.actions@[a].cost
                },
            forall|a: int|
                #![trigger goap.actions@[a]]
                0 <= a < g0.actions@.len() && !lst.take(j as int).contains(a as usize)
                    ==> goap.actions@[a].state == g0.actions@[a].state,
            forall|j0: int|
                0 <= j0 < j ==> goap.actions@[#[trigger] lst[j0] as int].state
                    == installed_action_state(g0.actions@[lst[j0] as int].state, lst[j0], pth),
        decreases lst_len - j,
    {
        let a = goap.actors[t].actions[j];
        proof {
            assert(goap.actors@[t as int].actions == g0.actors@[t as int].actions);
            assert(lst[j as int] == a);
        }
        let is_first = match first {
            Some(f) => a == f,
            None => false,
        };
        if is_first {
            let slot = &mut goap.actions[a];
            slot.state = ActionState::Started;
        } else {
            let in_path = contains_id(&goap.actors[t].current_path, a);
            if in_path {
                let slot = &mut goap.actions[a];
                slot.state = ActionState::WaitingToStart;
            } else {
                let slot = &mut goap.actions[a];
                slot.state.mark_not_in_plan();
            }
        }
        proof {
            let ghost tj = lst.take(j as int);
            let ghost tj1 = lst.take(j as int + 1);
            assert(tj1 =~= tj.push(a));
            if lst.take(j as int).contains(a as usize) {
                let j0 = choose|j0: int| 0 <= j0 < j && lst.take(j as int)[j0] == a;
                assert(lst[j0] == a);
                assert(installed_action_state(g0.actions@[a as int].state, a, pth)
                    == goap.actions@[a as int].state) by {
                    assert(crate::action::spec_mark_not_in_plan(
                        crate::action::spec_mark_not_in_plan(g0.actions@[a as int].state),
                    ) == crate::action::spec_mark_not_in_plan(g0.actions@[a as int].state));
                }
            }
            assert forall|a0: int|
                0 <= a0 < g0.actions@.len() && !tj1.contains(a0 as usize) implies
                goap.actions@[a0].state == g0.actions@[a0].state by {
                assert(!tj.contains(a0 as usize)) by {
                    if tj.contains(a0 as usize) {
                        let i0 = choose|i0: int| 0 <= i0 < tj.len() && tj[i0] == a0 as usize;
                        assert(tj1[i0] == a0 as usize);
                    }
                }
                assert(a0 != a as int) by {
                    if a0 == a as int {
                        assert(tj1[j as int] == a0 as usize);
                    }
                }
            }
        }
        j += 1;
    }
    proof {
        assert(lst.take(lst_len as int) =~= lst);
        assert forall|t0: int|
            #![trigger goap.actors@[t0]]
            0 <= t0 < goap.actors@.len() implies (goap.actors@[t0].current_path@
                == g0.actors@[t0].current_path@ || (forall|j0: int|
            0 <= j0 < goap.actors@[t0].current_path@.len() ==> goap.actors@[t0].actions@.contains(
                #[trigger] goap.actors@[t0].current_path@[j0],
            ))) by {
            if t0 == t as int {
                let t0_acts = goap.actors@[t0].actions@;
                assert forall|j0: int| 0 <= j0 < goap.actors@[t0].current_path@.len() implies
                    t0_acts.contains(#[trigger] goap.actors@[t0].current_path@[j0]) by {
                    assert(goap.actors@[t0].current_path@[j0] == pth[j0]);
                    assert(lst.contains(pth[j0]));
                }
            } else {
                assert(goap.actors@[t0] == g0.actors@[t0]);
            }
        }
        assert forall|a0: int| 0 <= a0 < goap.actions@.len() implies (
        #[trigger] goap.actions@[a0]).actor_id == g0.actions@[a0].actor_id by {}
        assert forall|t0: int| 0 <= t0 < goap.actors@.len() implies (
        #[trigger] goap.actors@[t0]).actions == g0.actors@[t0].actions by {}
        lemma_wf_preserved(g0, *goap);
    }
}

proof fn lemma_contains_push(s: Seq<usize>, x: usize)
    ensures
        forall|y: usize| #[trigger] s.push(x).contains(y) <==> (s.contains(y) || y == x),
{
    assert forall|y: usize| #[trigger] s.push(x).contains(y) <==> (s.contains(y) || y == x) by {
        if s.contains(y) {
            let i = choose|i: int| 0 <= i < s.len() && s[i] == y;
            assert(s.push(x)[i] == y);
        }
        assert(s.push(x)[s.len() as int] == x);
        if s.push(x).contains(y) {
            let i = choose|i: int| 0 <= i < s.push(x).len() && s.push(x)[i] == y;
            if i < s.len() {
                assert(s[i] == y);
            }
        }
    }
}

/// Every actor in `processed` that had not reached the evaluation barrier in
/// snapshot `og` is untouched in `g` — actor and action states alike — and
/// still queued in `nq`.
pub open spec fn blocked_actor_kept_at(og: Goap, g: Goap, nq: Seq<usize>, t: int) -> bool {
    &&& g.actors@[t] == og.actors@[t]
    &&& nq.contains(t as usize)
    &&& forall|j: int|
        0 <= j < og.actors@[t].actions@.len() ==> g.actions@[(
        #[trigger] og.actors@[t].actions@[j]) as int].state
            == og.actions@[og.actors@[t].actions@[j] as int].state
}

pub open spec fn blocked_actors_kept(og: Goap, g: Goap, nq: Seq<usize>, processed: Seq<usize>) -> bool {
    forall|t: int|
        #![trigger g.actors@[t]]
        0 <= t < og.actors@.len() && processed.contains(t as usize) && !all_evaluation_complete(
            og.actions@,
            og.actors@[t].actions@,
        ) ==> blocked_actor_kept_at(og, g, nq, t)
}

/// No actor appears twice in the queue.
pub open spec fn no_dup(q: Seq<usize>) -> bool {
    forall|i: int, j: int| 0 <= i < j < q.len() ==> q[i] != q[j]
}

/// Drain the plan-request queue once: for each queued actor, if all of its
/// actions have reached the evaluation barrier — and only then — run the
/// planner and install the result; otherwise leave the actor untouched and
/// keep it queued for the next pass. The planner is never invoked for an
/// actor while any of its actions remains in `Evaluate`.
#[verifier::rlimit(100)]
pub fn create_plan_system(goap: &mut Goap)
    requires
        old(goap).wf(),
    ensures
        final(goap).wf(),
        final(goap).actions@.len() == old(goap).actions@.len(),
        final(goap).actors@.len() == old(goap).actors@.len(),
        final(goap).world_state == old(goap).world_state,
        forall|a: int|
            #![trigger final(goap).actions@[a]]
            0 <= a < old(goap).actions@.len() ==> {
                &&& final(goap).actions@[a].actor_id == old(goap).actions@[a].actor_id
                &&& final(goap).actions@[a].tag == old(goap).actions@[a].tag
                &&& final(goap).actions@[a].preconditions == old(goap).actions@[a].preconditions
                &&& final(goap).actions@[a].postconditions == old(
                    goap,
                ).actions@[a].postconditions
                &&& final(goap).actions@[a].cost == old(goap).actions@[a].cost
            },
        forall|t: int|
            #![trigger final(goap).actors@[t]]
            0 <= t < old(goap).actors@.len() ==> {
                &&& final(goap).actors@[t].tag == old(goap).actors@[t].tag
                &&& final(goap).actors@[t].actions == old(goap).actors@[t].actions
                &&& final(goap).actors@[t].current_state == old(goap).actors@[t].current_state
                &&& final(goap).actors@[t].current_goal == old(goap).actors@[t].current_goal
            },
        forall|t: int|
            #![trigger final(goap).actors@[t]]
            0 <= t < old(goap).actors@.len() && !old(goap).planning.queue@.contains(t as usize)
                ==> final(goap).actors@[t] == old(goap).actors@[t],
        forall|a: int|
            #![trigger final(goap).actions@[a]]
            0 <= a < old(goap).actions@.len() && !old(goap).planning.queue@.contains(
                old(goap).actions@[a].actor_id,
            ) ==> final(goap).actions@[a].state == old(goap).actions@[a].state,
        blocked_actors_kept(
            *old(goap),
            *final(goap),
            final(goap).planning.queue@,
            old(goap).planning.queue@,
        ),
        forall|t: int|
            #![trigger final(goap).actors@[t]]
            0 <= t < old(goap).actors@.len() && old(goap).planning.queue@.contains(t as usize)
                && all_evaluation_complete(old(goap).actions@, old(goap).actors@[t].actions@)
                ==> {
                let lst = old(goap).actors@[t].actions@;
                let path = plan_for_actor(*old(goap), t);
                &&& final(goap).actors@[t].current_path@ == path
                &&& final(goap).actors@[t].state == (if path.len() > 0 {
                    ActorState::ExecutingPlan
                } else {
                    ActorState::NoPlanAvailable
                })
                &&& forall|j: int|
                    0 <= j < lst.len() ==> final(goap).actions@[#[trigger] lst[j] as int].state
                        == installed_action_state(
                        old(goap).actions@[lst[j] as int].state,
                        lst[j],
                        path,
                    )
            },
        forall|x: usize|
            final(goap).planning.queue@.contains(x) ==> old(goap).planning.queue@.contains(x),
        no_dup(old(goap).planning.queue@) ==> forall|t: int|
            0 <= t < old(goap).actors@.len() && old(goap).planning.queue@.contains(t as usize)
                && all_evaluation_complete(old(goap).actions@, old(goap).actors@[t].actions@)
                ==> !final(goap).planning.queue@.contains(t as usize),
{
    let ghost og = *old(goap);
    let ghost oq = og.planning.queue@;
    let qlen = goap.planning.queue.len();
    let mut new_queue: Vec<usize> = Vec::new();
    let mut qi: usize = 0;
    while qi < qlen
        invariant
            og.wf(),
            goap.wf(),
            0 <= qi <= qlen,
            oq == og.planning.queue@,
            qlen == oq.len(),
            goap.planning == og.planning,
            goap.world_state == og.world_state,
            goap.actions@.len() == og.actions@.len(),
            goap.actors@.len() == og.actors@.len(),
            forall|a: int|
                #![trigger goap.actions@[a]]
                0 <= a < og.actions@.len() ==> {
                    &&& goap.actions@[a].actor_id == og.actions@[a].actor_id
                    &&& goap.actions@[a].tag == og.actions@[a].tag
                    &&& goap.actions@[a].preconditions == og.actions@[a].preconditions
                    &&& goap.actions@[a].postconditions == og.actions@[a].postconditions
                    &&& goap.actions@[a].cost == og.actions@[a].cost
                },
            forall|t: int|
                #![trigger goap.actors@[t]]
                0 <= t < og.actors@.len() ==> {
                    &&& goap.actors@[t].tag == og.actors@[t].tag
                    &&& goap.actors@[t].actions == og.actors@[t].actions
                    &&& goap.actors@[t].current_state == og.actors@[t].current_state
                    &&& goap.actors@[t].current_goal == og.actors@[t].current_goal
                },
            forall|t: int|
                #![trigger goap.actors@[t]]
                0 <= t < og.actors@.len() && !oq.take(qi as int).contains(t as usize)
                    ==> goap.actors@[t] == og.actors@[t],
            forall|a: int|
                #![trigger goap.actions@[a]]
                0 <= a < og.actions@.len() && !oq.take(qi as int).contains(
                    og.actions@[a].actor_id,
                ) ==> goap.actions@[a].state == og.actions@[a].state,
            blocked_actors_kept(og, *goap, new_queue@, oq.take(qi as int)),
            forall|t: int|
                #![trigger goap.actors@[t]]
                0 <= t < og.actors@.len() && oq.take(qi as int).contains(t as usize)
                    && all_evaluation_complete(og.actions@, og.actors@[t].actions@) ==> {
                    let lst = og.actors@[t].actions@;
                    let path = plan_for_actor(og, t);
                    &&& goap.actors@[t].current_path@ == path
                    &&& goap.actors@[t].state == (if path.len() > 0 {
                        ActorState::ExecutingPlan
                    } else {
                        ActorState::NoPlanAvailable
                    })
                    &&& forall|j: int|
                        0 <= j < lst.len() ==> goap.actions@[#[trigger] lst[j] as int].state
                            == installed_action_state(
                            og.actions@[lst[j] as int].state,
                            lst[j],
                            path,
                        )
                },
            forall|x: usize| new_queue@.contains(x) ==> oq.take(qi as int).contains(x),
            no_dup(oq) ==> forall|t: int|
                0 <= t < og.actors@.len() && oq.take(qi as int).contains(t as usize)
                    && all_evaluation_complete(og.actions@, og.actors@[t].actions@)
                    ==> !new_queue@.contains(t as usize),
        decreases qlen - qi,
    {
        let t = goap.planning.queue[qi];
        let ghost tq = oq.take(qi as int);
        let ghost tq1 = oq.take(qi as int + 1);
        proof {
            assert(oq[qi as int] == t);
            assert(tq1 =~= tq.push(t));
        }
        let ghost g_pre = *goap;
        if t < goap.actors.len() {
            let ready = all_ready(goap, t);
            if !ready {
                let ghost nq_pre = new_queue@;
                new_queue.push(t);
                proof {
                    lemma_contains_push(tq, t);
                    assert(tq1 == tq.push(t));
                    lemma_contains_push(nq_pre, t);
                    assert(new_queue@ == nq_pre.push(t));
                    let lst = og.actors@[t as int].actions@;
                    if !tq.contains(t) {
                        // fresh: this actor's action states still match the initial
                        // snapshot, so the barrier is not reached there either
                        assert(goap.actors@[t as int] == og.actors@[t as int]);
                        assert forall|j: int|
                            0 <= j < lst.len() implies goap.actions@[#[trigger] lst[j] as int]
                            == og.actions@[lst[j] as int] by {
                            assert(og.actions@[lst[j] as int].actor_id == t as usize);
                            assert(!tq.contains(og.actions@[lst[j] as int].actor_id));
                        }
                        assert(!all_evaluation_complete(og.actions@, lst)) by {
                            if all_evaluation_complete(og.actions@, lst) {
                                assert forall|j: int| 0 <= j < lst.len() implies (
                                #[trigger] goap.actions@[lst[j] as int]).state
                                    is EvaluationComplete by {
                                    assert(og.actions@[lst[j] as int].state
                                        is EvaluationComplete);
                                }
                            }
                        }
                    } else {
                        if all_evaluation_complete(og.actions@, lst) {
                            // a ready actor queued twice: the queue held a duplicate
                            let i0 = choose|i0: int| 0 <= i0 < tq.len() && tq[i0] == t;
                            assert(oq[i0] == t);
                            assert(!no_dup(oq));
                        }
                    }
                    assert forall|t0: int|
                        #![trigger goap.actors@[t0]]
                        0 <= t0 < og.actors@.len() && tq1.contains(t0 as usize)
                            && !all_evaluation_complete(og.actions@, og.actors@[t0].actions@)
                            implies blocked_actor_kept_at(og, *goap, new_queue@, t0) by {
                        assert(goap.actors@[t0] == g_pre.actors@[t0]);
                        assert(goap.actions == g_pre.actions);
                        if t0 == t as int && !tq.contains(t as usize) {
                            assert(g_pre.actors@[t0] == og.actors@[t0]);
                            assert(new_queue@.contains(t0 as usize));
                            assert forall|j: int|
                                0 <= j < og.actors@[t0].actions@.len() implies goap.actions@[(
                            #[trigger] og.actors@[t0].actions@[j]) as int].state == og.actions@[
                                og.actors@[t0].actions@[j] as int].state by {
                                assert(goap.actions@[lst[j] as int] == og.actions@[lst[j] as int]);
                            }
                            assert(blocked_actor_kept_at(og, *goap, new_queue@, t0));
                        } else {
                            assert(tq.contains(t0 as usize));
                            assert(blocked_actor_kept_at(og, g_pre, nq_pre, t0));
                            assert(nq_pre.contains(t0 as usize));
                            assert(new_queue@.contains(t0 as usize));
                            assert(blocked_actor_kept_at(og, *goap, new_queue@, t0));
                        }
                    }
                    assert(blocked_actors_kept(og, *goap, new_queue@, tq1));
                }
            } else {
                proof {
                    lemma_contains_push(tq, t);
                    assert(tq1 == tq.push(t));
                    let lst = og.actors@[t as int].actions@;
                    assert(g_pre.actors@[t as int].actions@ == lst);
                    if !tq.contains(t) {
                        assert(g_pre.actors@[t as int] == og.actors@[t as int]);
                        assert forall|j: int|
                            0 <= j < lst.len() implies g_pre.actions@[#[trigger] lst[j] as int]
                            == og.actions@[lst[j] as int] by {
                            assert(og.actions@[lst[j] as int].actor_id == t as usize);
                            assert(!tq.contains(og.actions@[lst[j] as int].actor_id));
                        }
                        assert(all_evaluation_complete(og.actions@, lst)) by {
                            assert forall|j: int| 0 <= j < lst.len() implies (
                            #[trigger] og.actions@[lst[j] as int]).state
                                is EvaluationComplete by {
                                assert(g_pre.actions@[lst[j] as int].state
                                    is EvaluationComplete);
                            }
                        }
                        lemma_successful_cands_congruent(g_pre.actions@, og.actions@, lst);
                    } else {
                        // a second queue entry for this actor: only an actor with no
                        // actions can still be at the barrier after its plan was
                        // installed, and replanning it is idempotent
                        assert(all_evaluation_complete(og.actions@, lst)) by {
                            if !all_evaluation_complete(og.actions@, lst) {
                                assert(g_pre.actors@[t as int] == og.actors@[t as int]);
                                assert(!all_evaluation_complete(g_pre.actions@, lst)) by {
                                    let j = choose|j: int|
                                        0 <= j < lst.len() && !((#[trigger] og.actions@[
                                        lst[j] as int]).state is EvaluationComplete);
                                    assert(g_pre.actions@[lst[j] as int].state
                                        == og.actions@[lst[j] as int].state);
                                }
                            }
                        }
                        assert(lst.len() == 0) by {
                            if lst.len() > 0 {
                                let pth0 = plan_for_actor(og, t as int);
                                assert(g_pre.actions@[lst[0] as int].state
                                    == installed_action_state(
                                    og.actions@[lst[0] as int].state,
                                    lst[0],
                                    pth0,
                                ));
                                assert(og.actions@[lst[0] as int].state
                                    is EvaluationComplete);
                                assert(!(g_pre.actions@[lst[0] as int].state
                                    is EvaluationComplete));
                            }
                        }
                        assert(successful_cand_views(g_pre.actions@, lst) =~= Seq::<(
                            Map<u64, bool>,
                            Map<u64, bool>,
                            u64,
                        )>::empty());
                        assert(successful_cand_views(og.actions@, lst) =~= Seq::<(
                            Map<u64, bool>,
                            Map<u64, bool>,
                            u64,
                        )>::empty());
                        assert(successful_cand_ids(g_pre.actions@, lst) =~= Seq::<
                            usize,
                        >::empty());
                        assert(successful_cand_ids(og.actions@, lst) =~= Seq::<usize>::empty());
                    }
                    assert(g_pre.actors@[t as int].current_state@ == og.actors@[
                        t as int].current_state@);
                    assert(g_pre.actors@[t as int].current_goal@ == og.actors@[
                        t as int].current_goal@);
                }
                plan_actor(goap, t);
                proof {
                    let lst = og.actors@[t as int].actions@;
                    assert(plan_for_actor(g_pre, t as int) == plan_for_actor(og, t as int));
                    let path = plan_for_actor(og, t as int);
                    assert forall|j: int| 0 <= j < lst.len() implies goap.actions@[
                        #[trigger] lst[j] as int].state == installed_action_state(
                        og.actions@[lst[j] as int].state,
                        lst[j],
                        path,
                    ) by {
                        assert(goap.actions@[lst[j] as int].state == installed_action_state(
                            g_pre.actions@[lst[j] as int].state,
                            lst[j],
                            path,
                        ));
                        assert(g_pre.actions@[lst[j] as int] == og.actions@[lst[j] as int]);
                    }
                    if no_dup(oq) {
                        assert(!new_queue@.contains(t)) by {
                            if new_queue@.contains(t) {
                                assert(tq.contains(t));
                                let i0 = choose|i0: int| 0 <= i0 < tq.len() && tq[i0] == t;
                                assert(oq[i0] == t);
                            }
                        }
                    }
                    // actions of other actors are untouched by this planning round
                    assert forall|a0: int|
                        0 <= a0 < og.actions@.len() && og.actions@[a0].actor_id != t as usize
                            implies goap.actions@[a0].state == g_pre.actions@[a0].state by {
                        assert(!lst.contains(a0 as usize)) by {
                            if lst.contains(a0 as usize) {
                                let j0 = choose|j0: int| 0 <= j0 < lst.len() && lst[j0] == a0 as usize;
                                assert(og.actions@[lst[j0] as int].actor_id == t as usize);
                            }
                        }
                        assert(g_pre.actors@[t as int].actions@ == lst);
                    }
                    assert forall|t0: int|
                        #![trigger goap.actors@[t0]]
                        0 <= t0 < og.actors@.len() && tq1.contains(t0 as usize)
                            && !all_evaluation_complete(og.actions@, og.actors@[t0].actions@)
                            implies blocked_actor_kept_at(og, *goap, new_queue@, t0) by {
                        assert(t0 != t as int);
                        assert(tq.contains(t0 as usize));
                        assert(blocked_actor_kept_at(og, g_pre, new_queue@, t0));
                        assert(goap.actors@[t0] == g_pre.actors@[t0]);
                        assert forall|j: int|
                            0 <= j < og.actors@[t0].actions@.len() implies goap.actions@[(
                        #[trigger] og.actors@[t0].actions@[j]) as int].state == og.actions@[
                            og.actors@[t0].actions@[j] as int].state by {
                            let a0 = og.actors@[t0].actions@[j];
                            assert(og.actions@[a0 as int].actor_id == t0 as usize);
                            assert(goap.actions@[a0 as int].state
                                == g_pre.actions@[a0 as int].state);
                            assert(g_pre.actions@[a0 as int].state == og.actions@[
                                a0 as int].state);
                        }
                        assert(blocked_actor_kept_at(og, *goap, new_queue@, t0));
                    }
                    assert(blocked_actors_kept(og, *goap, new_queue@, tq1));
                }
            }
        } else {
            proof {
                lemma_contains_push(tq, t);
                assert(tq1 == tq.push(t));
                assert forall|t0: int|
                    #![trigger goap.actors@[t0]]
                    0 <= t0 < og.actors@.len() && tq1.contains(t0 as usize)
                        && !all_evaluation_complete(og.actions@, og.actors@[t0].actions@) implies
                    blocked_actor_kept_at(og, *goap, new_queue@, t0) by {
                    assert(tq.contains(t0 as usize));
                    assert(goap.actors@[t0] == g_pre.actors@[t0]);
                    assert(blocked_actor_kept_at(og, g_pre, new_queue@, t0));
                }
                assert(blocked_actors_kept(og, *goap, new_queue@, tq1));
            }
        }
        qi += 1;
    }
    proof {
        assert(oq.take(qlen as int) =~= oq);
        assert forall|x: int|
            0 <= x < new_queue@.len() implies (#[trigger] new_queue@[x]) < goap.actors@.len() by {
            assert(new_queue@.contains(new_queue@[x]));
            assert(oq.contains(new_queue@[x]));
            let i0 = choose|i0: int| 0 <= i0 < oq.len() && oq[i0] == new_queue@[x];
            assert(og.planning.queue@[i0] < og.actors@.len());
        }
    }
    goap.planning.queue = new_queue;
}

/// Planning is deterministic: for one candidate roster, start state and
/// goal, re-running the planner reproduces the same action path.
pub proof fn lemma_plan_deterministic(
    cands1: Seq<Candidate>,
    start1: Map<u64, bool>,
    goal1: Map<u64, bool>,
    cands2: Seq<Candidate>,
    start2: Map<u64, bool>,
    goal2: Map<u64, bool>,
)
    requires
        cand_views(cands1) == cand_views(cands2),
        cand_ids(cands1) == cand_ids(cands2),
        start1 == start2,
        goal1 == goal2,
    ensures
        planned_path(cand_views(cands1), cand_ids(cands1), start1, goal1) == planned_path(
            cand_views(cands2),
            cand_ids(cands2),
            start2,
            goal2,
        ),
{
}

} // verus!
