//! World state: a partial assignment of boolean values to condition kinds.
//!
//! A condition kind is identified by a `u64` handle; a world state maps
//! handles to booleans. Absence of a handle means "unconstrained", which is
//! distinct from either boolean value. The model of a state is a
//! `Map<u64, bool>`.

use vstd::prelude::*;

verus! {

/// `s` satisfies `t`: every condition in `t` is present in `s` with the same
/// value. Extra conditions in `s` are ignored; a condition missing from `s`
/// counts as a mismatch.
pub open spec fn state_matches(s: Map<u64, bool>, t: Map<u64, bool>) -> bool {
    forall|k: u64| #[trigger] t.dom().contains(k) ==> s.dom().contains(k) && s[k] == t[k]
}

/// The conditions of `t` that are absent from `s` or carry a different value
/// in `s`.
pub open spec fn mismatch_keys(s: Map<u64, bool>, t: Map<u64, bool>) -> Set<u64> {
    t.dom().filter(|k: u64| !(s.dom().contains(k) && s[k] == t[k]))
}

/// How many conditions of `t` are absent from `s` or differ in `s`.
pub open spec fn state_mismatch_count(s: Map<u64, bool>, t: Map<u64, bool>) -> nat {
    mismatch_keys(s, t).len()
}

/// The map described by a sequence of (key, value) entries; later entries win.
pub(crate) open spec fn map_of(s: Seq<(u64, bool)>) -> Map<u64, bool>
    decreases s.len(),
{
    if s.len() == 0 {
        Map::empty()
    } else {
        map_of(s.drop_last()).insert(s.last().0, s.last().1)
    }
}

/// Entry keys strictly increase, so keys are unique and the order is canonical.
pub(crate) open spec fn keys_sorted(s: Seq<(u64, bool)>) -> bool {
    forall|i: int, j: int| 0 <= i < j < s.len() ==> s[i].0 < s[j].0
}

pub(crate) proof fn lemma_map_of_contains(s: Seq<(u64, bool)>)
    ensures
        forall|k: u64|
            map_of(s).dom().contains(k) <==> (exists|i: int|
                0 <= i < s.len() && #[trigger] s[i].0 == k),
        map_of(s).dom().finite(),
    decreases s.len(),
{
    if s.len() > 0 {
        lemma_map_of_contains(s.drop_last());
        assert forall|k: u64| map_of(s).dom().contains(k) implies (exists|i: int|
            0 <= i < s.len() && #[trigger] s[i].0 == k) by {
            if k == s.last().0 {
                assert(s[s.len() - 1].0 == k);
            } else {
                let i = choose|i: int| 0 <= i < s.drop_last().len() && #[trigger] s.drop_last()[i].0
                    == k;
                assert(s[i].0 == k);
            }
        }
        assert forall|k: u64| (exists|i: int| 0 <= i < s.len() && #[trigger] s[i].0 == k) implies
            map_of(s).dom().contains(k) by {
            let i = choose|i: int| 0 <= i < s.len() && #[trigger] s[i].0 == k;
            if i < s.len() - 1 {
                assert(s.drop_last()[i].0 == k);
            }
        }
    }
}

pub(crate) proof fn lemma_map_of_index(s: Seq<(u64, bool)>)
    requires
        keys_sorted(s),
    ensures
        forall|i: int|
            0 <= i < s.len() ==> map_of(s).dom().contains(#[trigger] s[i].0) && map_of(s)[s[i].0]
                == s[i].1,
    decreases s.len(),
{
    if s.len() > 0 {
        lemma_map_of_index(s.drop_last());
        assert forall|i: int| 0 <= i < s.len() implies map_of(s).dom().contains(
            #[trigger] s[i].0,
        ) && map_of(s)[s[i].0] == s[i].1 by {
            if i < s.len() - 1 {
                assert(s.drop_last()[i] == s[i]);
                assert(s[i].0 < s.last().0);
            }
        }
    }
}

/// The keys of a concatenation: entries of `b` win over entries of `a`.
pub(crate) proof fn lemma_map_of_concat(a: Seq<(u64, bool)>, b: Seq<(u64, bool)>)
    ensures
        map_of(a + b) == map_of(a).union_prefer_right(map_of(b)),
    decreases b.len(),
{
    if b.len() == 0 {
        assert(a + b =~= a);
        assert(map_of(a).union_prefer_right(map_of(b)) =~= map_of(a));
    } else {
        lemma_map_of_concat(a, b.drop_last());
        assert((a + b).drop_last() =~= a + b.drop_last());
        assert((a + b).last() == b.last());
        assert(map_of(a).union_prefer_right(map_of(b.drop_last())).insert(b.last().0, b.last().1)
            =~= map_of(a).union_prefer_right(map_of(b)));
    }
}

proof fn lemma_map_of_singleton(key: u64, value: bool)
    ensures
        map_of(seq![(key, value)]) == Map::<u64, bool>::empty().insert(key, value),
{
    let kv = seq![(key, value)];
    assert(kv.drop_last() =~= Seq::<(u64, bool)>::empty());
    assert(map_of(kv.drop_last()) =~= Map::<u64, bool>::empty());
}

/// Splicing `(key, value)` into a sorted entry sequence in place of the
/// entries carrying `key` inserts `key` into the described map.
proof fn lemma_insert_splice(e: Seq<(u64, bool)>, p: int, q: int, key: u64, value: bool)
    requires
        keys_sorted(e),
        0 <= p <= q <= e.len(),
        forall|j: int| 0 <= j < p ==> #[trigger] e[j].0 < key,
        forall|j: int| q <= j < e.len() ==> #[trigger] e[j].0 > key,
        forall|j: int| p <= j < q ==> #[trigger] e[j].0 == key,
    ensures
        map_of(e.take(p) + seq![(key, value)] + e.subrange(q, e.len() as int)) == map_of(e).insert(
            key,
            value,
        ),
        keys_sorted(e.take(p) + seq![(key, value)] + e.subrange(q, e.len() as int)),
{
    let n = e.len() as int;
    let pre = e.take(p);
    let mid = e.subrange(p, q);
    let suf = e.subrange(q, n);
    let kv = seq![(key, value)];
    let out = pre + kv + suf;
    assert(e =~= pre + mid + suf);
    lemma_map_of_concat(pre + kv, suf);
    lemma_map_of_concat(pre, kv);
    lemma_map_of_concat(pre + mid, suf);
    lemma_map_of_concat(pre, mid);
    lemma_map_of_contains(pre);
    lemma_map_of_contains(mid);
    lemma_map_of_contains(suf);
    lemma_map_of_singleton(key, value);
    assert forall|k: u64| map_of(mid).dom().contains(k) implies k == key by {
        let j = choose|j: int| 0 <= j < mid.len() && #[trigger] mid[j].0 == k;
        assert(e[p + j] == mid[j]);
    }
    assert forall|k: u64| map_of(pre).dom().contains(k) implies k < key by {
        let j = choose|j: int| 0 <= j < pre.len() && #[trigger] pre[j].0 == k;
        assert(e[j] == pre[j]);
    }
    assert forall|k: u64| map_of(suf).dom().contains(k) implies k > key by {
        let j = choose|j: int| 0 <= j < suf.len() && #[trigger] suf[j].0 == k;
        assert(e[q + j] == suf[j]);
    }
    assert(map_of(out) =~= map_of(e).insert(key, value));
    assert forall|x: int, y: int| 0 <= x < y < out.len() implies out[x].0 < out[y].0 by {
        if x < p {
            assert(out[x] == e[x]);
        } else if x > p {
            assert(out[x] == e[q + (x - p - 1)]);
        }
        if y < p {
            assert(out[y] == e[y]);
        } else if y > p {
            assert(out[y] == e[q + (y - p - 1)]);
        }
    }
}

/// A world state: the unit of comparison and mutation in planning.
pub struct GoapState {
    entries: Vec<(u64, bool)>,
}

impl View for GoapState {
    type V = Map<u64, bool>;

    closed spec fn view(&self) -> Map<u64, bool> {
        map_of(self.entries@)
    }
}

impl GoapState {
    #[verifier::type_invariant]
    pub(crate) closed spec fn inv(&self) -> bool {
        keys_sorted(self.entries@)
    }

    /// The state with no conditions.
    pub fn new() -> (r: Self)
        ensures
            r@ == Map::<u64, bool>::empty(),
    {
        GoapState { entries: Vec::new() }
    }

    /// A copy of this state.
    pub fn cloned(&self) -> (r: Self)
        ensures
            r@ == self@,
    {
        proof {
            use_type_invariant(self);
        }
        let n = self.entries.len();
        let mut out: Vec<(u64, bool)> = Vec::new();
        let mut i: usize = 0;
        while i < n
            invariant
                n == self.entries@.len(),
                0 <= i <= n,
                out@ == self.entries@.take(i as int),
                keys_sorted(self.entries@),
            decreases n - i,
        {
            out.push(self.entries[i]);
            proof {
                assert(out@ =~= self.entries@.take(i + 1));
            }
            i += 1;
        }
        proof {
            assert(self.entries@.take(n as int) =~= self.entries@);
        }
        GoapState { entries: out }
    }

    /// The value of condition `key`, or `None` if the state does not
    /// constrain it.
    pub fn get(&self, key: u64) -> (r: Option<bool>)
        ensures
            r == if self@.dom().contains(key) {
                Some(self@[key])
            } else {
                None::<bool>
            },
    {
        proof {
            use_type_invariant(self);
            lemma_map_of_contains(self.entries@);
            lemma_map_of_index(self.entries@);
        }
        let n = self.entries.len();
        let mut i: usize = 0;
        while i < n
            invariant
                n == self.entries@.len(),
                0 <= i <= n,
                keys_sorted(self.entries@),
                forall|j: int| 0 <= j < i ==> #[trigger] self.entries@[j].0 != key,
                forall|k: u64|
                    self@.dom().contains(k) <==> (exists|j: int|
                        0 <= j < n && #[trigger] self.entries@[j].0 == k),
                forall|j: int|
                    0 <= j < n ==> self@.dom().contains(#[trigger] self.entries@[j].0)
                        && self@[self.entries@[j].0] == self.entries@[j].1,
            decreases n - i,
        {
            let (k, v) = self.entries[i];
            if k == key {
                return Some(v);
            }
            i += 1;
        }
        None
    }

    /// Constrain condition `key` to `value`, replacing any previous value.
    pub fn insert(&mut self, key: u64, value: bool)
        ensures
            final(self)@ == old(self)@.insert(key, value),
    {
        proof {
            use_type_invariant(&*self);
        }
        let n = self.entries.len();
        let mut out: Vec<(u64, bool)> = Vec::new();
        let mut i: usize = 0;
        while i < n && self.entries[i].0 < key
            invariant
                n == self.entries@.len(),
                0 <= i <= n,
                keys_sorted(self.entries@),
                out@ == self.entries@.take(i as int),
                forall|j: int| 0 <= j < i ==> #[trigger] self.entries@[j].0 < key,
            decreases n - i,
        {
            out.push(self.entries[i]);
            proof {
                assert(out@ =~= self.entries@.take(i + 1));
            }
            i += 1;
        }
        let ghost p = i as int;
        out.push((key, value));
        if i < n && self.entries[i].0 == key {
            i += 1;
        }
        let ghost q = i as int;
        while i < n
            invariant
                n == self.entries@.len(),
                0 <= p <= q <= i <= n,
                keys_sorted(self.entries@),
                out@ == self.entries@.take(p) + seq![(key, value)] + self.entries@.subrange(
                    q,
                    i as int,
                ),
                forall|j: int| 0 <= j < p ==> #[trigger] self.entries@[j].0 < key,
                forall|j: int| q <= j < n ==> #[trigger] self.entries@[j].0 > key,
            decreases n - i,
        {
            out.push(self.entries[i]);
            proof {
                assert(self.entries@.subrange(q, i as int + 1) =~= self.entries@.subrange(
                    q,
                    i as int,
                ).push(self.entries@[i as int]));
                assert(out@ =~= self.entries@.take(p) + seq![(key, value)]
                    + self.entries@.subrange(q, i as int + 1));
            }
            i += 1;
        }
        proof {
            lemma_insert_splice(self.entries@, p, q, key, value);
            assert(out@ =~= self.entries@.take(p) + seq![(key, value)] + self.entries@.subrange(
                q,
                n as int,
            ));
        }
        self.entries = out;
    }

    /// Merge `other` into this state: `other`'s entries win on conflict and
    /// new entries are added. This is the sole mutation primitive used by the
    /// engine outside of `insert`.
    pub fn extend(&mut self, other: GoapState)
        ensures
            final(self)@ == old(self)@.union_prefer_right(other@),
    {
        let m = other.entries.len();
        let mut i: usize = 0;
        while i < m
            invariant
                m == other.entries@.len(),
                0 <= i <= m,
                self@ == old(self)@.union_prefer_right(map_of(other.entries@.take(i as int))),
            decreases m - i,
        {
            let (k, v) = other.entries[i];
            self.insert(k, v);
            proof {
                assert(other.entries@.take(i as int + 1).drop_last() =~= other.entries@.take(
                    i as int,
                ));
                assert(old(self)@.union_prefer_right(map_of(other.entries@.take(i as int))).insert(
                    k,
                    v,
                ) =~= old(self)@.union_prefer_right(
                    map_of(other.entries@.take(i as int)).insert(k, v),
                ));
            }
            i += 1;
        }
        proof {
            assert(other.entries@.take(m as int) =~= other.entries@);
        }
    }

    /// How many conditions of `target` this state misses or contradicts; the
    /// planner's search heuristic.
    pub fn mismatch_count(&self, target: &GoapState) -> (r: usize)
        ensures
            r == state_mismatch_count(self@, target@),
    {
        proof {
            use_type_invariant(target);
            lemma_entries_mismatch(self@, target.entries@);
        }
        let n = target.entries.len();
        let mut count: usize = 0;
        let mut i: usize = 0;
        while i < n
            invariant
                n == target.entries@.len(),
                0 <= i <= n,
                count <= i,
                count == entries_mismatch_count(self@, target.entries@.take(i as int)),
            decreases n - i,
        {
            let (k, v) = target.entries[i];
            let mismatched = match self.get(k) {
                Some(cur) => cur != v,
                None => true,
            };
            proof {
                assert(target.entries@.take(i as int + 1).drop_last() =~= target.entries@.take(
                    i as int,
                ));
                assert(target.entries@.take(i as int + 1).last() == target.entries@[i as int]);
            }
            if mismatched {
                count += 1;
            }
            i += 1;
        }
        proof {
            assert(target.entries@.take(n as int) =~= target.entries@);
        }
        count
    }

    /// Whether this state satisfies `target`: every condition in `target` is
    /// present here with the same value.
    pub fn matches(&self, target: &GoapState) -> (r: bool)
        ensures
            r == state_matches(self@, target@),
    {
        let c = self.mismatch_count(target);
        proof {
            use_type_invariant(target);
            lemma_map_of_contains(target.entries@);
            lemma_matches_iff_mismatch_zero(self@, target@);
        }
        c == 0
    }
}

/// How many entries of `entries` are absent from `s` or differ in `s`,
/// counted over the sequence.
pub(crate) open spec fn entries_mismatch_count(s: Map<u64, bool>, entries: Seq<(u64, bool)>) -> nat
    decreases entries.len(),
{
    if entries.len() == 0 {
        0
    } else {
        entries_mismatch_count(s, entries.drop_last()) + if !(s.dom().contains(entries.last().0)
            && s[entries.last().0] == entries.last().1) {
            1nat
        } else {
            0nat
        }
    }
}

/// Counting mismatches over a sorted entry sequence counts the mismatched
/// keys of the map it describes.
pub(crate) proof fn lemma_entries_mismatch(s: Map<u64, bool>, entries: Seq<(u64, bool)>)
    requires
        keys_sorted(entries),
    ensures
        entries_mismatch_count(s, entries) == state_mismatch_count(s, map_of(entries)),
    decreases entries.len(),
{
    broadcast use vstd::set::group_set_axioms;

    if entries.len() == 0 {
        assert(mismatch_keys(s, map_of(entries)) =~= Set::empty());
    } else {
        let e = entries;
        let dl = e.drop_last();
        let k = e.last().0;
        let v = e.last().1;
        lemma_entries_mismatch(s, dl);
        lemma_map_of_contains(dl);
        assert(!map_of(dl).dom().contains(k)) by {
            if map_of(dl).dom().contains(k) {
                let j = choose|j: int| 0 <= j < dl.len() && #[trigger] dl[j].0 == k;
                assert(e[j].0 < e[e.len() - 1].0);
            }
        }
        map_of(dl).dom().lemma_len_filter(|k2: u64| !(s.dom().contains(k2) && s[k2] == map_of(dl)[k2]));
        if !(s.dom().contains(k) && s[k] == v) {
            assert(mismatch_keys(s, map_of(e)) =~= mismatch_keys(s, map_of(dl)).insert(k));
            vstd::set::axiom_set_insert_len(mismatch_keys(s, map_of(dl)), k);
        } else {
            assert(mismatch_keys(s, map_of(e)) =~= mismatch_keys(s, map_of(dl)));
        }
    }
}

/// A world state constrains finitely many conditions.
pub proof fn lemma_view_finite(s: GoapState)
    ensures
        s@.dom().finite(),
{
    lemma_map_of_contains(s.entries@);
}

/// A state matches a target exactly when it has no mismatch against it.
pub proof fn lemma_matches_iff_mismatch_zero(s: Map<u64, bool>, t: Map<u64, bool>)
    requires
        t.dom().finite(),
    ensures
        state_matches(s, t) <==> state_mismatch_count(s, t) == 0,
{
    broadcast use vstd::set::group_set_axioms;

    t.dom().lemma_len_filter(|k: u64| !(s.dom().contains(k) && s[k] == t[k]));
    if state_matches(s, t) {
        assert(mismatch_keys(s, t) =~= Set::empty());
    } else if state_mismatch_count(s, t) == 0 {
        mismatch_keys(s, t).lemma_len0_is_empty();
        assert forall|k: u64| #[trigger] t.dom().contains(k) implies s.dom().contains(k) && s[k]
            == t[k] by {
            if !(s.dom().contains(k) && s[k] == t[k]) {
                assert(mismatch_keys(s, t).contains(k));
            }
        }
    }
}

/// Every state matches itself.
pub proof fn lemma_matches_self(s: Map<u64, bool>)
    ensures
        state_matches(s, s),
{
}

/// Merging is right-biased: for every condition, the merged state holds the
/// right-hand value where the right-hand state constrains it, and the
/// left-hand value otherwise.
pub proof fn lemma_merge_right_biased(a: Map<u64, bool>, b: Map<u64, bool>, k: u64)
    ensures
        a.union_prefer_right(b).dom().contains(k) <==> (a.dom().contains(k) || b.dom().contains(
            k,
        )),
        b.dom().contains(k) ==> a.union_prefer_right(b)[k] == b[k],
        !b.dom().contains(k) && a.dom().contains(k) ==> a.union_prefer_right(b)[k] == a[k],
{
}

/// A world-level state holder, kept alongside the actors for conditions that
/// describe the world rather than a single agent.
pub struct GoapWorldState {
    state: GoapState,
}

impl View for GoapWorldState {
    type V = Map<u64, bool>;

    closed spec fn view(&self) -> Map<u64, bool> {
        self.state@
    }
}

impl GoapWorldState {
    /// A world state constraining nothing.
    pub fn new() -> (r: Self)
        ensures
            r@ == Map::<u64, bool>::empty(),
    {
        GoapWorldState { state: GoapState::new() }
    }

    /// A copy of the held state.
    pub fn get(&self) -> (r: GoapState)
        ensures
            r@ == self@,
    {
        self.state.cloned()
    }

    /// Constrain condition `key` to `value`.
    pub fn insert(&mut self, key: u64, value: bool)
        ensures
            final(self)@ == old(self)@.insert(key, value),
    {
        self.state.insert(key, value);
    }
}

} // verus!
