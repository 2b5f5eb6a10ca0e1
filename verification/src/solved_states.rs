use crate::pareto::ParetoValue;
use crate::reduced_state::{lemma_key_determines_state, ReducedState};
use rustc_hash::{FxBuildHasher, FxHashMap, FxHashSet};
use vstd::prelude::*;

verus! {

/// `FxBuildHasher` of rustc_hash, the hasher of the tables. The type is
/// carried through only: nothing is said of its values.
#[verifier::external_type_specification]
#[verifier::external_body]
pub struct ExFxBuildHasher(FxBuildHasher);

/// `FxHashMap::default` of rustc_hash, which is std's `HashMap::default` with
/// the hasher `FxBuildHasher`: the map that it returns holds no entry.
#[verifier::external_body]
fn fx_map_new() -> (map: FxHashMap<u64, Vec<ParetoValue>>)
    ensures
        forall|key: u64| !map@.contains_key(key),
{
    FxHashMap::default()
}

/// std's `HashMap::insert` on a map that hashes with `FxBuildHasher`. Every
/// hasher that `FxBuildHasher` builds starts from the same state, so a key
/// hashes alike each time, and std's promise holds: after the call the map holds
/// `value` under `key`, in place of what was there, and everything else as before.
#[verifier::external_body]
fn fx_map_insert(map: &mut FxHashMap<u64, Vec<ParetoValue>>, key: u64, value: Vec<ParetoValue>)
    ensures
        final(map)@ == old(map)@.insert(key, value),
{
    map.insert(key, value);
}

/// std's `HashMap::get` on a map that hashes with `FxBuildHasher`: the value
/// under `key`, if the map holds one.
#[verifier::external_body]
fn fx_map_get(map: &FxHashMap<u64, Vec<ParetoValue>>, key: u64) -> (found: Option<
    &Vec<ParetoValue>,
>)
    ensures
        match found {
            Some(value) => map@.contains_key(key) && *value == map@[key],
            None => !map@.contains_key(key),
        },
{
    map.get(&key)
}

/// `FxHashSet::default` of rustc_hash, which is std's `HashSet::default` with
/// the hasher `FxBuildHasher`: the set that it returns holds nothing.
#[verifier::external_body]
fn fx_set_new() -> (set: FxHashSet<u64>)
    ensures
        forall|key: u64| !set@.contains(key),
{
    FxHashSet::default()
}

/// std's `HashSet::insert` on a set that hashes with `FxBuildHasher`: the set
/// holds `key` after the call and everything that it held before, and the
/// result says whether `key` was new to it.
#[verifier::external_body]
fn fx_set_insert(set: &mut FxHashSet<u64>, key: u64) -> (fresh: bool)
    ensures
        final(set)@ == old(set)@.insert(key),
        fresh == !old(set)@.contains(key),
{
    set.insert(key)
}

/// A set of keys, hashed as the solver's tables are.
pub struct KeySet {
    set: FxHashSet<u64>,
}

impl View for KeySet {
    type V = Set<u64>;

    closed spec fn view(&self) -> Set<u64> {
        self.set@
    }
}

impl KeySet {
    pub fn new() -> (r: KeySet)
        ensures
            r@ == Set::<u64>::empty(),
    {
        let set = fx_set_new();
        proof {
            assert(set@ =~= Set::<u64>::empty());
        }
        KeySet { set }
    }

    /// Puts `key` into the set and says whether it was new.
    pub fn insert(&mut self, key: u64) -> (fresh: bool)
        ensures
            final(self)@ == old(self)@.insert(key),
            fresh == !old(self)@.contains(key),
    {
        fx_set_insert(&mut self.set, key)
    }
}

/// The number of points of all frontiers of a table.
pub open spec fn total_points(solved: Map<ReducedState, Seq<ParetoValue>>) -> nat {
    solved.kv_pairs().fold(
        0nat,
        |sum: nat, entry: (ReducedState, Seq<ParetoValue>)| sum + entry.1.len(),
    )
}

/// `n`, or the largest `usize` where `n` is larger.
pub open spec fn capped(n: nat) -> usize {
    if n <= usize::MAX {
        n as usize
    } else {
        usize::MAX
    }
}

/// The frontiers that were computed, each under its reduced state.
pub struct SolvedStates {
    map: FxHashMap<u64, Vec<ParetoValue>>,
    states: usize,
    values: usize,
}

impl View for SolvedStates {
    type V = Map<ReducedState, Seq<ParetoValue>>;

    closed spec fn view(&self) -> Map<ReducedState, Seq<ParetoValue>> {
        Map::new(
            |state: ReducedState| self.map@.contains_key(state.spec_key()),
            |state: ReducedState| self.map@[state.spec_key()]@,
        )
    }
}

impl SolvedStates {
    /// The table is finite, and the two counts are those of its entries and of
    /// their points.
    pub closed spec fn wf(&self) -> bool {
        &&& self@.dom().finite()
        &&& self@.kv_pairs().finite()
        &&& self.states == capped(self@.dom().len())
        &&& self.values == capped(total_points(self@))
    }

    /// No frontier yet.
    pub fn new() -> (r: SolvedStates)
        ensures
            r.wf(),
            r@ == Map::<ReducedState, Seq<ParetoValue>>::empty(),
    {
        let r = SolvedStates { map: fx_map_new(), states: 0, values: 0 };
        proof {
            assert(r@ =~= Map::<ReducedState, Seq<ParetoValue>>::empty());
            assert(r@.kv_pairs() =~= Set::<(ReducedState, Seq<ParetoValue>)>::empty());
            vstd::set::fold::lemma_fold_empty(
                0nat,
                |sum: nat, entry: (ReducedState, Seq<ParetoValue>)| sum + entry.1.len(),
            );
        }
        r
    }

    /// The frontier of `state`, if there is one.
    pub fn get(&self, state: &ReducedState) -> (r: Option<&Vec<ParetoValue>>)
        ensures
            match r {
                Some(front) => self@.contains_key(*state) && front@ == self@[*state],
                None => !self@.contains_key(*state),
            },
    {
        fx_map_get(&self.map, state.key())
    }

    /// Stores `front` as the frontier of a state that has none yet.
    pub fn insert(&mut self, state: ReducedState, front: Vec<ParetoValue>)
        requires
            old(self).wf(),
            !old(self)@.contains_key(state),
        ensures
            final(self).wf(),
            final(self)@ == old(self)@.insert(state, front@),
    {
        let ghost points = front@;
        let added = front.len();
        fx_map_insert(&mut self.map, state.key(), front);
        self.states = if self.states < usize::MAX {
            self.states + 1
        } else {
            usize::MAX
        };
        self.values = if added <= usize::MAX - self.values {
            self.values + added
        } else {
            usize::MAX
        };
        proof {
            assert forall|other: ReducedState| other.spec_key() == state.spec_key() implies other
                == state by {
                lemma_key_determines_state(other, state);
            }
            assert(self@ =~= old(self)@.insert(state, points));
            assert(self@.dom() =~= old(self)@.dom().insert(state));
            assert(self@.kv_pairs() =~= old(self)@.kv_pairs().insert((state, points)));
            vstd::set::fold::lemma_fold_insert(
                old(self)@.kv_pairs(),
                0nat,
                |sum: nat, entry: (ReducedState, Seq<ParetoValue>)| sum + entry.1.len(),
                (state, points),
            );
        }
    }

    /// The number of frontiers, or the largest `usize` if there are more.
    pub fn len(&self) -> (r: usize)
        requires
            self.wf(),
        ensures
            r == capped(self@.dom().len()),
    {
        self.states
    }

    /// The number of points of all frontiers, or the largest `usize` if there
    /// are more.
    pub fn total_len(&self) -> (r: usize)
        requires
            self.wf(),
        ensures
            r == capped(total_points(self@)),
    {
        self.values
    }
}

} // verus!
