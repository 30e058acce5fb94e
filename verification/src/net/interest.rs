//! Interest sets: which replicated entities a client can see this tick and
//! last tick, and the entities that entered or left its interest area.

use vstd::prelude::*;
use std::collections::HashSet;

verus! {

broadcast use vstd::std_specs::hash::group_hash_axioms;

/// Which entities, by the value of their network id, are inside a client's
/// interest area this tick and were inside it last tick.
#[derive(Debug)]
pub struct ClientInterestSet {
    /// Client identifier.
    pub client_id: u64,
    /// Network ids inside the interest area this tick.
    pub current: HashSet<u64>,
    /// Network ids that were inside the interest area last tick.
    pub previous: HashSet<u64>,
}

/// The entities that entered or left a client's interest area in one tick.
#[derive(Debug)]
pub struct InterestTransitions {
    /// Entities that just entered the interest area (they need a spawn).
    pub entered: HashSet<u64>,
    /// Entities that just left the interest area (they need a despawn).
    pub exited: HashSet<u64>,
}

/// The members of `a` that are not in `b`.
fn set_minus(a: &HashSet<u64>, b: &HashSet<u64>) -> (r: HashSet<u64>)
    ensures
        r@ == a@.difference(b@),
{
    let mut r: HashSet<u64> = HashSet::new();
    for x in it: a.iter()
        invariant
            it.seq().unref().to_set() == a@,
            r@ == it.seq().take(it.index() as int).unref().to_set().difference(b@),
            it.index() == it.seq().len() ==> it.seq().take(it.index() as int) == it.seq(),
    {
        proof {
            assert(it.seq().take(it.index() + 1) =~= it.seq().take(it.index() as int).push(x));
            assert(it.seq().take(it.index() + 1).unref() =~= it.seq().take(it.index() as int).unref().push(*x));
            it.seq().take(it.index() as int).unref().lemma_push_to_set_commute(*x);
        }
        if !b.contains(x) {
            r.insert(*x);
        }
        proof {
            assert(r@ =~= it.seq().take(it.index() + 1).unref().to_set().difference(b@));
        }
    }
    r
}

impl ClientInterestSet {
    /// An empty interest set for `client_id`.
    pub fn new(client_id: u64) -> (r: Self)
        ensures
            r.client_id == client_id,
            r.current@ == Set::<u64>::empty(),
            r.previous@ == Set::<u64>::empty(),
    {
        ClientInterestSet { client_id, current: HashSet::new(), previous: HashSet::new() }
    }

    /// The entities that entered the interest area (in `current` but not in
    /// `previous`) and those that left it (in `previous` but not in
    /// `current`).
    pub fn compute_transitions(&self) -> (r: InterestTransitions)
        ensures
            r.entered@ == self.current@.difference(self.previous@),
            r.exited@ == self.previous@.difference(self.current@),
    {
        InterestTransitions {
            entered: set_minus(&self.current, &self.previous),
            exited: set_minus(&self.previous, &self.current),
        }
    }

    /// Moves to the next tick: this tick's set becomes last tick's and this
    /// tick's set starts empty.
    pub fn advance(&mut self)
        ensures
            final(self).client_id == old(self).client_id,
            final(self).previous@ == old(self).current@,
            final(self).current@ == Set::<u64>::empty(),
    {
        std::mem::swap(&mut self.previous, &mut self.current);
        self.current.clear();
    }
}

} // verus!
