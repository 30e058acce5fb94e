//! Priority queue ordering chunk generation and meshing work by visual
//! importance, with priority updates by re-insertion.
//!
//! Chunks are named by an integer key of their address and priorities are
//! integers that order as the importance scores do (higher first). Updating
//! a chunk's priority pushes a new entry and marks the old one stale by a
//! generation counter; stale entries are skipped when popping.

use vstd::prelude::*;
use std::collections::HashMap;

verus! {

broadcast use vstd::std_specs::hash::group_hash_axioms;

/// An entry of the queue.
#[derive(Clone, Copy, Debug)]
struct PriorityEntry {
    address: u64,
    priority: u64,
    /// Generation counter telling the current entry of a chunk from stale ones.
    generation: u64,
}

/// Priority queue for chunk generation and meshing tasks.
///
/// Orders work items by visual importance so the most impactful chunks
/// are processed first each frame. Supports insertion, priority updates,
/// and extraction of the highest-priority item.
pub struct LodPriorityQueue {
    heap: Vec<PriorityEntry>,
    /// Maps chunk keys to their current generation.
    generations: HashMap<u64, u64>,
    /// Monotonically increasing generation counter.
    next_generation: u64,
    /// The queued chunks with their current priorities.
    queued: Ghost<Map<u64, u64>>,
}

impl LodPriorityQueue {
    /// The queued chunks, each with its current priority.
    pub closed spec fn view(&self) -> Map<u64, u64> {
        self.queued@
    }

    /// The generation the next push hands out.
    pub closed spec fn next_gen(&self) -> u64 {
        self.next_generation
    }

    /// The queue's invariant: every queued chunk has exactly one current
    /// entry, carrying its priority; generations are never reused.
    pub closed spec fn wf(&self) -> bool {
        &&& self.queued@.dom() == self.generations@.dom()
        &&& forall|a: u64| #[trigger] self.generations@.contains_key(a) ==> self.generations@[a] < self.next_generation
        &&& forall|i: int| 0 <= i < self.heap@.len() ==> (#[trigger] self.heap@[i]).generation < self.next_generation
        &&& forall|i: int, j: int|
            0 <= i < j < self.heap@.len() ==> (#[trigger] self.heap@[i]).generation != (#[trigger] self.heap@[j]).generation
        &&& forall|a: u64|
            #[trigger] self.generations@.contains_key(a) ==> exists|i: int|
                0 <= i < self.heap@.len() && (#[trigger] self.heap@[i]).address == a && self.heap@[i].generation
                    == self.generations@[a] && self.heap@[i].priority == self.queued@[a]
    }

    /// Create a new empty priority queue.
    pub fn new() -> (r: Self)
        ensures
            r.wf(),
            r@ == Map::<u64, u64>::empty(),
            r.next_gen() == 0,
    {
        LodPriorityQueue {
            heap: Vec::new(),
            generations: HashMap::new(),
            next_generation: 0,
            queued: Ghost(Map::empty()),
        }
    }

    /// Insert or update a chunk's priority: a chunk queued already takes
    /// the new priority.
    pub fn push(&mut self, address: u64, priority: u64)
        requires
            old(self).wf(),
            old(self).next_gen() < u64::MAX,
        ensures
            final(self).wf(),
            final(self)@ == old(self)@.insert(address, priority),
            final(self).next_gen() == old(self).next_gen() + 1,
    {
        let generation = self.next_generation;
        self.next_generation = self.next_generation + 1;
        self.generations.insert(address, generation);
        self.heap.push(PriorityEntry { address, priority, generation });
        proof {
            self.queued@ = self.queued@.insert(address, priority);
            let n = self.heap@.len() - 1;
            assert(self.heap@[n].address == address && self.heap@[n].generation == generation);
            assert forall|a: u64| #[trigger] self.generations@.contains_key(a) implies exists|i: int|
                0 <= i < self.heap@.len() && (#[trigger] self.heap@[i]).address == a && self.heap@[i].generation
                    == self.generations@[a] && self.heap@[i].priority == self.queued@[a] by {
                if a != address {
                    let i = choose|i: int|
                        0 <= i < old(self).heap@.len() && (#[trigger] old(self).heap@[i]).address == a
                            && old(self).heap@[i].generation == old(self).generations@[a] && old(self).heap@[i].priority
                            == old(self).queued@[a];
                    assert(self.heap@[i] == old(self).heap@[i]);
                } else {
                    assert(self.heap@[n].address == a);
                }
            }
            assert(self.queued@.dom() =~= self.generations@.dom());
        }
    }

    /// The position of the first entry with the highest priority.
    fn max_index(&self) -> (m: usize)
        requires
            self.heap@.len() > 0,
        ensures
            m < self.heap@.len(),
            forall|j: int| 0 <= j < self.heap@.len() ==> #[trigger] self.heap@[j].priority <= self.heap@[m as int].priority,
    {
        let mut m: usize = 0;
        let mut i: usize = 1;
        while i < self.heap.len()
            invariant
                0 <= m < i <= self.heap@.len(),
                forall|j: int| 0 <= j < i ==> #[trigger] self.heap@[j].priority <= self.heap@[m as int].priority,
            decreases self.heap@.len() - i,
        {
            if self.heap[i].priority > self.heap[m].priority {
                m = i;
            }
            i = i + 1;
        }
        m
    }

    /// Remove and return the chunk with the highest priority (one of them,
    /// when several share it). Returns `None` if the queue is empty.
    pub fn pop(&mut self) -> (r: Option<u64>)
        requires
            old(self).wf(),
        ensures
            final(self).wf(),
            final(self).next_gen() == old(self).next_gen(),
            match r {
                None => old(self)@ == Map::<u64, u64>::empty() && final(self)@ == old(self)@,
                Some(a) => old(self)@.contains_key(a) && (forall|b: u64|
                    #[trigger] old(self)@.contains_key(b) ==> old(self)@[b] <= old(self)@[a]) && final(self)@ == old(
                    self,
                )@.remove(a),
            },
    {
        let ghost q0 = self.queued@;
        loop
            invariant
                self.wf(),
                self.queued@ == q0,
                q0 == old(self).queued@,
                self.next_generation == old(self).next_generation,
            decreases self.heap@.len(),
        {
            if self.heap.len() == 0 {
                proof {
                    assert forall|a: u64| !#[trigger] self.generations@.contains_key(a) by {
                        if self.generations@.contains_key(a) {
                            assert(exists|i: int|
                                0 <= i < self.heap@.len() && (#[trigger] self.heap@[i]).address == a
                                    && self.heap@[i].generation == self.generations@[a] && self.heap@[i].priority
                                    == self.queued@[a]);
                        }
                    }
                    assert(self.queued@.dom() =~= Set::<u64>::empty());
                    assert(self.queued@ =~= Map::<u64, u64>::empty());
                }
                return None;
            }
            let m = self.max_index();
            let ghost h0 = self.heap@;
            let ghost g0 = self.generations@;
            let entry = self.heap.remove(m);
            let current = match self.generations.get(&entry.address) {
                Some(g) => *g == entry.generation,
                None => false,
            };
            if current {
                self.generations.remove(&entry.address);
                proof {
                    let a = entry.address;
                    assert(g0.contains_key(a) && g0[a] == entry.generation);
                    assert(q0.contains_key(a));
                    assert(q0[a] == entry.priority) by {
                        assert(exists|i: int|
                            0 <= i < h0.len() && (#[trigger] h0[i]).address == a && h0[i].generation == g0[a]
                                && h0[i].priority == q0[a]);
                        let i = choose|i: int|
                            0 <= i < h0.len() && (#[trigger] h0[i]).address == a && h0[i].generation == g0[a]
                                && h0[i].priority == q0[a];
                        if i < m {
                            assert(h0[i].generation != h0[m as int].generation);
                        } else if i > m {
                            assert(h0[m as int].generation != h0[i].generation);
                        }
                    }
                    assert forall|b: u64| #[trigger] q0.contains_key(b) implies q0[b] <= q0[a] by {
                        assert(g0.contains_key(b));
                        let i = choose|i: int|
                            0 <= i < h0.len() && (#[trigger] h0[i]).address == b && h0[i].generation == g0[b]
                                && h0[i].priority == q0[b];
                        assert(h0[i].priority <= h0[m as int].priority);
                    }
                    self.queued@ = q0.remove(a);
                    assert forall|b: u64| #[trigger] self.generations@.contains_key(b) implies exists|i: int|
                        0 <= i < self.heap@.len() && (#[trigger] self.heap@[i]).address == b && self.heap@[i].generation
                            == self.generations@[b] && self.heap@[i].priority == self.queued@[b] by {
                        assert(g0.contains_key(b) && g0[b] == self.generations@[b] && b != a);
                        let i = choose|i: int|
                            0 <= i < h0.len() && (#[trigger] h0[i]).address == b && h0[i].generation == g0[b]
                                && h0[i].priority == q0[b];
                        assert(i != m);
                        if i < m {
                            assert(self.heap@[i] == h0[i]);
                        } else {
                            assert(self.heap@[i - 1] == h0[i]);
                        }
                    }
                    assert forall|i: int, j: int| 0 <= i < j < self.heap@.len() implies (#[trigger] self.heap@[i]).generation
                        != (#[trigger] self.heap@[j]).generation by {
                        let i0 = if i < m { i } else { i + 1 };
                        let j0 = if j < m { j } else { j + 1 };
                        assert(self.heap@[i] == h0[i0] && self.heap@[j] == h0[j0]);
                    }
                    assert forall|i: int| 0 <= i < self.heap@.len() implies (#[trigger] self.heap@[i]).generation
                        < self.next_generation by {
                        let i0 = if i < m { i } else { i + 1 };
                        assert(self.heap@[i] == h0[i0]);
                    }
                    assert(self.queued@.dom() =~= self.generations@.dom());
                }
                return Some(entry.address);
            }
            proof {
                assert forall|b: u64| #[trigger] self.generations@.contains_key(b) implies exists|i: int|
                    0 <= i < self.heap@.len() && (#[trigger] self.heap@[i]).address == b && self.heap@[i].generation
                        == self.generations@[b] && self.heap@[i].priority == self.queued@[b] by {
                    let i = choose|i: int|
                        0 <= i < h0.len() && (#[trigger] h0[i]).address == b && h0[i].generation == self.generations@[b]
                            && h0[i].priority == self.queued@[b];
                    assert(i != m);
                    if i < m {
                        assert(self.heap@[i] == h0[i]);
                    } else {
                        assert(self.heap@[i - 1] == h0[i]);
                    }
                }
                assert forall|i: int, j: int| 0 <= i < j < self.heap@.len() implies (#[trigger] self.heap@[i]).generation
                    != (#[trigger] self.heap@[j]).generation by {
                    let i0 = if i < m { i } else { i + 1 };
                    let j0 = if j < m { j } else { j + 1 };
                    assert(self.heap@[i] == h0[i0] && self.heap@[j] == h0[j0]);
                }
                assert forall|i: int| 0 <= i < self.heap@.len() implies (#[trigger] self.heap@[i]).generation
                    < self.next_generation by {
                    let i0 = if i < m { i } else { i + 1 };
                    assert(self.heap@[i] == h0[i0]);
                }
            }
        }
    }

    /// Number of queued chunks.
    pub fn len(&self) -> (r: usize)
        requires
            self.wf(),
        ensures
            r == self@.dom().len(),
    {
        self.generations.len()
    }

    /// Whether no chunk is queued.
    pub fn is_empty(&self) -> (r: bool)
        requires
            self.wf(),
        ensures
            r == (self@ == Map::<u64, u64>::empty()),
    {
        let r = self.generations.is_empty();
        proof {
            if !r {
                assert(self.generations@.dom().len() > 0);
                assert(self.generations@.dom() != Set::<u64>::empty());
            } else {
                assert(self.queued@ =~= Map::<u64, u64>::empty());
            }
        }
        r
    }

    /// Clear all entries from the queue.
    pub fn clear(&mut self)
        requires
            old(self).wf(),
        ensures
            final(self).wf(),
            final(self)@ == Map::<u64, u64>::empty(),
            final(self).next_gen() == old(self).next_gen(),
    {
        self.heap.clear();
        self.generations.clear();
        proof {
            self.queued@ = Map::empty();
            assert(self.queued@.dom() =~= self.generations@.dom());
        }
    }
}

} // verus!
