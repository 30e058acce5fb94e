//! Frame sequencing of animated materials: which atlas tile each animated
//! material shows, advanced one frame change at a time, looping or
//! ping-ponging.

use vstd::prelude::*;
use crate::materials::material::MaterialId;

verus! {

/// One step of a frame sequence of `n` frames at position `index`, moving
/// forward when `forward`: a looping sequence moves to the next frame and
/// wraps to the first; a ping-pong sequence turns around at either end.
pub open spec fn step_spec(index: nat, forward: bool, n: nat, ping_pong: bool) -> (nat, bool) {
    if ping_pong {
        if forward {
            if index + 1 < n {
                (index + 1, true)
            } else if index > 0 {
                ((index - 1) as nat, false)
            } else {
                (index, false)
            }
        } else if index > 0 {
            ((index - 1) as nat, false)
        } else if n > 1 {
            (1, true)
        } else {
            (index, true)
        }
    } else {
        ((index + 1) % n, forward)
    }
}

/// The position and direction after `k` steps.
pub open spec fn steps_spec(index: nat, forward: bool, n: nat, ping_pong: bool, k: nat) -> (nat, bool)
    decreases k,
{
    if k == 0 {
        (index, forward)
    } else {
        let (i, f) = steps_spec(index, forward, n, ping_pong, (k - 1) as nat);
        step_spec(i, f, n, ping_pong)
    }
}

/// Where a ping-pong sequence of `n` frames started at the first frame is
/// after `k` steps: up to the last frame, back down to the first, and so on.
pub open spec fn ping_pong_position(k: nat, n: nat) -> nat {
    if n <= 1 {
        0
    } else {
        let p = k % (2 * n - 2) as nat;
        if p < n {
            p
        } else {
            (2 * n - 2 - p) as nat
        }
    }
}

/// The direction of a ping-pong sequence of `n` frames started at the first
/// frame after `k` steps: forward on the way up (the last frame included),
/// backward on the way down and back at the first frame.
pub open spec fn ping_pong_forward(k: nat, n: nat) -> bool {
    let p = k % (2 * n - 2) as nat;
    if p == 0 {
        k == 0
    } else {
        p < n
    }
}

/// `(k + 1) % m` from `k % m`.
proof fn lemma_mod_next(k: nat, m: nat)
    requires
        m > 0,
    ensures
        (k + 1) % m == if k % m + 1 == m { 0 } else { k % m + 1 },
{
    vstd::arithmetic::div_mod::lemma_add_mod_noop(k as int, 1, m as int);
    if m == 1 {
        assert(k % 1 == 0 && (k + 1) % 1 == 0) by (nonlinear_arith);
    } else {
        vstd::arithmetic::div_mod::lemma_small_mod(1, m);
        assert(0 <= k % m < m) by (nonlinear_arith)
            requires m > 0;
        if k % m + 1 < m {
            vstd::arithmetic::div_mod::lemma_small_mod((k % m + 1) as nat, m);
        } else {
            assert((k % m + 1) as int % (m as int) == 0) by (nonlinear_arith)
                requires k % m + 1 == m, m > 0;
        }
    }
}

/// A looping sequence of `n` frames started at the first frame is at frame
/// `k % n` after `k` steps, and keeps its direction.
pub proof fn lemma_loop_position(n: nat, forward: bool, k: nat)
    requires
        n > 0,
    ensures
        steps_spec(0, forward, n, false, k) == (k % n, forward),
    decreases k,
{
    if k == 0 {
        assert(0nat % n == 0) by (nonlinear_arith)
            requires n > 0;
    } else {
        lemma_loop_position(n, forward, (k - 1) as nat);
        lemma_mod_next((k - 1) as nat, n);
        assert(0 <= (k - 1) as nat % n < n) by (nonlinear_arith)
            requires n > 0;
        if ((k - 1) as nat % n) + 1 < n {
            vstd::arithmetic::div_mod::lemma_small_mod((((k - 1) as nat % n) + 1) as nat, n);
        } else {
            assert((n as int) % (n as int) == 0) by (nonlinear_arith)
                requires n > 0;
        }
    }
}

/// A ping-pong sequence of `n` frames started at the first frame, moving
/// forward, runs up to the last frame and back down to the first, again and
/// again: after `k` steps it is at [`ping_pong_position`]`(k, n)`.
pub proof fn lemma_ping_pong_position(n: nat, k: nat)
    requires
        n > 0,
    ensures
        steps_spec(0, true, n, true, k).0 == ping_pong_position(k, n),
        n > 1 ==> steps_spec(0, true, n, true, k).1 == ping_pong_forward(k, n),
    decreases k,
{
    if n == 1 {
        lemma_one_frame_stays(k);
    } else if k > 0 {
        let m = (2 * n - 2) as nat;
        lemma_ping_pong_position(n, (k - 1) as nat);
        lemma_mod_next((k - 1) as nat, m);
        assert(0 <= (k - 1) as nat % m < m) by (nonlinear_arith)
            requires m > 0;
    } else {
        assert(0nat % ((2 * n - 2) as nat) == 0) by (nonlinear_arith)
            requires n > 1;
    }
}

/// A ping-pong sequence of one frame stays at it.
proof fn lemma_one_frame_stays(k: nat)
    ensures
        steps_spec(0, true, 1, true, k).0 == 0,
    decreases k,
{
    if k > 0 {
        lemma_one_frame_stays((k - 1) as nat);
    }
}

/// The animation state of one material: its tile sequence, whether it
/// ping-pongs, the current position in the sequence and the direction.
#[derive(Clone, Debug)]
pub struct FrameCycle {
    frames: Vec<u32>,
    ping_pong: bool,
    current_frame_index: usize,
    forward: bool,
}

impl FrameCycle {
    /// The atlas tile indices forming the animation, in order.
    pub closed spec fn tiles(&self) -> Seq<u32> {
        self.frames@
    }

    /// Whether the animation ping-pongs (reverses at the ends) or loops.
    pub closed spec fn is_ping_pong(&self) -> bool {
        self.ping_pong
    }

    /// The current position in the frame sequence.
    pub closed spec fn index(&self) -> nat {
        self.current_frame_index as nat
    }

    /// Whether the sequence is currently moving forward.
    pub closed spec fn is_forward(&self) -> bool {
        self.forward
    }

    /// The position stays within the sequence (or at 0 when it is empty).
    pub closed spec fn wf(&self) -> bool {
        self.current_frame_index == 0 || self.current_frame_index < self.frames@.len()
    }

    /// A sequence at its first frame, moving forward.
    pub fn new(frames: Vec<u32>, ping_pong: bool) -> (r: Self)
        ensures
            r.wf(),
            r.tiles() == frames@,
            r.is_ping_pong() == ping_pong,
            r.index() == 0,
            r.is_forward(),
    {
        FrameCycle { frames, ping_pong, current_frame_index: 0, forward: true }
    }

    /// Advances by one frame change (see [`step_spec`]). A looping sequence
    /// needs at least one frame.
    pub fn step(&mut self)
        requires
            old(self).wf(),
            old(self).is_ping_pong() || old(self).tiles().len() > 0,
        ensures
            final(self).wf(),
            final(self).tiles() == old(self).tiles(),
            final(self).is_ping_pong() == old(self).is_ping_pong(),
            (final(self).index(), final(self).is_forward()) == step_spec(
                old(self).index(),
                old(self).is_forward(),
                old(self).tiles().len(),
                old(self).is_ping_pong(),
            ),
    {
        let total_frames = self.frames.len();
        if self.ping_pong {
            if self.forward {
                if self.current_frame_index + 1 < total_frames {
                    self.current_frame_index = self.current_frame_index + 1;
                } else {
                    self.forward = false;
                    if self.current_frame_index > 0 {
                        self.current_frame_index = self.current_frame_index - 1;
                    }
                }
            } else if self.current_frame_index > 0 {
                self.current_frame_index = self.current_frame_index - 1;
            } else {
                self.forward = true;
                if total_frames > 1 {
                    self.current_frame_index = 1;
                }
            }
        } else {
            self.current_frame_index = (self.current_frame_index + 1) % total_frames;
        }
    }

    /// The atlas tile of the current frame; the sequence must not be empty.
    pub fn current_tile(&self) -> (r: u32)
        requires
            self.wf(),
            self.tiles().len() > 0,
        ensures
            r == self.tiles()[self.index() as int],
    {
        self.frames[self.current_frame_index]
    }

    /// The current position in the frame sequence.
    pub fn current_frame_index(&self) -> (r: usize)
        ensures
            r == self.index(),
    {
        self.current_frame_index
    }
}

/// Tracks the frame sequence of every animated material, by material id.
pub struct MaterialAnimator {
    states: Vec<Option<FrameCycle>>,
}

/// The state list built from `animations`: as long as the largest id plus
/// one, each animated id holding its last listed sequence at its first
/// frame, moving forward, every other slot empty.
pub open spec fn animator_slots(animations: Seq<(MaterialId, Vec<u32>, bool)>) -> Seq<Option<(Seq<u32>, bool)>>
    decreases animations.len(),
{
    if animations.len() == 0 {
        Seq::empty()
    } else {
        let rest = animator_slots(animations.drop_last());
        let (id, frames, pp) = animations.last();
        let grown = if rest.len() <= id.0 {
            rest + Seq::new((id.0 + 1 - rest.len()) as nat, |_i: int| None)
        } else {
            rest
        };
        grown.update(id.0 as int, Some((frames@, pp)))
    }
}

impl MaterialAnimator {
    /// For each slot, the frames and ping-pong flag of its sequence.
    pub closed spec fn slots(&self) -> Seq<Option<(Seq<u32>, bool)>> {
        self.states@.map_values(
            |s: Option<FrameCycle>|
                match s {
                    Some(c) => Some((c.frames@, c.ping_pong)),
                    None => None,
                },
        )
    }

    /// For each animated slot, its position and direction.
    pub closed spec fn positions(&self) -> Seq<Option<(nat, bool)>> {
        self.states@.map_values(
            |s: Option<FrameCycle>|
                match s {
                    Some(c) => Some((c.index(), c.is_forward())),
                    None => None,
                },
        )
    }

    /// Every sequence's position lies within it.
    pub closed spec fn wf(&self) -> bool {
        forall|i: int| 0 <= i < self.states@.len() ==> (#[trigger] self.states@[i] matches Some(c) ==> c.wf())
    }

    /// The animator for `animations`, each a material id with its tile
    /// sequence and ping-pong flag (see [`animator_slots`]); every sequence
    /// starts at its first frame, moving forward.
    pub fn new(animations: &Vec<(MaterialId, Vec<u32>, bool)>) -> (r: Self)
        ensures
            r.wf(),
            r.slots() == animator_slots(animations@),
            forall|i: int| 0 <= i < r.slots().len() && r.slots()[i] is Some ==> #[trigger] r.positions()[i] == Some(
                (0nat, true),
            ),
            r.positions().len() == r.slots().len(),
            forall|i: int| 0 <= i < r.slots().len() ==> (#[trigger] r.positions()[i] is Some) == (r.slots()[i] is Some),
    {
        let mut states: Vec<Option<FrameCycle>> = Vec::new();
        let mut i: usize = 0;
        while i < animations.len()
            invariant
                i <= animations@.len(),
                forall|j: int| 0 <= j < states@.len() ==> (#[trigger] states@[j] matches Some(c) ==> c.wf() && c.index()
                    == 0 && c.is_forward()),
                states@.map_values(
                    |s: Option<FrameCycle>|
                        match s {
                            Some(c) => Some((c.frames@, c.ping_pong)),
                            None => None,
                        },
                ) == animator_slots(animations@.take(i as int)),
            decreases animations@.len() - i,
        {
            let (id, frames, pp) = &animations[i];
            let idx = id.0 as usize;
            let ghost before = states@;
            while states.len() <= idx
                invariant
                    before.len() <= states@.len(),
                    states@.len() <= (if before.len() <= idx { idx + 1 } else { before.len() as int }),
                    forall|j: int| 0 <= j < before.len() ==> states@[j] == before[j],
                    forall|j: int| before.len() <= j < states@.len() ==> states@[j] is None,
                decreases idx + 1 - states@.len(),
            {
                states.push(None);
            }
            let ghost grown = states@;
            let fresh = FrameCycle::new(frames.clone(), *pp);
            states.set(idx, Some(fresh));
            proof {
                assert forall|j: int| 0 <= j < states@.len() implies (#[trigger] states@[j] matches Some(c) ==> c.wf()
                    && c.index() == 0 && c.is_forward()) by {
                    if j != idx {
                        assert(states@[j] == grown[j]);
                        if j < before.len() {
                            assert(grown[j] == before[j]);
                        }
                    }
                }
                let f = |s: Option<FrameCycle>|
                    match s {
                        Some(c) => Some((c.frames@, c.ping_pong)),
                        None => None,
                    };
                let a = animations@.take(i + 1);
                assert(a.drop_last() =~= animations@.take(i as int));
                assert(a.last() == animations@[i as int]);
                let rest = animator_slots(animations@.take(i as int));
                let target_grown = if rest.len() <= id.0 {
                    rest + Seq::new((id.0 + 1 - rest.len()) as nat, |_i: int| None)
                } else {
                    rest
                };
                assert(grown.map_values(f) =~= target_grown) by {
                    assert(before.map_values(f) == rest);
                    assert forall|j: int| 0 <= j < grown.len() implies #[trigger] grown.map_values(f)[j] == target_grown[j] by {
                        if j < before.len() {
                            assert(grown[j] == before[j]);
                            assert(before.map_values(f)[j] == f(before[j]));
                        }
                    }
                }
                assert(states@ == grown.update(idx as int, states@[idx as int]));
                assert(states@.map_values(f) =~= target_grown.update(id.0 as int, Some((frames@, *pp))));
            }
            i = i + 1;
        }
        proof {
            assert(animations@.take(animations@.len() as int) =~= animations@);
        }
        let r = MaterialAnimator { states };
        proof {
            assert forall|j: int| 0 <= j < r.slots().len() && r.slots()[j] is Some implies #[trigger] r.positions()[j]
                == Some((0nat, true)) by {
                assert(r.states@[j] is Some);
            }
        }
        r
    }

    /// The atlas tile material `id` currently shows, or `None` for a
    /// material without a sequence; an animated material's sequence must not
    /// be empty.
    pub fn current_tile(&self, id: MaterialId) -> (r: Option<u32>)
        requires
            self.wf(),
            0 <= id.0 < self.slots().len() ==> (self.slots()[id.0 as int] matches Some(s) ==> s.0.len() > 0),
        ensures
            match r {
                Some(t) => 0 <= id.0 < self.slots().len() && self.slots()[id.0 as int] is Some && self.positions()[id.0
                    as int] is Some && t == self.slots()[id.0 as int]->Some_0.0[self.positions()[id.0 as int]->Some_0.0 as int],
                None => !(0 <= id.0 < self.slots().len()) || self.slots()[id.0 as int] is None,
            },
    {
        let idx = id.0 as usize;
        if idx >= self.states.len() {
            return None;
        }
        match &self.states[idx] {
            Some(c) => {
                proof {
                    assert(self.states@[idx as int] matches Some(x) ==> x.wf());
                }
                Some(c.current_tile())
            },
            None => None,
        }
    }

    /// The current position of material `id` in its sequence, or `None`
    /// for a material without a sequence.
    pub fn current_frame_index(&self, id: MaterialId) -> (r: Option<usize>)
        ensures
            match r {
                Some(i) => 0 <= id.0 < self.positions().len() && self.positions()[id.0 as int] is Some && i
                    == self.positions()[id.0 as int]->Some_0.0,
                None => !(0 <= id.0 < self.slots().len()) || self.slots()[id.0 as int] is None,
            },
    {
        let idx = id.0 as usize;
        if idx >= self.states.len() {
            return None;
        }
        match &self.states[idx] {
            Some(c) => Some(c.current_frame_index()),
            None => None,
        }
    }

    /// The number of material slots tracked.
    pub fn slot_count(&self) -> (r: usize)
        ensures
            r == self.slots().len(),
    {
        self.states.len()
    }

    /// Advances the sequence of material `id` by `frames` frame changes; a
    /// material without a sequence is left alone. A looping sequence needs
    /// at least one frame.
    pub fn advance(&mut self, id: MaterialId, frames: u64)
        requires
            old(self).wf(),
            0 <= id.0 < old(self).slots().len() ==> (old(self).slots()[id.0 as int] matches Some(s) ==> s.1 || s.0.len()
                > 0),
        ensures
            final(self).wf(),
            final(self).slots() == old(self).slots(),
            final(self).positions().len() == old(self).positions().len(),
            forall|i: int|
                0 <= i < old(self).positions().len() && i != id.0 ==> #[trigger] final(self).positions()[i] == old(
                    self,
                ).positions()[i],
            0 <= id.0 < old(self).slots().len() ==> match (old(self).slots()[id.0 as int], old(self).positions()[id.0 as int]) {
                (Some(s), Some(p)) => final(self).positions()[id.0 as int] == Some(
                    steps_spec(p.0, p.1, s.0.len(), s.1, frames as nat),
                ),
                _ => final(self).positions()[id.0 as int] == old(self).positions()[id.0 as int],
            },
    {
        let idx = id.0 as usize;
        if idx >= self.states.len() {
            return;
        }
        let ghost old_states = self.states@;
        let slot = self.states.remove(idx);
        match slot {
            None => {
                self.states.insert(idx, None);
                proof {
                    assert(self.states@ =~= old_states);
                }
            },
            Some(c) => {
                let mut c = c;
                let ghost orig = c;
                let ghost start = (c.index(), c.is_forward());
                let ghost n = c.frames@.len();
                let mut k: u64 = 0;
                while k < frames
                    invariant
                        k <= frames,
                        c.wf(),
                        c.frames@ == orig.frames@,
                        c.ping_pong == orig.ping_pong,
                        n == orig.frames@.len(),
                        c.ping_pong || n > 0,
                        (c.index(), c.is_forward()) == steps_spec(start.0, start.1, n, c.ping_pong, k as nat),
                    decreases frames - k,
                {
                    c.step();
                    k = k + 1;
                }
                let ghost done = c;
                self.states.insert(idx, Some(c));
                proof {
                    assert(old_states[idx as int] == Some(orig));
                    assert(self.states@ =~= old_states.update(idx as int, Some(done)));
                    let f = |s: Option<FrameCycle>|
                        match s {
                            Some(c) => Some((c.frames@, c.ping_pong)),
                            None => None,
                        };
                    assert(self.states@.map_values(f) =~= old_states.map_values(f));
                }
            },
        }
        proof {
            assert forall|i: int| 0 <= i < self.states@.len() implies (#[trigger] self.states@[i] matches Some(c) ==> c.wf()) by {
                if i != idx {
                    assert(self.states@[i] == old_states[i]);
                }
            }
            assert forall|i: int|
                0 <= i < old(self).positions().len() && i != id.0 implies #[trigger] self.positions()[i] == old(self).positions()[i] by {
                assert(self.states@[i] == old_states[i]);
            }
        }
    }
}

} // verus!
