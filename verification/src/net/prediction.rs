//! Client-side prediction: immediate local application of player inputs,
//! with a bounded buffer of unconfirmed inputs for reconciliation.

use vstd::prelude::*;
use std::collections::VecDeque;
use crate::net::authority::{ClientIntent, PlayerState, sat_add, saturating_add_i64, apply_spec};

verus! {

/// Default maximum number of entries in the input buffer (~2 s at 60 Hz).
pub const DEFAULT_BUFFER_SIZE: usize = 128;

/// Snapshot of predicted player state at a specific tick.
#[derive(Debug, Clone, Copy, PartialEq, Eq, Structural)]
pub struct PredictionState {
    /// Predicted X position in millimetres.
    pub x: i64,
    /// Predicted Y position in millimetres.
    pub y: i64,
    /// Predicted Z position in millimetres.
    pub z: i64,
    /// Predicted X velocity in mm/tick.
    pub vx: i64,
    /// Predicted Y velocity in mm/tick.
    pub vy: i64,
    /// Predicted Z velocity in mm/tick.
    pub vz: i64,
    /// Tick number this prediction corresponds to.
    pub tick: u64,
}

/// A single buffered input: the intent that was applied, the tick it
/// belongs to, and the resulting predicted state.
#[derive(Debug, Clone, Copy, PartialEq, Eq, Structural)]
pub struct InputEntry {
    /// Server tick at which this input was generated.
    pub tick: u64,
    /// The intent sent to the server.
    pub intent: ClientIntent,
    /// Local predicted state after applying this intent.
    pub predicted_state: PredictionState,
}

/// Bounded buffer of [`InputEntry`] items, oldest first.
pub struct InputBuffer {
    entries: VecDeque<InputEntry>,
    max_size: usize,
}

/// The entries after pushing `e` into a buffer holding `s` with capacity
/// `max`: the oldest is evicted first when the buffer is full.
pub open spec fn pushed(s: Seq<InputEntry>, e: InputEntry, max: usize) -> Seq<InputEntry> {
    if s.len() >= max && s.len() > 0 {
        s.subrange(1, s.len() as int).push(e)
    } else {
        s.push(e)
    }
}

/// The entries of `s` left after dropping its leading entries whose tick is
/// at most `tick`.
pub open spec fn after_discard(s: Seq<InputEntry>, tick: u64) -> Seq<InputEntry>
    decreases s.len(),
{
    if s.len() > 0 && s[0].tick <= tick {
        after_discard(s.subrange(1, s.len() as int), tick)
    } else {
        s
    }
}

/// The entries of `s` whose tick is after `tick`, in order.
pub open spec fn later_than(s: Seq<InputEntry>, tick: u64) -> Seq<InputEntry>
    decreases s.len(),
{
    if s.len() == 0 {
        s
    } else {
        let rest = later_than(s.drop_last(), tick);
        if s.last().tick > tick {
            rest.push(s.last())
        } else {
            rest
        }
    }
}

/// Dropping leading entries keeps a suffix.
pub proof fn lemma_after_discard_suffix(s: Seq<InputEntry>, tick: u64)
    ensures
        exists|k: int| 0 <= k <= s.len() && #[trigger] s.subrange(k, s.len() as int) == after_discard(s, tick),
    decreases s.len(),
{
    if s.len() > 0 && s[0].tick <= tick {
        let t = s.subrange(1, s.len() as int);
        lemma_after_discard_suffix(t, tick);
        let k = choose|k: int| 0 <= k <= t.len() && #[trigger] t.subrange(k, t.len() as int) == after_discard(t, tick);
        assert(s.subrange(k + 1, s.len() as int) =~= t.subrange(k, t.len() as int));
    } else {
        assert(s.subrange(0, s.len() as int) =~= s);
    }
}

impl View for InputBuffer {
    type V = Seq<InputEntry>;

    closed spec fn view(&self) -> Seq<InputEntry> {
        self.entries@
    }
}

impl InputBuffer {
    /// The capacity of the buffer.
    pub closed spec fn capacity(&self) -> usize {
        self.max_size
    }

    /// Creates a new buffer with the given maximum capacity.
    pub fn new(max_size: usize) -> (r: Self)
        ensures
            r@ == Seq::<InputEntry>::empty(),
            r.capacity() == max_size,
    {
        InputBuffer { entries: VecDeque::new(), max_size }
    }

    /// Pushes a new entry, evicting the oldest if at capacity.
    pub fn push(&mut self, entry: InputEntry)
        ensures
            final(self)@ == pushed(old(self)@, entry, old(self).capacity()),
            final(self).capacity() == old(self).capacity(),
    {
        if self.entries.len() >= self.max_size {
            self.entries.pop_front();
        }
        self.entries.push_back(entry);
    }

    /// Discards the leading entries whose tick is at most `tick` (the server
    /// has confirmed them).
    pub fn discard_up_to(&mut self, tick: u64)
        ensures
            final(self)@ == after_discard(old(self)@, tick),
            final(self).capacity() == old(self).capacity(),
    {
        loop
            invariant
                after_discard(self.entries@, tick) == after_discard(old(self)@, tick),
                self.max_size == old(self).max_size,
            ensures
                self.entries@ == after_discard(old(self)@, tick),
                self.max_size == old(self).max_size,
            decreases self.entries@.len(),
        {
            if self.entries.len() == 0 || self.entries[0].tick > tick {
                assert(after_discard(self.entries@, tick) == self.entries@);
                break;
            }
            self.entries.pop_front();
        }
    }

    /// Returns the entries with tick after `tick`, in order.
    pub fn entries_after(&self, tick: u64) -> (r: Vec<InputEntry>)
        ensures
            r@ == later_than(self@, tick),
    {
        let mut out: Vec<InputEntry> = Vec::new();
        let mut i: usize = 0;
        while i < self.entries.len()
            invariant
                i <= self.entries@.len(),
                out@ == later_than(self.entries@.take(i as int), tick),
            decreases self.entries@.len() - i,
        {
            proof {
                assert(self.entries@.take(i as int + 1).drop_last() =~= self.entries@.take(i as int));
            }
            let e = self.entries[i];
            if e.tick > tick {
                out.push(e);
            }
            i = i + 1;
        }
        assert(self.entries@.take(i as int) =~= self.entries@);
        out
    }

    /// Returns the number of buffered entries.
    pub fn len(&self) -> (r: usize)
        ensures
            r == self@.len(),
    {
        self.entries.len()
    }

    /// Returns `true` if the buffer is empty.
    pub fn is_empty(&self) -> (r: bool)
        ensures
            r == (self@.len() == 0),
    {
        self.entries.len() == 0
    }

    /// Returns all entries, oldest first.
    pub fn entries(&self) -> (r: &VecDeque<InputEntry>)
        ensures
            r@ == self@,
    {
        &self.entries
    }
}

/// A buffer within a positive capacity stays within it, and the pushed
/// entry is always the newest.
pub proof fn lemma_push_bounded(s: Seq<InputEntry>, e: InputEntry, max: usize)
    requires
        s.len() <= max,
        max > 0,
    ensures
        pushed(s, e, max).len() <= max,
        pushed(s, e, max).last() == e,
{
}

/// Result of a single movement simulation step.
#[derive(Debug, Clone, Copy, PartialEq, Eq, Structural)]
pub struct MovementResult {
    /// New position (mm).
    pub x: i64,
    /// New position (mm).
    pub y: i64,
    /// New position (mm).
    pub z: i64,
    /// New velocity (mm/tick).
    pub vx: i64,
    /// New velocity (mm/tick).
    pub vy: i64,
    /// New velocity (mm/tick).
    pub vz: i64,
}

/// One simulation step: a move sets the velocity to its delta and
/// displaces the position by it (saturating); other intents change
/// nothing.
pub open spec fn simulate_spec(s: MovementResult, intent: ClientIntent) -> MovementResult {
    match intent {
        ClientIntent::Move { dx, dy, dz, .. } => MovementResult {
            x: sat_add(s.x, dx),
            y: sat_add(s.y, dy),
            z: sat_add(s.z, dz),
            vx: dx,
            vy: dy,
            vz: dz,
        },
        _ => s,
    }
}

/// Applies an intent to a position and velocity. Deterministic: client
/// and server run this same step, which keeps predictions accurate.
pub fn simulate_movement(x: i64, y: i64, z: i64, vx: i64, vy: i64, vz: i64, intent: &ClientIntent) -> (r: MovementResult)
    ensures
        r == simulate_spec(MovementResult { x, y, z, vx, vy, vz }, *intent),
{
    match intent {
        ClientIntent::Move { dx, dy, dz, .. } => MovementResult {
            x: saturating_add_i64(x, *dx),
            y: saturating_add_i64(y, *dy),
            z: saturating_add_i64(z, *dz),
            vx: *dx,
            vy: *dy,
            vz: *dz,
        },
        _ => MovementResult { x, y, z, vx, vy, vz },
    }
}

/// The prediction after applying `intent` to `current` at `tick`.
pub open spec fn predict_spec(current: PredictionState, tick: u64, intent: ClientIntent) -> PredictionState {
    let r = simulate_spec(
        MovementResult { x: current.x, y: current.y, z: current.z, vx: current.vx, vy: current.vy, vz: current.vz },
        intent,
    );
    PredictionState { x: r.x, y: r.y, z: r.z, vx: r.vx, vy: r.vy, vz: r.vz, tick }
}

/// Runs one tick of client-side prediction: applies `intent` to the current
/// state, stores the input and its outcome in `buffer`, and returns the new
/// predicted state.
pub fn client_prediction_step(current: &PredictionState, tick: u64, intent: ClientIntent, buffer: &mut InputBuffer) -> (r:
    PredictionState)
    ensures
        r == predict_spec(*current, tick, intent),
        final(buffer)@ == pushed(old(buffer)@, InputEntry { tick, intent, predicted_state: r }, old(buffer).capacity()),
        final(buffer).capacity() == old(buffer).capacity(),
{
    let result = simulate_movement(current.x, current.y, current.z, current.vx, current.vy, current.vz, &intent);
    let state = PredictionState { x: result.x, y: result.y, z: result.z, vx: result.vx, vy: result.vy, vz: result.vz, tick };
    buffer.push(InputEntry { tick, intent, predicted_state: state });
    state
}

/// Client prediction and the server agree: predicting a move from the
/// player's server position lands where the server puts the player when
/// it applies the same move.
pub proof fn lemma_prediction_matches_server(current: PredictionState, tick: u64, intent: ClientIntent, p: PlayerState)
    requires
        intent is Move,
        p.player_id == intent->Move_player_id,
        p.x == current.x,
        p.y == current.y,
        p.z == current.z,
    ensures
        apply_spec(intent, seq![p])[0].x == predict_spec(current, tick, intent).x,
        apply_spec(intent, seq![p])[0].y == predict_spec(current, tick, intent).y,
        apply_spec(intent, seq![p])[0].z == predict_spec(current, tick, intent).z,
{
    let ps = seq![p];
    assert(ps.drop_last() =~= Seq::<PlayerState>::empty());
    reveal_with_fuel(crate::net::authority::first_with_id, 2);
}

/// Whether the ticks of `s` strictly increase.
pub open spec fn ticks_increasing(s: Seq<InputEntry>) -> bool {
    forall|i: int, j: int| 0 <= i < j < s.len() ==> s[i].tick < s[j].tick
}

/// With strictly increasing ticks, discarding the confirmed entries keeps
/// exactly the entries after the confirmed tick.
pub proof fn lemma_discard_keeps_later(s: Seq<InputEntry>, tick: u64)
    requires
        ticks_increasing(s),
    ensures
        after_discard(s, tick) == later_than(s, tick),
    decreases s.len(),
{
    if s.len() == 0 {
    } else if s[0].tick <= tick {
        let t = s.subrange(1, s.len() as int);
        lemma_discard_keeps_later(t, tick);
        lemma_later_than_drop_first(s, tick);
    } else {
        lemma_later_than_all(s, tick);
    }
}

/// When the first entry is not later than `tick`, dropping it keeps the
/// later entries.
proof fn lemma_later_than_drop_first(s: Seq<InputEntry>, tick: u64)
    requires
        s.len() > 0,
        s[0].tick <= tick,
    ensures
        later_than(s, tick) == later_than(s.subrange(1, s.len() as int), tick),
    decreases s.len(),
{
    if s.len() == 1 {
        assert(s.drop_last() =~= Seq::<InputEntry>::empty());
        assert(s.subrange(1, 1) =~= Seq::<InputEntry>::empty());
    } else {
        lemma_later_than_drop_first(s.drop_last(), tick);
        assert(s.drop_last().subrange(1, s.len() - 1) =~= s.subrange(1, s.len() as int).drop_last());
    }
}

/// When every entry is later than `tick`, all of them are kept.
proof fn lemma_later_than_all(s: Seq<InputEntry>, tick: u64)
    requires
        ticks_increasing(s),
        s.len() > 0 ==> s[0].tick > tick,
    ensures
        later_than(s, tick) == s,
    decreases s.len(),
{
    if s.len() > 0 {
        lemma_later_than_all(s.drop_last(), tick);
        assert(s.drop_last().push(s.last()) =~= s);
    }
}

} // verus!
