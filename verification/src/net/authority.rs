//! Server-authoritative player state, client intents and their validation.
//!
//! Clients submit [`ClientIntent`] messages describing what they want to do;
//! the server validates them against its [`AuthoritativeWorld`] with
//! [`IntentValidator`] and applies the legal ones.

use vstd::prelude::*;

verus! {

/// Server tick rate in Hz.
pub const SERVER_TICK_RATE: u32 = 60;

/// Maximum movement distance per tick in millimetres (prevents teleport
/// hacks); about 10 m/s at 60 Hz.
pub const MAX_MOVE_DISTANCE_MM: i128 = 200;

/// Maximum interaction range in millimetres (5 metres).
pub const MAX_INTERACT_RANGE_MM: i128 = 5_000;

/// A client's declared intention for one tick.
#[derive(Debug, Clone, Copy, PartialEq, Eq, Structural)]
pub enum ClientIntent {
    /// Move the player's entity by a delta (dx, dy, dz) in millimetres.
    Move {
        /// Player identifier.
        player_id: u64,
        /// X displacement in millimetres.
        dx: i64,
        /// Y displacement in millimetres.
        dy: i64,
        /// Z displacement in millimetres.
        dz: i64,
    },
    /// Place a voxel at the given world coordinates.
    PlaceVoxel {
        /// Player identifier.
        player_id: u64,
        /// Voxel type to place.
        voxel_type: u16,
        /// Target X coordinate in millimetres.
        x: i64,
        /// Target Y coordinate in millimetres.
        y: i64,
        /// Target Z coordinate in millimetres.
        z: i64,
    },
    /// Break/remove a voxel at the given world coordinates.
    BreakVoxel {
        /// Player identifier.
        player_id: u64,
        /// Target X coordinate in millimetres.
        x: i64,
        /// Target Y coordinate in millimetres.
        y: i64,
        /// Target Z coordinate in millimetres.
        z: i64,
    },
    /// Interact with an entity (e.g. open a container, talk to NPC).
    Interact {
        /// Player identifier.
        player_id: u64,
        /// Target entity identifier.
        target_entity: u64,
    },
    /// Rotate the player's view (yaw/pitch in milliradians).
    Rotate {
        /// Player identifier.
        player_id: u64,
        /// Yaw delta in milliradians.
        yaw_mrad: i32,
        /// Pitch delta in milliradians.
        pitch_mrad: i32,
    },
}

/// The player an intent belongs to.
pub open spec fn intent_player(i: ClientIntent) -> u64 {
    match i {
        ClientIntent::Move { player_id, .. } => player_id,
        ClientIntent::PlaceVoxel { player_id, .. } => player_id,
        ClientIntent::BreakVoxel { player_id, .. } => player_id,
        ClientIntent::Interact { player_id, .. } => player_id,
        ClientIntent::Rotate { player_id, .. } => player_id,
    }
}

impl ClientIntent {
    /// Returns the player ID associated with this intent.
    pub fn player_id(&self) -> (r: u64)
        ensures
            r == intent_player(*self),
    {
        match self {
            ClientIntent::Move { player_id, .. } => *player_id,
            ClientIntent::PlaceVoxel { player_id, .. } => *player_id,
            ClientIntent::BreakVoxel { player_id, .. } => *player_id,
            ClientIntent::Interact { player_id, .. } => *player_id,
            ClientIntent::Rotate { player_id, .. } => *player_id,
        }
    }
}

/// Reasons an intent may be rejected by the server.
#[derive(Debug, Clone, Copy, PartialEq, Eq, Structural)]
pub enum IntentValidationError {
    /// Player entity not found in the authoritative world.
    UnknownPlayer(u64),
    /// Movement delta exceeds the per-tick speed limit.
    MoveTooFast {
        /// Actual movement magnitude (whole millimetres, rounded down).
        distance: i128,
        /// Maximum allowed.
        max: i128,
    },
    /// Target position is out of interaction range.
    OutOfRange {
        /// Actual distance (whole millimetres, rounded down).
        distance: i128,
        /// Maximum allowed.
        max: i128,
    },
    /// Invalid voxel type ID.
    InvalidVoxelType(u16),
}

/// Server-side canonical state for a connected player.
#[derive(Debug, Clone, Copy, PartialEq, Eq, Structural)]
pub struct PlayerState {
    /// Player identifier (matches login).
    pub player_id: u64,
    /// X position in millimetres.
    pub x: i64,
    /// Y position in millimetres.
    pub y: i64,
    /// Z position in millimetres.
    pub z: i64,
    /// Yaw in milliradians.
    pub yaw_mrad: i32,
    /// Pitch in milliradians.
    pub pitch_mrad: i32,
}

/// The server's canonical world state: its players, in spawn order, and
/// the tick counter.
pub struct AuthoritativeWorld {
    players: Vec<PlayerState>,
    tick: u64,
}

/// Index of the first player with id `id` among `ps`, if any.
pub open spec fn first_with_id(ps: Seq<PlayerState>, id: u64) -> Option<int>
    decreases ps.len(),
{
    if ps.len() == 0 {
        None
    } else {
        match first_with_id(ps.drop_last(), id) {
            Some(i) => Some(i),
            None => if ps.last().player_id == id {
                Some(ps.len() - 1)
            } else {
                None
            },
        }
    }
}

/// The first player with id `id` among `ps`, if any.
pub open spec fn find_spec(ps: Seq<PlayerState>, id: u64) -> Option<PlayerState> {
    match first_with_id(ps, id) {
        Some(i) => Some(ps[i]),
        None => None,
    }
}

/// The first-match index lies inside the sequence and names a player with
/// that id.
proof fn lemma_first_with_id(ps: Seq<PlayerState>, id: u64)
    ensures
        first_with_id(ps, id) matches Some(i) ==> 0 <= i < ps.len() && ps[i].player_id == id,
        first_with_id(ps, id) is None ==> forall|j: int| 0 <= j < ps.len() ==> ps[j].player_id != id,
    decreases ps.len(),
{
    if ps.len() > 0 {
        lemma_first_with_id(ps.drop_last(), id);
        if first_with_id(ps, id) is None {
            assert forall|j: int| 0 <= j < ps.len() implies ps[j].player_id != id by {
                if j < ps.len() - 1 {
                    assert(ps.drop_last()[j] == ps[j]);
                }
            }
        }
    }
}

impl View for AuthoritativeWorld {
    type V = Seq<PlayerState>;

    closed spec fn view(&self) -> Seq<PlayerState> {
        self.players@
    }
}

impl AuthoritativeWorld {
    /// The current tick.
    pub closed spec fn tick_spec(&self) -> u64 {
        self.tick
    }

    /// Creates a new empty authoritative world at tick 0.
    pub fn new() -> (r: Self)
        ensures
            r@ == Seq::<PlayerState>::empty(),
            r.tick_spec() == 0,
    {
        AuthoritativeWorld { players: Vec::new(), tick: 0 }
    }

    /// Returns the current tick number.
    pub fn tick(&self) -> (r: u64)
        ensures
            r == self.tick_spec(),
    {
        self.tick
    }

    /// Advances the tick counter by one.
    pub fn advance_tick(&mut self)
        requires
            old(self).tick_spec() < u64::MAX,
        ensures
            final(self).tick_spec() == old(self).tick_spec() + 1,
            final(self)@ == old(self)@,
    {
        self.tick = self.tick + 1;
    }

    /// Adds a player with the given initial state and returns its slot.
    pub fn spawn_player(&mut self, state: PlayerState) -> (r: usize)
        ensures
            final(self)@ == old(self)@.push(state),
            r == old(self)@.len(),
            final(self).tick_spec() == old(self).tick_spec(),
    {
        let slot = self.players.len();
        self.players.push(state);
        slot
    }

    /// Index of the first player with id `player_id`.
    fn find_index(&self, player_id: u64) -> (r: Option<usize>)
        ensures
            match r {
                Some(i) => first_with_id(self@, player_id) == Some(i as int),
                None => first_with_id(self@, player_id) is None,
            },
    {
        let mut i: usize = 0;
        while i < self.players.len()
            invariant
                i <= self.players@.len(),
                first_with_id(self.players@.take(i as int), player_id) is None,
            decreases self.players@.len() - i,
        {
            proof {
                assert(self.players@.take(i as int + 1).drop_last() =~= self.players@.take(i as int));
            }
            if self.players[i].player_id == player_id {
                proof {
                    lemma_first_prefix(self.players@, i as int + 1, player_id);
                }
                return Some(i);
            }
            i = i + 1;
        }
        assert(self.players@.take(i as int) =~= self.players@);
        None
    }

    /// Looks up a player's state by player ID (the first one spawned with
    /// that id).
    pub fn find_player(&self, player_id: u64) -> (r: Option<&PlayerState>)
        ensures
            match r {
                Some(p) => find_spec(self@, player_id) == Some(*p),
                None => find_spec(self@, player_id) is None,
            },
    {
        proof {
            lemma_first_with_id(self@, player_id);
        }
        match self.find_index(player_id) {
            Some(i) => Some(&self.players[i]),
            None => None,
        }
    }

    /// Looks up a player's state by player ID (the first one spawned with
    /// that id) for changing it.
    pub fn find_player_mut(&mut self, player_id: u64) -> (r: Option<&mut PlayerState>)
        ensures
            match r {
                Some(p) => first_with_id(old(self)@, player_id) matches Some(i) && *p == old(self)@[i]
                    && final(self)@ == old(self)@.update(i, *final(p)),
                None => first_with_id(old(self)@, player_id) is None && final(self)@ == old(self)@,
            },
            final(self).tick_spec() == old(self).tick_spec(),
    {
        proof {
            lemma_first_with_id(self@, player_id);
        }
        match self.find_index(player_id) {
            Some(i) => Some(&mut self.players[i]),
            None => None,
        }
    }

    /// Removes the player in slot `slot`, if there is one; the players after
    /// it move down one slot. Returns whether a player was removed.
    pub fn despawn(&mut self, slot: usize) -> (r: bool)
        ensures
            r == (slot < old(self)@.len()),
            r ==> final(self)@ == old(self)@.remove(slot as int),
            !r ==> final(self)@ == old(self)@,
            final(self).tick_spec() == old(self).tick_spec(),
    {
        if slot < self.players.len() {
            self.players.remove(slot);
            true
        } else {
            false
        }
    }

    /// Returns the number of players.
    pub fn player_count(&self) -> (r: usize)
        ensures
            r == self@.len(),
    {
        self.players.len()
    }

    /// Replaces the player at index `i`.
    fn set_player(&mut self, i: usize, p: PlayerState)
        requires
            i < old(self)@.len(),
        ensures
            final(self)@ == old(self)@.update(i as int, p),
            final(self).tick_spec() == old(self).tick_spec(),
    {
        self.players.set(i, p);
    }
}

/// A first match inside a prefix is the first match of the whole sequence.
proof fn lemma_first_prefix(ps: Seq<PlayerState>, k: int, id: u64)
    requires
        0 <= k <= ps.len(),
        first_with_id(ps.take(k), id) is Some,
    ensures
        first_with_id(ps, id) == first_with_id(ps.take(k), id),
    decreases ps.len() - k,
{
    if k < ps.len() {
        assert(ps.take(k + 1).drop_last() =~= ps.take(k));
        lemma_first_prefix(ps, k + 1, id);
    } else {
        assert(ps.take(k) =~= ps);
    }
}

/// `n` rounded down to a whole square root: the `r` with `r² ≤ n < (r+1)²`.
pub open spec fn is_isqrt(n: int, r: int) -> bool {
    0 <= r && r * r <= n < (r + 1) * (r + 1)
}

/// The integer square root of `n`, rounded down.
pub fn isqrt(n: u128) -> (r: u128)
    ensures
        is_isqrt(n as int, r as int),
{
    let mut lo: u128 = 0;
    let mut hi: u128 = 0x1_0000_0000_0000_0000;
    proof {
        assert(0x1_0000_0000_0000_0000 * 0x1_0000_0000_0000_0000 > u128::MAX) by (nonlinear_arith);
    }
    while hi - lo > 1
        invariant
            lo < hi <= 0x1_0000_0000_0000_0000,
            lo * lo <= n,
            n < hi * hi,
        decreases hi - lo,
    {
        let mid = lo + (hi - lo) / 2;
        proof {
            assert(mid * mid <= u128::MAX) by (nonlinear_arith)
                requires mid < 0x1_0000_0000_0000_0000;
        }
        if mid * mid <= n {
            lo = mid;
        } else {
            hi = mid;
        }
    }
    assert(hi == lo + 1);
    lo
}

/// Squared length of the delta `(dx, dy, dz)`.
pub open spec fn len_sq(dx: int, dy: int, dz: int) -> int {
    dx * dx + dy * dy + dz * dz
}

/// The verdict on an intent in a world whose players are `ps`: the player
/// must exist; a move must not exceed [`MAX_MOVE_DISTANCE_MM`]; a placement
/// must not place air and, like a break, must be within
/// [`MAX_INTERACT_RANGE_MM`] of the player. Distances are reported as whole
/// millimetres rounded down.
pub open spec fn validate_spec(intent: ClientIntent, ps: Seq<PlayerState>) -> Result<(), IntentValidationError> {
    let id = intent_player(intent);
    match find_spec(ps, id) {
        None => Err(IntentValidationError::UnknownPlayer(id)),
        Some(p) => match intent {
            ClientIntent::Move { dx, dy, dz, .. } => {
                let d2 = len_sq(dx as int, dy as int, dz as int);
                if d2 > 200 * 200 {
                    Err(IntentValidationError::MoveTooFast {
                        distance: choose|r: i128| is_isqrt(d2, r as int),
                        max: MAX_MOVE_DISTANCE_MM,
                    })
                } else {
                    Ok(())
                }
            },
            ClientIntent::PlaceVoxel { voxel_type, x, y, z, .. } => if voxel_type == 0 {
                Err(IntentValidationError::InvalidVoxelType(0))
            } else {
                range_spec(p, x, y, z)
            },
            ClientIntent::BreakVoxel { x, y, z, .. } => range_spec(p, x, y, z),
            _ => Ok(()),
        },
    }
}

/// The range verdict for a target `(x, y, z)` of player `p`.
pub open spec fn range_spec(p: PlayerState, x: i64, y: i64, z: i64) -> Result<(), IntentValidationError> {
    let d2 = len_sq(x - p.x, y - p.y, z - p.z);
    if d2 > 5000 * 5000 {
        Err(IntentValidationError::OutOfRange {
            distance: choose|r: i128| is_isqrt(d2, r as int),
            max: MAX_INTERACT_RANGE_MM,
        })
    } else {
        Ok(())
    }
}

/// Whether the squared distances an intent's check computes fit in `i128`.
pub open spec fn intent_fits(intent: ClientIntent, ps: Seq<PlayerState>) -> bool {
    match find_spec(ps, intent_player(intent)) {
        None => true,
        Some(p) => match intent {
            ClientIntent::Move { dx, dy, dz, .. } => len_sq(dx as int, dy as int, dz as int) <= i128::MAX,
            ClientIntent::PlaceVoxel { voxel_type, x, y, z, .. } => voxel_type == 0 || len_sq(
                x - p.x,
                y - p.y,
                z - p.z,
            ) <= i128::MAX,
            ClientIntent::BreakVoxel { x, y, z, .. } => len_sq(x - p.x, y - p.y, z - p.z) <= i128::MAX,
            _ => true,
        },
    }
}

/// Square roots rounded down are unique.
proof fn lemma_isqrt_unique(n: int, a: int, b: int)
    requires
        is_isqrt(n, a),
        is_isqrt(n, b),
    ensures
        a == b,
{
    if a < b {
        assert((a + 1) * (a + 1) <= b * b) by (nonlinear_arith)
            requires 0 <= a < b;
    } else if b < a {
        assert((b + 1) * (b + 1) <= a * a) by (nonlinear_arith)
            requires 0 <= b < a;
    }
}

/// The integer square root of a squared distance, as the error reports it.
fn distance_of(d2: i128) -> (r: i128)
    requires
        d2 >= 0,
    ensures
        r == choose|q: i128| is_isqrt(d2 as int, q as int),
        is_isqrt(d2 as int, r as int),
{
    let q = isqrt(d2 as u128);
    proof {
        assert(q <= d2) by (nonlinear_arith)
            requires q * q <= d2, q >= 0;
        assert((q as i128) as int == q as int);
        assert(is_isqrt(d2 as int, (q as i128) as int));
        let c = choose|q2: i128| is_isqrt(d2 as int, q2 as int);
        lemma_isqrt_unique(d2 as int, c as int, q as int);
    }
    q as i128
}

/// Validates and applies intents against the [`AuthoritativeWorld`].
pub struct IntentValidator;

impl IntentValidator {
    /// Validates a single intent; `Ok(())` means it should be applied.
    ///
    /// The distance carried by a `MoveTooFast` or `OutOfRange` rejection is
    /// the exact integer square root of the squared distance, rounded down.
    /// A square root taken in `f64` and truncated can differ from it by one
    /// where the squared distance is beyond the 53 bits an `f64` holds
    /// exactly: for an offset of (2^30, 2^15, 2^15) it is 1073741824 here,
    /// where the float root gives 1073741825.
    pub fn validate(intent: &ClientIntent, world: &AuthoritativeWorld) -> (r: Result<(), IntentValidationError>)
        requires
            intent_fits(*intent, world@),
        ensures
            r == validate_spec(*intent, world@),
    {
        let player = world.find_player(intent.player_id());
        match player {
            None => Err(IntentValidationError::UnknownPlayer(intent.player_id())),
            Some(ps) => match intent {
                ClientIntent::Move { dx, dy, dz, .. } => {
                    let (a, b, c) = (*dx as i128, *dy as i128, *dz as i128);
                    proof {
                        assert(0 <= a * a && 0 <= b * b && 0 <= c * c) by (nonlinear_arith);
                    }
                    let dist_sq = a * a + b * b + c * c;
                    let max_sq = MAX_MOVE_DISTANCE_MM * MAX_MOVE_DISTANCE_MM;
                    if dist_sq > max_sq {
                        return Err(IntentValidationError::MoveTooFast {
                            distance: distance_of(dist_sq),
                            max: MAX_MOVE_DISTANCE_MM,
                        });
                    }
                    Ok(())
                },
                ClientIntent::PlaceVoxel { voxel_type, x, y, z, .. } => {
                    if *voxel_type == 0 {
                        return Err(IntentValidationError::InvalidVoxelType(0));
                    }
                    Self::check_range(ps, *x, *y, *z)
                },
                ClientIntent::BreakVoxel { x, y, z, .. } => Self::check_range(ps, *x, *y, *z),
                _ => Ok(()),
            },
        }
    }

    /// Validates the intent and, when it is legal, applies it to the world.
    pub fn validate_and_apply(intent: &ClientIntent, world: &mut AuthoritativeWorld) -> (r: Result<(), IntentValidationError>)
        requires
            intent_fits(*intent, old(world)@),
        ensures
            r == validate_spec(*intent, old(world)@),
            r is Ok ==> final(world)@ == apply_spec(*intent, old(world)@),
            r is Err ==> final(world)@ == old(world)@,
            final(world).tick_spec() == old(world).tick_spec(),
    {
        let v = Self::validate(intent, world);
        match v {
            Ok(()) => {
                Self::apply(intent, world);
                Ok(())
            },
            Err(e) => Err(e),
        }
    }

    /// Applies an intent to the world: a move displaces the player
    /// (saturating), a rotation turns it (wrapping); the other intents
    /// change no player.
    fn apply(intent: &ClientIntent, world: &mut AuthoritativeWorld)
        ensures
            final(world)@ == apply_spec(*intent, old(world)@),
            final(world).tick_spec() == old(world).tick_spec(),
    {
        proof {
            lemma_first_with_id(world@, intent_player(*intent));
        }
        match intent {
            ClientIntent::Move { player_id, dx, dy, dz } => {
                if let Some(i) = world.find_index(*player_id) {
                    let mut p = world.players[i];
                    assert(p == world@[i as int]);
                    p.x = saturating_add_i64(p.x, *dx);
                    p.y = saturating_add_i64(p.y, *dy);
                    p.z = saturating_add_i64(p.z, *dz);
                    world.set_player(i, p);
                }
            },
            ClientIntent::Rotate { player_id, yaw_mrad, pitch_mrad } => {
                if let Some(i) = world.find_index(*player_id) {
                    let mut p = world.players[i];
                    assert(p == world@[i as int]);
                    p.yaw_mrad = p.yaw_mrad.wrapping_add(*yaw_mrad);
                    p.pitch_mrad = p.pitch_mrad.wrapping_add(*pitch_mrad);
                    world.set_player(i, p);
                }
            },
            _ => {},
        }
    }

    /// Checks that a target position is within interaction range of the
    /// player.
    fn check_range(ps: &PlayerState, x: i64, y: i64, z: i64) -> (r: Result<(), IntentValidationError>)
        requires
            len_sq(x - ps.x, y - ps.y, z - ps.z) <= i128::MAX,
        ensures
            r == range_spec(*ps, x, y, z),
    {
        let dx = (x as i128) - (ps.x as i128);
        let dy = (y as i128) - (ps.y as i128);
        let dz = (z as i128) - (ps.z as i128);
        proof {
            assert(0 <= dx * dx && 0 <= dy * dy && 0 <= dz * dz) by (nonlinear_arith);
        }
        let dist_sq = dx * dx + dy * dy + dz * dz;
        let max_sq = MAX_INTERACT_RANGE_MM * MAX_INTERACT_RANGE_MM;
        if dist_sq > max_sq {
            return Err(IntentValidationError::OutOfRange { distance: distance_of(dist_sq), max: MAX_INTERACT_RANGE_MM });
        }
        Ok(())
    }
}

/// `a + b` clamped to the `i64` range.
pub open spec fn sat_add(a: i64, b: i64) -> i64 {
    if a + b > i64::MAX {
        i64::MAX
    } else if a + b < i64::MIN {
        i64::MIN
    } else {
        (a + b) as i64
    }
}

/// `a + b`, saturating at the bounds of `i64` (as `i64::saturating_add`).
pub(crate) fn saturating_add_i64(a: i64, b: i64) -> (r: i64)
    ensures
        r == sat_add(a, b),
{
    match a.checked_add(b) {
        Some(v) => v,
        None => if b > 0 {
            i64::MAX
        } else {
            i64::MIN
        },
    }
}

/// The players after applying `intent` to the first player with its id.
pub open spec fn apply_spec(intent: ClientIntent, ps: Seq<PlayerState>) -> Seq<PlayerState> {
    match first_with_id(ps, intent_player(intent)) {
        None => ps,
        Some(i) => match intent {
            ClientIntent::Move { dx, dy, dz, .. } => ps.update(
                i,
                PlayerState { x: sat_add(ps[i].x, dx), y: sat_add(ps[i].y, dy), z: sat_add(ps[i].z, dz), ..ps[i] },
            ),
            ClientIntent::Rotate { yaw_mrad, pitch_mrad, .. } => ps.update(
                i,
                PlayerState {
                    yaw_mrad: ps[i].yaw_mrad.wrapping_add(yaw_mrad),
                    pitch_mrad: ps[i].pitch_mrad.wrapping_add(pitch_mrad),
                    ..ps[i]
                },
            ),
            _ => ps,
        },
    }
}

} // verus!
