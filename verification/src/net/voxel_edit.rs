//! Voxel edit replication: intent validation and application against the
//! server's authoritative chunk store.

use vstd::prelude::*;
use std::collections::HashMap;
use crate::net::chunk_streaming::{ChunkId, chunk_key, chunk_key_spec, lemma_chunk_key_injective};
use crate::net::replication::NetworkId;

verus! {

broadcast use vstd::std_specs::hash::group_hash_axioms;

/// Interaction radius in millimetres (6 metres).
pub const INTERACTION_RADIUS_MM: i64 = 6_000;

/// Chunk size in voxels per axis.
pub const EDIT_CHUNK_SIZE: u32 = 32;

/// Voxels in a stored chunk.
pub const STORE_CHUNK_VOLUME: usize = 32768;

/// Lightweight voxel material identifier used in edit messages; `0` is air
/// and every other value a solid material.
#[derive(Debug, Clone, Copy, PartialEq, Eq, Structural, Hash)]
pub struct VoxelMaterial(pub u16);

impl VoxelMaterial {
    /// Returns `true` if this material is air (empty).
    pub fn is_air(self) -> (r: bool)
        ensures
            r == (self.0 == 0),
    {
        self.0 == 0
    }
}

/// A client's request to modify a single voxel.
#[derive(Debug, Clone, Copy, PartialEq, Eq, Structural)]
pub enum VoxelEditIntent {
    /// Place a block of the given material.
    Place {
        /// Target chunk.
        chunk_id: ChunkId,
        /// Local position within the chunk (each axis 0..32).
        local_x: u32,
        /// Local Y.
        local_y: u32,
        /// Local Z.
        local_z: u32,
        /// Material to place.
        material: VoxelMaterial,
        /// Inventory slot sourcing the material.
        source_inventory_slot: u8,
    },
    /// Remove (break) the block at the given position.
    Remove {
        /// Target chunk.
        chunk_id: ChunkId,
        /// Local X.
        local_x: u32,
        /// Local Y.
        local_y: u32,
        /// Local Z.
        local_z: u32,
    },
}

/// The target chunk and local position of an edit.
pub open spec fn edit_target(e: VoxelEditIntent) -> (ChunkId, u32, u32, u32) {
    match e {
        VoxelEditIntent::Place { chunk_id, local_x, local_y, local_z, .. } => (chunk_id, local_x, local_y, local_z),
        VoxelEditIntent::Remove { chunk_id, local_x, local_y, local_z } => (chunk_id, local_x, local_y, local_z),
    }
}

impl VoxelEditIntent {
    /// Returns the target [`ChunkId`].
    pub fn chunk_id(&self) -> (r: ChunkId)
        ensures
            r == edit_target(*self).0,
    {
        match self {
            VoxelEditIntent::Place { chunk_id, .. } => *chunk_id,
            VoxelEditIntent::Remove { chunk_id, .. } => *chunk_id,
        }
    }
}

/// Broadcast message informing clients of a confirmed voxel change.
#[derive(Debug, Clone, Copy, PartialEq, Eq, Structural)]
pub struct VoxelEditEvent {
    /// Affected chunk.
    pub chunk_id: ChunkId,
    /// Local X within the chunk.
    pub local_x: u32,
    /// Local Y within the chunk.
    pub local_y: u32,
    /// Local Z within the chunk.
    pub local_z: u32,
    /// The new material at this position (air for removal).
    pub new_material: VoxelMaterial,
    /// Network ID of the player who made the edit.
    pub editor_network_id: NetworkId,
    /// Server tick when the edit was applied.
    pub tick: u64,
}

/// Reason a voxel edit intent was rejected by the server.
#[derive(Debug, Clone, Copy, PartialEq, Eq, Structural)]
pub enum EditRejection {
    /// Target voxel is outside the player's interaction radius.
    OutOfRange,
    /// The target chunk is not loaded on the server.
    ChunkNotLoaded,
    /// The local position is outside chunk bounds (0..32).
    PositionOutOfBounds {
        /// X.
        x: u32,
        /// Y.
        y: u32,
        /// Z.
        z: u32,
    },
    /// Attempted to place a block at a non-air position.
    Obstructed,
    /// Attempted to remove an air voxel.
    AlreadyEmpty,
    /// Player entity not found.
    UnknownPlayer,
}

/// Index of local voxel `(x, y, z)` in a stored chunk (z varies fastest).
pub open spec fn store_index(x: int, y: int, z: int) -> int {
    x * 1024 + y * 32 + z
}

/// Minimal per-chunk voxel storage the authoritative server validates
/// edits against, keyed by [`chunk_key`].
#[derive(Debug)]
pub struct ServerChunkStore {
    chunks: HashMap<u128, Vec<VoxelMaterial>>,
}

impl View for ServerChunkStore {
    type V = Map<u128, Seq<VoxelMaterial>>;

    closed spec fn view(&self) -> Map<u128, Seq<VoxelMaterial>> {
        self.chunks@.map_values(|v: Vec<VoxelMaterial>| v@)
    }
}

/// Whether every chunk of store contents `m` holds `32³` voxels, as every
/// chunk of a [`ServerChunkStore`] does.
pub open spec fn chunks_full(m: Map<u128, Seq<VoxelMaterial>>) -> bool {
    forall|k: u128| #[trigger] m.contains_key(k) ==> m[k].len() == 32768
}

/// In store contents whose chunks are full, every position inside a loaded
/// chunk holds a voxel.
pub proof fn lemma_loaded_chunk_holds_voxel(m: Map<u128, Seq<VoxelMaterial>>, id: ChunkId, x: int, y: int, z: int)
    requires
        chunks_full(m),
        stored_chunk(m, id) is Some,
        0 <= x < 32,
        0 <= y < 32,
        0 <= z < 32,
    ensures
        stored_voxel(m, id, x, y, z) is Some,
{
    assert(0 <= chunk_key_spec(id) <= u128::MAX) by (nonlinear_arith);
    assert(m.contains_key(chunk_key_spec(id) as u128));
}

/// The voxels of chunk `id` in a store whose contents are `m`, when loaded.
pub open spec fn stored_chunk(m: Map<u128, Seq<VoxelMaterial>>, id: ChunkId) -> Option<Seq<VoxelMaterial>> {
    if m.contains_key(chunk_key_spec(id) as u128) {
        Some(m[chunk_key_spec(id) as u128])
    } else {
        None
    }
}

/// The material at `(x, y, z)` of chunk `id`, when the chunk is loaded and
/// the position inside it.
pub open spec fn stored_voxel(m: Map<u128, Seq<VoxelMaterial>>, id: ChunkId, x: int, y: int, z: int) -> Option<VoxelMaterial> {
    match stored_chunk(m, id) {
        Some(d) => if 0 <= store_index(x, y, z) < d.len() {
            Some(d[store_index(x, y, z)])
        } else {
            None
        },
        None => None,
    }
}

/// The store contents after setting `(x, y, z)` of chunk `id` to `mat`:
/// unchanged when the chunk is not loaded or the position is outside it.
pub open spec fn with_voxel(m: Map<u128, Seq<VoxelMaterial>>, id: ChunkId, x: int, y: int, z: int, mat: VoxelMaterial) -> Map<u128, Seq<VoxelMaterial>> {
    match stored_chunk(m, id) {
        Some(d) => if 0 <= store_index(x, y, z) < d.len() {
            m.insert(chunk_key_spec(id) as u128, d.update(store_index(x, y, z), mat))
        } else {
            m
        },
        None => m,
    }
}

impl ServerChunkStore {
    /// Every loaded chunk holds `32³` voxels.
    #[verifier::type_invariant]
    spec fn well_formed(&self) -> bool {
        forall|k: u128| #[trigger] self.chunks@.contains_key(k) ==> self.chunks@[k]@.len() == 32768
    }

    /// Create an empty chunk store.
    pub fn new() -> (r: Self)
        ensures
            r@ == Map::<u128, Seq<VoxelMaterial>>::empty(),
            chunks_full(r@),
    {
        let r = ServerChunkStore { chunks: HashMap::new() };
        assert(r@ =~= Map::<u128, Seq<VoxelMaterial>>::empty());
        r
    }

    /// Load (or replace) a chunk filled with the given material.
    pub fn load_chunk(&mut self, id: ChunkId, fill: VoxelMaterial)
        ensures
            final(self)@ == old(self)@.insert(chunk_key_spec(id) as u128, Seq::new(32768, |i: int| fill)),
            chunks_full(final(self)@),
    {
        proof {
            use_type_invariant(&*self);
        }
        let mut data: Vec<VoxelMaterial> = Vec::new();
        let mut i: usize = 0;
        while i < STORE_CHUNK_VOLUME
            invariant
                i <= 32768,
                data@ == Seq::new(i as nat, |j: int| fill),
            decreases 32768 - i,
        {
            data.push(fill);
            i = i + 1;
            assert(data@ =~= Seq::new(i as nat, |j: int| fill));
        }
        let key = chunk_key(id);
        let mut chunks = HashMap::new();
        std::mem::swap(&mut chunks, &mut self.chunks);
        chunks.insert(key, data);
        self.chunks = chunks;
        assert(self@ =~= old(self)@.insert(chunk_key_spec(id) as u128, Seq::new(32768, |i: int| fill)));
    }

    /// Returns `true` if the chunk is loaded.
    pub fn is_loaded(&self, id: &ChunkId) -> (r: bool)
        ensures
            r == stored_chunk(self@, *id) is Some,
            chunks_full(self@),
    {
        proof {
            use_type_invariant(self);
        }
        let key = chunk_key(*id);
        self.chunks.contains_key(&key)
    }

    /// The material at a local position: `None` when the chunk is not
    /// loaded or the position lies outside it.
    pub fn get_voxel(&self, id: &ChunkId, x: u32, y: u32, z: u32) -> (r: Option<VoxelMaterial>)
        requires
            x * 1024 + y * 32 + z <= u32::MAX,
        ensures
            r == stored_voxel(self@, *id, x as int, y as int, z as int),
            chunks_full(self@),
    {
        proof {
            use_type_invariant(self);
        }
        let key = chunk_key(*id);
        match self.chunks.get(&key) {
            Some(data) => {
                let idx = (x * EDIT_CHUNK_SIZE * EDIT_CHUNK_SIZE + y * EDIT_CHUNK_SIZE + z) as usize;
                if idx < data.len() {
                    Some(data[idx])
                } else {
                    None
                }
            },
            None => None,
        }
    }

    /// Set the material at a local position; nothing changes when the chunk
    /// is not loaded or the position lies outside it.
    pub fn set_voxel(&mut self, id: &ChunkId, x: u32, y: u32, z: u32, mat: VoxelMaterial)
        requires
            x * 1024 + y * 32 + z <= u32::MAX,
        ensures
            final(self)@ == with_voxel(old(self)@, *id, x as int, y as int, z as int, mat),
            chunks_full(old(self)@),
            chunks_full(final(self)@),
    {
        proof {
            use_type_invariant(&*self);
        }
        let key = chunk_key(*id);
        let mut chunks = HashMap::new();
        std::mem::swap(&mut chunks, &mut self.chunks);
        match chunks.remove(&key) {
            Some(mut data) => {
                let idx = (x * EDIT_CHUNK_SIZE * EDIT_CHUNK_SIZE + y * EDIT_CHUNK_SIZE + z) as usize;
                if idx < data.len() {
                    data.set(idx, mat);
                }
                chunks.insert(key, data);
            },
            None => {},
        }
        self.chunks = chunks;
        assert(self@ =~= with_voxel(old(self)@, *id, x as int, y as int, z as int, mat));
    }
}

/// Minimal player position for range checking (millimetre coordinates).
#[derive(Debug, Clone, Copy)]
pub struct PlayerPosition {
    /// X in millimetres.
    pub x: i64,
    /// Y in millimetres.
    pub y: i64,
    /// Z in millimetres.
    pub z: i64,
}

/// World millimetre coordinate of local voxel `l` of chunk coordinate `c`.
pub open spec fn world_mm(c: i32, l: u32) -> int {
    c * 32 * 1000 + l * 1000
}

/// Squared distance in mm² from the player to the edit target.
pub open spec fn dist_sq(p: PlayerPosition, id: ChunkId, x: u32, y: u32, z: u32) -> int {
    let dx = world_mm(id.x, x) - p.x;
    let dy = world_mm(id.y, y) - p.y;
    let dz = world_mm(id.z, z) - p.z;
    dx * dx + dy * dy + dz * dz
}

/// Whether the range check of an edit at `(x, y, z)` of chunk `id` stays
/// within `i64`.
pub open spec fn range_check_fits(p: PlayerPosition, id: ChunkId, x: u32, y: u32, z: u32) -> bool {
    &&& i64::MIN <= world_mm(id.x, x) - p.x <= i64::MAX
    &&& i64::MIN <= world_mm(id.y, y) - p.y <= i64::MAX
    &&& i64::MIN <= world_mm(id.z, z) - p.z <= i64::MAX
    &&& dist_sq(p, id, x, y, z) <= i64::MAX
}

/// The verdict on an edit: position bounds first, then whether the chunk is
/// loaded, then the interaction radius, then that a placement targets air
/// and a removal does not.
pub open spec fn validate_spec(p: PlayerPosition, edit: VoxelEditIntent, m: Map<u128, Seq<VoxelMaterial>>) -> Result<(), EditRejection> {
    let (id, x, y, z) = edit_target(edit);
    if x >= 32 || y >= 32 || z >= 32 {
        Err(EditRejection::PositionOutOfBounds { x, y, z })
    } else if stored_chunk(m, id) is None {
        Err(EditRejection::ChunkNotLoaded)
    } else if dist_sq(p, id, x, y, z) > 6000 * 6000 {
        Err(EditRejection::OutOfRange)
    } else {
        let current = match stored_voxel(m, id, x as int, y as int, z as int) {
            Some(v) => v,
            None => VoxelMaterial(0),
        };
        match edit {
            VoxelEditIntent::Place { .. } => if current.0 != 0 {
                Err(EditRejection::Obstructed)
            } else {
                Ok(())
            },
            VoxelEditIntent::Remove { .. } => if current.0 == 0 {
                Err(EditRejection::AlreadyEmpty)
            } else {
                Ok(())
            },
        }
    }
}

/// Validates a [`VoxelEditIntent`] against the server state.
pub fn validate_voxel_edit(player_pos: &PlayerPosition, edit: &VoxelEditIntent, store: &ServerChunkStore) -> (r: Result<(), EditRejection>)
    requires
        ({
            let (id, x, y, z) = edit_target(*edit);
            x < 32 && y < 32 && z < 32 && stored_chunk(store@, id) is Some ==> range_check_fits(*player_pos, id, x, y, z)
        }),
    ensures
        r == validate_spec(*player_pos, *edit, store@),
{
    let (chunk_id, lx, ly, lz) = match edit {
        VoxelEditIntent::Place { chunk_id, local_x, local_y, local_z, .. } => (*chunk_id, *local_x, *local_y, *local_z),
        VoxelEditIntent::Remove { chunk_id, local_x, local_y, local_z } => (*chunk_id, *local_x, *local_y, *local_z),
    };
    if lx >= EDIT_CHUNK_SIZE || ly >= EDIT_CHUNK_SIZE || lz >= EDIT_CHUNK_SIZE {
        return Err(EditRejection::PositionOutOfBounds { x: lx, y: ly, z: lz });
    }
    if !store.is_loaded(&chunk_id) {
        return Err(EditRejection::ChunkNotLoaded);
    }
    let world_x = chunk_id.x as i64 * EDIT_CHUNK_SIZE as i64 * 1000 + lx as i64 * 1000;
    let world_y = chunk_id.y as i64 * EDIT_CHUNK_SIZE as i64 * 1000 + ly as i64 * 1000;
    let world_z = chunk_id.z as i64 * EDIT_CHUNK_SIZE as i64 * 1000 + lz as i64 * 1000;
    let dx = world_x - player_pos.x;
    let dy = world_y - player_pos.y;
    let dz = world_z - player_pos.z;
    proof {
        assert(0 <= dx * dx && 0 <= dy * dy && 0 <= dz * dz) by (nonlinear_arith);
    }
    let dist = dx * dx + dy * dy + dz * dz;
    let max_sq = INTERACTION_RADIUS_MM * INTERACTION_RADIUS_MM;
    if dist > max_sq {
        return Err(EditRejection::OutOfRange);
    }
    let current = match store.get_voxel(&chunk_id, lx, ly, lz) {
        Some(v) => v,
        None => VoxelMaterial(0),
    };
    match edit {
        VoxelEditIntent::Place { .. } => {
            if !current.is_air() {
                return Err(EditRejection::Obstructed);
            }
        },
        VoxelEditIntent::Remove { .. } => {
            if current.is_air() {
                return Err(EditRejection::AlreadyEmpty);
            }
        },
    }
    Ok(())
}

/// The material an edit leaves at its target: the placed material, or air.
pub open spec fn edit_material(e: VoxelEditIntent) -> VoxelMaterial {
    match e {
        VoxelEditIntent::Place { material, .. } => material,
        VoxelEditIntent::Remove { .. } => VoxelMaterial(0),
    }
}

/// Applies a voxel edit (validated beforehand) to the chunk store and
/// returns the event to broadcast.
pub fn apply_voxel_edit(edit: &VoxelEditIntent, store: &mut ServerChunkStore, editor_network_id: NetworkId, tick: u64) -> (r: VoxelEditEvent)
    requires
        ({
            let (id, x, y, z) = edit_target(*edit);
            x * 1024 + y * 32 + z <= u32::MAX
        }),
    ensures
        ({
            let (id, x, y, z) = edit_target(*edit);
            &&& final(store)@ == with_voxel(old(store)@, id, x as int, y as int, z as int, edit_material(*edit))
            &&& r == (VoxelEditEvent {
                chunk_id: id,
                local_x: x,
                local_y: y,
                local_z: z,
                new_material: edit_material(*edit),
                editor_network_id,
                tick,
            })
        }),
{
    match edit {
        VoxelEditIntent::Place { chunk_id, local_x, local_y, local_z, material, .. } => {
            store.set_voxel(chunk_id, *local_x, *local_y, *local_z, *material);
            VoxelEditEvent {
                chunk_id: *chunk_id,
                local_x: *local_x,
                local_y: *local_y,
                local_z: *local_z,
                new_material: *material,
                editor_network_id,
                tick,
            }
        },
        VoxelEditIntent::Remove { chunk_id, local_x, local_y, local_z } => {
            store.set_voxel(chunk_id, *local_x, *local_y, *local_z, VoxelMaterial(0));
            VoxelEditEvent {
                chunk_id: *chunk_id,
                local_x: *local_x,
                local_y: *local_y,
                local_z: *local_z,
                new_material: VoxelMaterial(0),
                editor_network_id,
                tick,
            }
        },
    }
}

/// A write is read back: after setting a voxel of a loaded chunk, reading
/// that voxel gives the written material, and every other voxel of every
/// chunk reads as before.
pub proof fn lemma_voxel_read_after_write(
    m: Map<u128, Seq<VoxelMaterial>>,
    id: ChunkId,
    x: int,
    y: int,
    z: int,
    mat: VoxelMaterial,
    id2: ChunkId,
    x2: int,
    y2: int,
    z2: int,
)
    requires
        stored_voxel(m, id, x, y, z) is Some,
    ensures
        stored_voxel(with_voxel(m, id, x, y, z, mat), id, x, y, z) == Some(mat),
        (id2 != id || store_index(x2, y2, z2) != store_index(x, y, z)) ==> stored_voxel(
            with_voxel(m, id, x, y, z, mat),
            id2,
            x2,
            y2,
            z2,
        ) == stored_voxel(m, id2, x2, y2, z2),
{
    if chunk_key_spec(id2) == chunk_key_spec(id) {
        lemma_chunk_key_injective(id2, id);
    }
    assert(0 <= chunk_key_spec(id) <= u128::MAX) by (nonlinear_arith);
    assert(0 <= chunk_key_spec(id2) <= u128::MAX) by (nonlinear_arith);
}

/// Once a valid placement of a solid material is applied, any further
/// placement at the same target by the same player is rejected as
/// obstructed.
pub proof fn lemma_placed_voxel_obstructs(
    p: PlayerPosition,
    e1: VoxelEditIntent,
    e2: VoxelEditIntent,
    m: Map<u128, Seq<VoxelMaterial>>,
)
    requires
        validate_spec(p, e1, m) == Ok::<(), EditRejection>(()),
        e1 is Place,
        e2 is Place,
        edit_material(e1).0 != 0,
        edit_target(e2) == edit_target(e1),
        forall|k: u128| #[trigger] m.contains_key(k) ==> m[k].len() == 32768,
    ensures
        ({
            let (id, x, y, z) = edit_target(e1);
            validate_spec(p, e2, with_voxel(m, id, x as int, y as int, z as int, edit_material(e1)))
                == Err::<(), EditRejection>(EditRejection::Obstructed)
        }),
{
    let (id, x, y, z) = edit_target(e1);
    assert(0 <= chunk_key_spec(id) <= u128::MAX) by (nonlinear_arith);
    assert(0 <= store_index(x as int, y as int, z as int) < 32768);
}

} // verus!
