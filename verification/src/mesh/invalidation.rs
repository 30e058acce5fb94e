//! Mesh cache invalidation: tracks chunk data versions and determines which
//! chunks need remeshing after voxel edits.

use vstd::prelude::*;
use crate::mesh::face_direction::{FaceDirection, face_offset};
use crate::voxel::address::ChunkAddress;

verus! {

/// Metadata for a chunk's mesh cache state.
#[derive(Clone, Copy, Debug)]
pub struct ChunkMeshState {
    /// Version of the voxel data when the current mesh was generated; the
    /// mesh is stale when it differs from the chunk's current data version.
    pub meshed_version: u64,
    /// Whether a remesh task is already in flight for this chunk.
    pub remesh_pending: bool,
}

impl ChunkMeshState {
    /// Creates a new mesh state with no mesh generated yet.
    pub fn new() -> (r: Self)
        ensures
            r.meshed_version == 0,
            !r.remesh_pending,
    {
        ChunkMeshState { meshed_version: 0, remesh_pending: false }
    }

    /// Returns `true` if the mesh is stale (version mismatch with current data).
    pub fn is_stale(&self, current_data_version: u64) -> (r: bool)
        ensures
            r == (self.meshed_version != current_data_version),
    {
        self.meshed_version != current_data_version
    }

    /// Returns `true` if this chunk needs a remesh task submitted: its mesh
    /// is stale and no remesh is pending.
    pub fn needs_remesh(&self, current_data_version: u64) -> (r: bool)
        ensures
            r == (self.meshed_version != current_data_version && !self.remesh_pending),
    {
        self.is_stale(current_data_version) && !self.remesh_pending
    }
}

impl Default for ChunkMeshState {
    fn default() -> (r: Self)
        ensures
            r.meshed_version == 0,
            !r.remesh_pending,
    {
        Self::new()
    }
}

/// The address one chunk away from `a` in direction `d`.
pub open spec fn neighbor_addr_spec(a: ChunkAddress, d: FaceDirection) -> ChunkAddress {
    let (dx, dy, dz) = face_offset(d);
    ChunkAddress { x: (a.x + dx) as i64, y: (a.y + dy) as i64, z: (a.z + dz) as i64, face: a.face }
}

/// `s` followed by the neighbor of `a` in direction `d` when `cond` holds.
pub open spec fn push_if(s: Seq<ChunkAddress>, cond: bool, a: ChunkAddress, d: FaceDirection) -> Seq<ChunkAddress> {
    if cond {
        s.push(neighbor_addr_spec(a, d))
    } else {
        s
    }
}

/// The chunks to remesh after an edit at `(x, y, z)` of chunk `a`, in
/// order: the chunk itself, then the neighbors across each boundary the
/// edit touches (−X, +X, −Y, +Y, −Z, +Z).
pub open spec fn invalidated(a: ChunkAddress, x: int, y: int, z: int, last: int) -> Seq<ChunkAddress> {
    let s0 = seq![a];
    let s1 = push_if(s0, x == 0, a, FaceDirection::NegX);
    let s2 = push_if(s1, x == last, a, FaceDirection::PosX);
    let s3 = push_if(s2, y == 0, a, FaceDirection::NegY);
    let s4 = push_if(s3, y == last, a, FaceDirection::PosY);
    let s5 = push_if(s4, z == 0, a, FaceDirection::NegZ);
    push_if(s5, z == last, a, FaceDirection::PosZ)
}

/// Whether every neighbor of `a` that an edit at `(x, y, z)` may need has
/// an address that fits in `i64`.
pub open spec fn neighbors_addressable(a: ChunkAddress, x: int, y: int, z: int, last: int) -> bool {
    &&& (x == 0 ==> a.x > i64::MIN)
    &&& (x == last ==> a.x < i64::MAX)
    &&& (y == 0 ==> a.y > i64::MIN)
    &&& (y == last ==> a.y < i64::MAX)
    &&& (z == 0 ==> a.z > i64::MIN)
    &&& (z == last ==> a.z < i64::MAX)
}

/// Determines which chunks need remeshing after a voxel edit.
pub struct MeshInvalidator;

impl MeshInvalidator {
    /// Returns the chunk addresses that should be invalidated after a voxel
    /// is edited at `local_pos` within `edited_chunk`.
    ///
    /// The edited chunk itself is always included. Adjacent chunks are
    /// included when the edit is on a chunk boundary, because their meshes
    /// depend on the neighbor voxel for face culling and ambient occlusion.
    pub fn invalidate(edited_chunk: ChunkAddress, local_pos: (usize, usize, usize), chunk_size: usize) -> (r: Vec<
        ChunkAddress,
    >)
        requires
            chunk_size >= 1,
            neighbors_addressable(edited_chunk, local_pos.0 as int, local_pos.1 as int, local_pos.2 as int, chunk_size - 1),
        ensures
            r@ == invalidated(edited_chunk, local_pos.0 as int, local_pos.1 as int, local_pos.2 as int, chunk_size - 1),
    {
        let mut dirty: Vec<ChunkAddress> = Vec::new();
        dirty.push(edited_chunk);
        let (x, y, z) = local_pos;
        let ghost a = edited_chunk;
        let ghost last = chunk_size - 1;
        let ghost s0 = seq![a];
        assert(dirty@ =~= s0);
        if x == 0 {
            dirty.push(neighbor_addr(edited_chunk, FaceDirection::NegX));
        }
        assert(dirty@ =~= push_if(s0, x == 0, a, FaceDirection::NegX));
        if x == chunk_size - 1 {
            dirty.push(neighbor_addr(edited_chunk, FaceDirection::PosX));
        }
        if y == 0 {
            dirty.push(neighbor_addr(edited_chunk, FaceDirection::NegY));
        }
        if y == chunk_size - 1 {
            dirty.push(neighbor_addr(edited_chunk, FaceDirection::PosY));
        }
        if z == 0 {
            dirty.push(neighbor_addr(edited_chunk, FaceDirection::NegZ));
        }
        if z == chunk_size - 1 {
            dirty.push(neighbor_addr(edited_chunk, FaceDirection::PosZ));
        }
        assert(dirty@ =~= invalidated(a, x as int, y as int, z as int, last));
        dirty
    }
}

/// Returns the chunk address of the neighbor in the given face direction.
fn neighbor_addr(addr: ChunkAddress, dir: FaceDirection) -> (r: ChunkAddress)
    requires
        i64::MIN <= addr.x + face_offset(dir).0 <= i64::MAX,
        i64::MIN <= addr.y + face_offset(dir).1 <= i64::MAX,
        i64::MIN <= addr.z + face_offset(dir).2 <= i64::MAX,
    ensures
        r == neighbor_addr_spec(addr, dir),
{
    let (dx, dy, dz): (i64, i64, i64) = match dir {
        FaceDirection::PosX => (1, 0, 0),
        FaceDirection::NegX => (-1, 0, 0),
        FaceDirection::PosY => (0, 1, 0),
        FaceDirection::NegY => (0, -1, 0),
        FaceDirection::PosZ => (0, 0, 1),
        FaceDirection::NegZ => (0, 0, -1),
    };
    addr.offset(dx, dy, dz)
}

/// An edit inside the chunk, off every boundary, invalidates only the
/// chunk itself; the edited chunk always comes first.
pub proof fn lemma_interior_edit_invalidates_self_only(a: ChunkAddress, x: int, y: int, z: int, last: int)
    requires
        0 < x < last,
        0 < y < last,
        0 < z < last,
    ensures
        invalidated(a, x, y, z, last) == seq![a],
{
}

/// Every invalidation list starts with the edited chunk and holds at most
/// one neighbor per face.
pub proof fn lemma_invalidated_shape(a: ChunkAddress, x: int, y: int, z: int, last: int)
    ensures
        invalidated(a, x, y, z, last)[0] == a,
        1 <= invalidated(a, x, y, z, last).len() <= 7,
{
}

/// Whether the neighbour in direction `d` of voxel `(x, y, z)` lies outside
/// a chunk whose coordinates run from 0 to `last`.
pub open spec fn crosses_boundary(x: int, y: int, z: int, last: int, d: FaceDirection) -> bool {
    let (dx, dy, dz) = face_offset(d);
    !(0 <= x + dx <= last && 0 <= y + dy <= last && 0 <= z + dz <= last)
}

/// An edit invalidates exactly what it can change: the edited chunk, listed
/// first, and for every face direction in which the edited voxel's
/// neighbour lies outside the chunk, the chunk across that face; every
/// other chunk listed is one of those.
pub proof fn lemma_edit_invalidates_chunks_across_touched_faces(a: ChunkAddress, x: int, y: int, z: int, last: int)
    requires
        0 <= x <= last,
        0 <= y <= last,
        0 <= z <= last,
    ensures
        invalidated(a, x, y, z, last)[0] == a,
        forall|d: FaceDirection|
            crosses_boundary(x, y, z, last, d) ==> invalidated(a, x, y, z, last).contains(
                #[trigger] neighbor_addr_spec(a, d),
            ),
        forall|i: int|
            0 <= i < invalidated(a, x, y, z, last).len() ==> #[trigger] invalidated(a, x, y, z, last)[i] == a || exists|
                d: FaceDirection,
            |
                crosses_boundary(x, y, z, last, d) && invalidated(a, x, y, z, last)[i] == neighbor_addr_spec(a, d),
{
    let r = invalidated(a, x, y, z, last);
    let s0 = seq![a];
    let s1 = push_if(s0, x == 0, a, FaceDirection::NegX);
    let s2 = push_if(s1, x == last, a, FaceDirection::PosX);
    let s3 = push_if(s2, y == 0, a, FaceDirection::NegY);
    let s4 = push_if(s3, y == last, a, FaceDirection::PosY);
    let s5 = push_if(s4, z == 0, a, FaceDirection::NegZ);
    assert(r == push_if(s5, z == last, a, FaceDirection::PosZ));
    lemma_push_if_keeps(s0, x == 0, a, FaceDirection::NegX, x, y, z, last);
    lemma_push_if_keeps(s1, x == last, a, FaceDirection::PosX, x, y, z, last);
    lemma_push_if_keeps(s2, y == 0, a, FaceDirection::NegY, x, y, z, last);
    lemma_push_if_keeps(s3, y == last, a, FaceDirection::PosY, x, y, z, last);
    lemma_push_if_keeps(s4, z == 0, a, FaceDirection::NegZ, x, y, z, last);
    lemma_push_if_keeps(s5, z == last, a, FaceDirection::PosZ, x, y, z, last);
    assert forall|d: FaceDirection| crosses_boundary(x, y, z, last, d) implies r.contains(
        #[trigger] neighbor_addr_spec(a, d),
    ) by {
        let n = neighbor_addr_spec(a, d);
        match d {
            FaceDirection::NegX => {
                assert(s1.contains(n));
            },
            FaceDirection::PosX => {
                assert(s2.contains(n));
            },
            FaceDirection::NegY => {
                assert(s3.contains(n));
            },
            FaceDirection::PosY => {
                assert(s4.contains(n));
            },
            FaceDirection::NegZ => {
                assert(s5.contains(n));
            },
            FaceDirection::PosZ => {
                assert(r[r.len() - 1] == n);
            },
        }
    }
    assert(s0[0] == a);
}

/// Pushing the neighbour across `d` when `cond` holds keeps what `s`
/// holds, adds that neighbour when `cond` holds, and keeps every entry
/// either `a` or the neighbour across a crossed face, provided `cond` means
/// that `d` is crossed.
proof fn lemma_push_if_keeps(
    s: Seq<ChunkAddress>,
    cond: bool,
    a: ChunkAddress,
    d: FaceDirection,
    x: int,
    y: int,
    z: int,
    last: int,
)
    requires
        0 <= x <= last,
        0 <= y <= last,
        0 <= z <= last,
        cond == crosses_boundary(x, y, z, last, d),
    ensures
        push_if(s, cond, a, d).len() >= 1 ==> s.len() == 0 || push_if(s, cond, a, d)[0] == s[0],
        forall|e: ChunkAddress| s.contains(e) ==> push_if(s, cond, a, d).contains(e),
        cond ==> push_if(s, cond, a, d).contains(neighbor_addr_spec(a, d)),
        (forall|i: int|
            0 <= i < s.len() ==> #[trigger] s[i] == a || exists|e: FaceDirection|
                crosses_boundary(x, y, z, last, e) && s[i] == neighbor_addr_spec(a, e)) ==> (forall|i: int|
            0 <= i < push_if(s, cond, a, d).len() ==> #[trigger] push_if(s, cond, a, d)[i] == a || exists|
                e: FaceDirection,
            |
                crosses_boundary(x, y, z, last, e) && push_if(s, cond, a, d)[i] == neighbor_addr_spec(a, e)),
{
    if cond {
        let t = s.push(neighbor_addr_spec(a, d));
        assert forall|e: ChunkAddress| s.contains(e) implies t.contains(e) by {
            let k = choose|k: int| 0 <= k < s.len() && s[k] == e;
            assert(t[k] == e);
        }
        assert(t[s.len() as int] == neighbor_addr_spec(a, d));
        if forall|i: int|
            0 <= i < s.len() ==> #[trigger] s[i] == a || exists|e: FaceDirection|
                crosses_boundary(x, y, z, last, e) && s[i] == neighbor_addr_spec(a, e) {
            assert forall|i: int| 0 <= i < t.len() implies #[trigger] t[i] == a || exists|e: FaceDirection|
                crosses_boundary(x, y, z, last, e) && t[i] == neighbor_addr_spec(a, e) by {
                if i < s.len() {
                    assert(t[i] == s[i]);
                } else {
                    assert(crosses_boundary(x, y, z, last, d) && t[i] == neighbor_addr_spec(a, d));
                }
            }
        }
    }
}

} // verus!
