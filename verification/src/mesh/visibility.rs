//! Visible face detection: determines which voxel faces are exposed to air or
//! transparent neighbors and need geometry.

use vstd::prelude::*;
use crate::mesh::face_direction::{FaceDirection, face_index, face_from_index, face_offset};
use crate::mesh::neighborhood::{ChunkNeighborhood, NeighborhoodView, lookup};
use crate::mesh::visible_faces::{VisibleFaces, bit_set, ones_below, pow2_nat};
use crate::voxel::types::VoxelTypeId;
use crate::voxel::chunk::{ChunkData, CHUNK_VOLUME, voxel_index, in_chunk};
use crate::voxel::registry::{VoxelTypeRegistry, TypeTraits, is_air_spec, is_transparent_spec};

verus! {

/// The coordinates of chunk index `i` (x varies fastest).
pub open spec fn index_coords(i: int) -> (int, int, int) {
    (i % 32, (i / 32) % 32, i / 1024)
}

/// The voxel next to `(x, y, z)` in direction `d`: from the chunk when
/// inside it, else from the neighborhood.
pub open spec fn neighbor_of(c: Seq<VoxelTypeId>, n: NeighborhoodView, x: int, y: int, z: int, d: FaceDirection) -> VoxelTypeId {
    let (dx, dy, dz) = face_offset(d);
    let (nx, ny, nz) = (x + dx, y + dy, z + dz);
    if in_chunk(nx, ny, nz) {
        c[voxel_index(nx, ny, nz)]
    } else {
        lookup(n, nx, ny, nz)
    }
}

/// Whether a face of voxel `v` toward neighbor `nb` is shown: always
/// toward air; from a transparent voxel unless the neighbor is the same
/// type; from an opaque voxel only toward a transparent neighbor.
pub open spec fn face_shown(types: Seq<TypeTraits>, v: VoxelTypeId, nb: VoxelTypeId) -> bool {
    if is_air_spec(nb) {
        true
    } else if is_transparent_spec(types, v) {
        nb != v
    } else {
        is_transparent_spec(types, nb)
    }
}

/// Whether the face in direction `d` of the voxel at `(x, y, z)` is
/// visible: the voxel is not air and the face is shown.
pub open spec fn face_visible(types: Seq<TypeTraits>, c: Seq<VoxelTypeId>, n: NeighborhoodView, x: int, y: int, z: int, d: FaceDirection) -> bool {
    let v = c[voxel_index(x, y, z)];
    !is_air_spec(v) && face_shown(types, v, neighbor_of(c, n, x, y, z, d))
}

/// Whether bit `j` of a visibility mask names a visible face of the voxel
/// at `(x, y, z)`.
pub open spec fn visible_bit(types: Seq<TypeTraits>, c: Seq<VoxelTypeId>, n: NeighborhoodView, x: int, y: int, z: int, j: nat) -> bool {
    j < 6 && face_visible(types, c, n, x, y, z, face_from_index(j))
}

/// Whether `m` is the exact visibility mask of the voxel at `(x, y, z)`:
/// bit `j` is set exactly when it names a visible face.
pub open spec fn mask_exact(types: Seq<TypeTraits>, c: Seq<VoxelTypeId>, n: NeighborhoodView, x: int, y: int, z: int, m: VisibleFaces) -> bool {
    forall|j: nat| j < 8 ==> #[trigger] bit_set(m.0, j) == visible_bit(types, c, n, x, y, z, j)
}

/// Sum of the visible-face counts of `faces`.
pub open spec fn total_visible(faces: Seq<VisibleFaces>) -> nat
    decreases faces.len(),
{
    if faces.len() == 0 {
        0
    } else {
        total_visible(faces.drop_last()) + ones_below(faces.last().0, 8)
    }
}

/// Number of voxels of `c` that are not air.
pub open spec fn non_air_count(c: Seq<VoxelTypeId>) -> nat
    decreases c.len(),
{
    if c.len() == 0 {
        0
    } else {
        non_air_count(c.drop_last()) + if is_air_spec(c.last()) { 0nat } else { 1nat }
    }
}

/// Index `i` of a chunk has in-chunk coordinates that map back to `i`.
proof fn lemma_index_coords(i: int)
    requires
        0 <= i < 32768,
    ensures
        in_chunk(index_coords(i).0, index_coords(i).1, index_coords(i).2),
        voxel_index(index_coords(i).0, index_coords(i).1, index_coords(i).2) == i,
{
}

/// No bit of zero is set.
pub(crate) proof fn lemma_zero_bits()
    ensures
        forall|j: nat| #![trigger bit_set(0u8, j)] !bit_set(0u8, j),
{
    assert forall|j: nat| #![trigger bit_set(0u8, j)] !bit_set(0u8, j) by {
        lemma_pow2_pos(j);
    }
}

/// Powers of two are positive.
proof fn lemma_pow2_pos(j: nat)
    ensures
        pow2_nat(j) > 0,
    decreases j,
{
    if j > 0 {
        lemma_pow2_pos((j - 1) as nat);
    }
}

/// Whether the face of the non-air voxel at `(x, y, z)` in direction `dir`
/// is shown.
fn face_is_shown(
    chunk: &ChunkData,
    neighbors: &ChunkNeighborhood,
    registry: &VoxelTypeRegistry,
    x: usize,
    y: usize,
    z: usize,
    voxel: VoxelTypeId,
    dir: FaceDirection,
) -> (r: bool)
    requires
        in_chunk(x as int, y as int, z as int),
        voxel == chunk@[voxel_index(x as int, y as int, z as int)],
    ensures
        r == face_shown(registry@, voxel, neighbor_of(chunk@, neighbors@, x as int, y as int, z as int, dir)),
{
    let (nx, ny, nz) = dir.offset(x as i32, y as i32, z as i32);
    let neighbor_voxel = if nx >= 0 && nx < 32 && ny >= 0 && ny < 32 && nz >= 0 && nz < 32 {
        chunk.get(nx as usize, ny as usize, nz as usize)
    } else {
        neighbors.get(nx, ny, nz)
    };
    if registry.is_air(neighbor_voxel) {
        true
    } else if registry.is_transparent(voxel) {
        neighbor_voxel != voxel
    } else {
        registry.is_transparent(neighbor_voxel)
    }
}

/// The visibility mask of the voxel at `(x, y, z)`.
fn voxel_mask(
    chunk: &ChunkData,
    neighbors: &ChunkNeighborhood,
    registry: &VoxelTypeRegistry,
    x: usize,
    y: usize,
    z: usize,
) -> (r: VisibleFaces)
    requires
        in_chunk(x as int, y as int, z as int),
    ensures
        mask_exact(registry@, chunk@, neighbors@, x as int, y as int, z as int, r),
{
    proof {
        lemma_zero_bits();
    }
    let voxel = chunk.get(x, y, z);
    let mut faces = VisibleFaces(0);
    if registry.is_air(voxel) {
        return faces;
    }
    let mut k: usize = 0;
    while k < 6
        invariant
            k <= 6,
            in_chunk(x as int, y as int, z as int),
            voxel == chunk@[voxel_index(x as int, y as int, z as int)],
            !is_air_spec(voxel),
            forall|j: nat| j < 8 ==> #[trigger] bit_set(faces.0, j) == (j < k && visible_bit(
                registry@,
                chunk@,
                neighbors@,
                x as int,
                y as int,
                z as int,
                j,
            )),
        decreases 6 - k,
    {
        let dir = FaceDirection::ALL[k];
        assert(face_from_index(k as nat) == dir);
        let shown = face_is_shown(chunk, neighbors, registry, x, y, z, voxel, dir);
        let ghost before = faces;
        if shown {
            faces.set_visible(dir);
        }
        assert forall|j: nat| j < 8 implies #[trigger] bit_set(faces.0, j) == (j < k + 1 && visible_bit(
            registry@,
            chunk@,
            neighbors@,
            x as int,
            y as int,
            z as int,
            j,
        )) by {
            assert(bit_set(before.0, j) == (j < k && visible_bit(registry@, chunk@, neighbors@, x as int, y as int, z as int, j)));
        }
        k = k + 1;
    }
    faces
}

/// Computes per-voxel visible-face bitmasks for a chunk.
///
/// For each non-air voxel, checks all six neighbors. A face is visible when
/// its neighbor is air or transparent; two transparent voxels of the same
/// type hide their shared face, different transparent types both show it.
///
/// Returns `CHUNK_SIZE³` masks indexed like [`ChunkData`].
pub fn compute_visible_faces(
    chunk: &ChunkData,
    neighbors: &ChunkNeighborhood,
    registry: &VoxelTypeRegistry,
) -> (r: Vec<VisibleFaces>)
    ensures
        r@.len() == 32768,
        forall|i: int| 0 <= i < 32768 ==> mask_exact(
            registry@,
            chunk@,
            neighbors@,
            index_coords(i).0,
            index_coords(i).1,
            index_coords(i).2,
            #[trigger] r@[i],
        ),
{
    let mut result: Vec<VisibleFaces> = Vec::new();
    let mut i: usize = 0;
    while i < CHUNK_VOLUME
        invariant
            i <= 32768,
            result@.len() == i,
            forall|j: int| 0 <= j < i ==> mask_exact(
                registry@,
                chunk@,
                neighbors@,
                index_coords(j).0,
                index_coords(j).1,
                index_coords(j).2,
                #[trigger] result@[j],
            ),
        decreases 32768 - i,
    {
        let x = i % 32;
        let y = (i / 32) % 32;
        let z = i / 1024;
        proof {
            lemma_index_coords(i as int);
        }
        let m = voxel_mask(chunk, neighbors, registry, x, y, z);
        result.push(m);
        i = i + 1;
    }
    result
}

/// Counts the total number of visible faces in a visibility array.
pub fn count_visible_faces(faces: &[VisibleFaces]) -> (r: u32)
    requires
        total_visible(faces@) <= u32::MAX,
    ensures
        r == total_visible(faces@),
{
    let mut sum: u32 = 0;
    let mut i: usize = 0;
    while i < faces.len()
        invariant
            i <= faces@.len(),
            sum == total_visible(faces@.subrange(0, i as int)),
            total_visible(faces@) <= u32::MAX,
        decreases faces@.len() - i,
    {
        proof {
            assert(faces@.subrange(0, i as int + 1).drop_last() =~= faces@.subrange(0, i as int));
            lemma_total_visible_prefix(faces@, i as int + 1);
        }
        let c = faces[i].count();
        sum = sum + c;
        i = i + 1;
    }
    assert(faces@.subrange(0, i as int) =~= faces@);
    sum
}

/// Totals of prefixes never exceed the total.
proof fn lemma_total_visible_prefix(s: Seq<VisibleFaces>, k: int)
    requires
        0 <= k <= s.len(),
    ensures
        total_visible(s.subrange(0, k)) <= total_visible(s),
    decreases s.len() - k,
{
    if k < s.len() {
        lemma_total_visible_prefix(s, k + 1);
        assert(s.subrange(0, k + 1).drop_last() =~= s.subrange(0, k));
    } else {
        assert(s.subrange(0, k) =~= s);
    }
}

/// Counts the total possible faces (6 per non-air voxel) in a chunk.
pub fn count_total_faces(chunk: &ChunkData, registry: &VoxelTypeRegistry) -> (r: u32)
    ensures
        r == 6 * non_air_count(chunk@),
{
    let mut count: u32 = 0;
    let mut i: usize = 0;
    let n = chunk.len();
    while i < n
        invariant
            n == 32768,
            chunk@.len() == 32768,
            i <= n,
            count == 6 * non_air_count(chunk@.subrange(0, i as int)),
            non_air_count(chunk@.subrange(0, i as int)) <= i,
        decreases n - i,
    {
        proof {
            assert(chunk@.subrange(0, i as int + 1).drop_last() =~= chunk@.subrange(0, i as int));
            lemma_index_coords(i as int);
        }
        let x = i % 32;
        let y = (i / 32) % 32;
        let z = i / 1024;
        if !registry.is_air(chunk.get(x, y, z)) {
            count = count + 6;
        }
        i = i + 1;
    }
    assert(chunk@.subrange(0, i as int) =~= chunk@);
    count
}

/// Face culling between a voxel `v` and its neighbour `nb`, both of them
/// not air:
/// - a voxel never shows a face toward another voxel of its own type;
/// - a transparent voxel shows its face toward every voxel of another
///   type, transparent or opaque;
/// - an opaque voxel shows its face exactly toward a transparent one;
/// so between two voxels of different types the boundary is drawn from
/// the side of each transparent one, and hidden on both sides only when
/// both are opaque. Every face toward air is shown.
pub proof fn lemma_face_culling(types: Seq<TypeTraits>, v: VoxelTypeId, nb: VoxelTypeId)
    ensures
        face_shown(types, v, VoxelTypeId(0)),
        !is_air_spec(v) && !is_air_spec(nb) && nb == v ==> !face_shown(types, v, nb),
        !is_air_spec(v) && !is_air_spec(nb) && nb != v && is_transparent_spec(types, v) ==> face_shown(types, v, nb),
        !is_air_spec(v) && !is_air_spec(nb) && !is_transparent_spec(types, v) ==> (face_shown(types, v, nb)
            == is_transparent_spec(types, nb)),
        !is_air_spec(v) && !is_air_spec(nb) && nb != v ==> ((face_shown(types, v, nb) || face_shown(types, nb, v)) == (
        is_transparent_spec(types, v) || is_transparent_spec(types, nb))),
{
}

} // verus!
