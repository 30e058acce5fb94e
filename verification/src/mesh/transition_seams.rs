//! LOD transition seam elimination: edge vertex constraining and skirt geometry.
//!
//! When adjacent chunks have different LOD levels their boundary vertices
//! don't align, producing cracks (T-junctions). Edge constraining snaps the
//! higher-LOD boundary vertices to the lower-LOD grid; skirts add short
//! strips along the boundary, extending inward, that hide remaining gaps.

use vstd::prelude::*;
use crate::mesh::face_direction::{FaceDirection, face_index, sweep_axes_spec, is_positive};
use crate::mesh::packed::{ChunkVertex, PackedChunkMesh, indices_valid};
use crate::mesh::lod_stitching::{snap_boundary_vertices, snapped_vertices, pow2, boundary_coord};

verus! {

/// Describes the LOD relationship between a chunk and its neighbor on one face.
#[derive(Clone, Copy, Debug, PartialEq, Eq, Structural)]
pub enum NeighborLodRelation {
    /// Same LOD level — no constraining needed.
    Same,
    /// This chunk has higher resolution than the neighbor; its edge
    /// vertices must be constrained. `lod_diff` is always positive.
    HigherThanNeighbor {
        /// The LOD difference.
        lod_diff: u8,
    },
    /// This chunk has lower resolution than the neighbor; the neighbor
    /// constrains its own vertices.
    LowerThanNeighbor,
}

/// Describes the LOD context for meshing a chunk, including neighbor relationships.
#[derive(Clone, Debug)]
pub struct ChunkLodContext {
    /// LOD level of this chunk.
    pub lod: u8,
    /// Neighbor LOD relationship for each of the 6 faces, indexed by face direction.
    pub neighbors: [NeighborLodRelation; 6],
}

/// The relation of a chunk at `center` to a neighbor whose level is `n`
/// (`None`: not loaded, treated as the same level).
pub open spec fn relation_spec(center: u8, n: Option<u8>) -> NeighborLodRelation {
    match n {
        Some(l) => if l > center {
            NeighborLodRelation::HigherThanNeighbor { lod_diff: (l - center) as u8 }
        } else if l < center {
            NeighborLodRelation::LowerThanNeighbor
        } else {
            NeighborLodRelation::Same
        },
        None => NeighborLodRelation::Same,
    }
}

impl ChunkLodContext {
    /// Create a context where all neighbors share the same LOD level.
    pub fn uniform(lod: u8) -> (r: Self)
        ensures
            r.lod == lod,
            forall|i: int| 0 <= i < 6 ==> r.neighbors@[i] == NeighborLodRelation::Same,
    {
        ChunkLodContext { lod, neighbors: [NeighborLodRelation::Same; 6] }
    }

    /// Create a context from a center LOD and the six neighbor LOD levels;
    /// `None` means the neighbor is not loaded (treated as same LOD).
    pub fn from_neighbor_lods(center_lod: u8, neighbor_lods: [Option<u8>; 6]) -> (r: Self)
        ensures
            r.lod == center_lod,
            forall|i: int| 0 <= i < 6 ==> r.neighbors@[i] == relation_spec(center_lod, neighbor_lods@[i]),
    {
        let mut neighbors = [NeighborLodRelation::Same; 6];
        let mut i: usize = 0;
        while i < 6
            invariant
                i <= 6,
                forall|j: int| 0 <= j < 6 ==> neighbors@[j] == if j < i {
                    relation_spec(center_lod, neighbor_lods@[j])
                } else {
                    NeighborLodRelation::Same
                },
            decreases 6 - i,
        {
            if let Some(n_lod) = neighbor_lods[i] {
                neighbors[i] = if n_lod > center_lod {
                    NeighborLodRelation::HigherThanNeighbor { lod_diff: n_lod - center_lod }
                } else if n_lod < center_lod {
                    NeighborLodRelation::LowerThanNeighbor
                } else {
                    NeighborLodRelation::Same
                };
            }
            i = i + 1;
        }
        ChunkLodContext { lod: center_lod, neighbors }
    }

    /// The LOD difference when the face's neighbor is coarser, else `None`.
    pub fn needs_constraining(&self, direction: FaceDirection) -> (r: Option<u8>)
        ensures
            r == match self.neighbors@[face_index(direction) as int] {
                NeighborLodRelation::HigherThanNeighbor { lod_diff } => Some(lod_diff),
                _ => None,
            },
    {
        match self.neighbors[direction.index()] {
            NeighborLodRelation::HigherThanNeighbor { lod_diff } => Some(lod_diff),
            _ => None,
        }
    }

    /// Whether the face has any LOD difference (needs a skirt).
    pub fn has_lod_difference(&self, direction: FaceDirection) -> (r: bool)
        ensures
            r == (self.neighbors@[face_index(direction) as int] != NeighborLodRelation::Same),
    {
        self.neighbors[direction.index()] != NeighborLodRelation::Same
    }
}

/// Constrain edge vertices of a high-res chunk to match a low-res neighbor:
/// boundary vertices of `edge` are snapped to the nearest point of the
/// `2^lod_diff` grid (ties upward), clamped to `chunk_size`.
pub fn constrain_edge_vertices(
    mesh: &mut PackedChunkMesh,
    edge: FaceDirection,
    lod_diff: u8,
    chunk_size: usize,
)
    requires
        lod_diff < 64,
    ensures
        final(mesh).indices@ == old(mesh).indices@,
        lod_diff == 0 ==> final(mesh).vertices@ == old(mesh).vertices@,
        lod_diff > 0 ==> final(mesh).vertices@ == snapped_vertices(old(mesh).vertices@, edge, pow2(lod_diff as nat), chunk_size),
{
    snap_boundary_vertices(mesh, edge, lod_diff, chunk_size);
}

/// The layer coordinate of the skirt's lower edge: the boundary moved
/// `depth` units inward, clamped to `0..=chunk_size` (read as `i16`).
pub open spec fn lowered_boundary_spec(edge: FaceDirection, depth: u8, chunk_size: usize) -> int {
    let off: int = if is_positive(edge) { -((depth as i8) as int) } else { (depth as i8) as int };
    let raw = boundary_coord(edge, chunk_size) as int + off;
    let hi = (chunk_size as i16) as int;
    if raw < 0 { 0 } else if raw > hi { hi } else { raw }
}

/// Vertex `k` (0..4) of skirt quad `i` of walk `part` (0: along u at v = 0,
/// 1: along v at u = 0): corners `k = 0, 1` are on the boundary and `2, 3`
/// on the lowered edge; odd corners are one step further along the walk.
pub open spec fn skirt_vertex_spec(edge: FaceDirection, chunk_size: usize, low: u8, part: int, i: int, k: int) -> ChunkVertex {
    let (l, u, w) = sweep_axes_spec(edge);
    let t = (i + k % 2) as u8;
    let layer_val = if k < 2 { boundary_coord(edge, chunk_size) } else { low };
    let p = seq![0u8, 0u8, 0u8].update(l as int, layer_val).update(u as int, if part == 0 { t } else { 0 }).update(
        w as int,
        if part == 0 { 0 } else { t },
    );
    ChunkVertex {
        position: [p[0], p[1], p[2]],
        normal: face_index(edge) as u8,
        ao: 0,
        _pad0: 0,
        material_id: 0,
        uv: if part == 0 { [t, 0] } else { [0, t] },
        _pad1: 0,
    }
}

/// The six indices of skirt quad `q`, whose vertices start at `start + 4q`.
pub open spec fn skirt_quad_indices(start: int, q: int) -> Seq<u32> {
    let b = start + 4 * q;
    seq![b as u32, (b + 1) as u32, (b + 2) as u32, (b + 1) as u32, (b + 3) as u32, (b + 2) as u32]
}

/// Builds one skirt vertex.
fn skirt_vertex(edge: FaceDirection, chunk_size: usize, boundary: u8, low: u8, part: u8, i: u8, k: u8) -> (v: ChunkVertex)
    requires
        boundary == boundary_coord(edge, chunk_size),
        boundary <= 32,
        low <= 32,
        part < 2,
        k < 4,
        (i as int) + 1 <= 32,
    ensures
        v == skirt_vertex_spec(edge, chunk_size, low, part as int, i as int, k as int),
{
    let (layer_axis, u_axis, v_axis) = edge.sweep_axes();
    let t: u8 = i + k % 2;
    let mut pos = [0u8; 3];
    pos[layer_axis] = if k < 2 { boundary } else { low };
    pos[u_axis] = if part == 0 { t } else { 0 };
    pos[v_axis] = if part == 0 { 0 } else { t };
    let uv: [u8; 2] = if part == 0 { [t, 0] } else { [0, t] };
    let v = ChunkVertex::new(pos, edge, 0, 0, uv);
    proof {
        let sp = skirt_vertex_spec(edge, chunk_size, low, part as int, i as int, k as int);
        let (l, u, w) = sweep_axes_spec(edge);
        let layer_val = if k < 2 { boundary_coord(edge, chunk_size) } else { low };
        let tt = (i + k % 2) as u8;
        assert(tt == t);
        let p = seq![0u8, 0u8, 0u8].update(l as int, layer_val).update(u as int, if part == 0 { tt } else { 0 }).update(
            w as int,
            if part == 0 { 0 } else { tt },
        );
        assert(pos@ =~= p);
        assert(sp.position@ =~= p);
        assert(v.position@ =~= sp.position@);
        assert(v.uv@ =~= sp.uv@);
        assert(v.normal == sp.normal);
        assert(v.position =~= sp.position);
        assert(v.uv =~= sp.uv);
    }
    v
}

/// Emits the skirt quads of one walk along the boundary.
fn skirt_walk(mesh: &mut PackedChunkMesh, edge: FaceDirection, chunk_size: usize, boundary: u8, low: u8, part: u8, n: u8)
    requires
        boundary == boundary_coord(edge, chunk_size),
        boundary <= 32,
        low <= 32,
        part < 2,
        n <= 32,
        old(mesh).vertices@.len() + 4 * n <= u32::MAX,
    ensures
        final(mesh).vertices@.len() == old(mesh).vertices@.len() + 4 * n,
        final(mesh).vertices@.subrange(0, old(mesh).vertices@.len() as int) == old(mesh).vertices@,
        forall|j: int| 0 <= j < 4 * n ==> #[trigger] final(mesh).vertices@[old(mesh).vertices@.len() + j]
            == skirt_vertex_spec(edge, chunk_size, low, part as int, j / 4, j % 4),
        final(mesh).indices@.len() == old(mesh).indices@.len() + 6 * n,
        final(mesh).indices@.subrange(0, old(mesh).indices@.len() as int) == old(mesh).indices@,
        forall|q: int, m: int| 0 <= q < n && 0 <= m < 6 ==> #[trigger] final(mesh).indices@[old(mesh).indices@.len() + 6 * q + m]
            == skirt_quad_indices(old(mesh).vertices@.len() as int, q)[m],
{
    let ghost v0 = old(mesh).vertices@.len() as int;
    let ghost i0 = old(mesh).indices@.len() as int;
    let mut pos: u8 = 0;
    while pos < n
        invariant
            boundary == boundary_coord(edge, chunk_size),
            boundary <= 32, low <= 32, part < 2, n <= 32,
            v0 == old(mesh).vertices@.len(),
            i0 == old(mesh).indices@.len(),
            v0 + 4 * n <= u32::MAX,
            pos <= n,
            mesh.vertices@.len() == v0 + 4 * pos,
            mesh.vertices@.subrange(0, v0) == old(mesh).vertices@,
            forall|j: int| 0 <= j < 4 * pos ==> #[trigger] mesh.vertices@[v0 + j]
                == skirt_vertex_spec(edge, chunk_size, low, part as int, j / 4, j % 4),
            mesh.indices@.len() == i0 + 6 * pos,
            mesh.indices@.subrange(0, i0) == old(mesh).indices@,
            forall|q: int, m: int| 0 <= q < pos && 0 <= m < 6 ==> #[trigger] mesh.indices@[i0 + 6 * q + m]
                == skirt_quad_indices(v0, q)[m],
        decreases n - pos,
    {
        let ghost prev_v = mesh.vertices@;
        let ghost prev_i = mesh.indices@;
        let c0 = skirt_vertex(edge, chunk_size, boundary, low, part, pos, 0);
        let c1 = skirt_vertex(edge, chunk_size, boundary, low, part, pos, 1);
        let c2 = skirt_vertex(edge, chunk_size, boundary, low, part, pos, 2);
        let c3 = skirt_vertex(edge, chunk_size, boundary, low, part, pos, 3);
        let base = mesh.vertices.len() as u32;
        mesh.vertices.push(c0);
        mesh.vertices.push(c1);
        mesh.vertices.push(c2);
        mesh.vertices.push(c3);
        mesh.indices.push(base);
        mesh.indices.push(base + 1);
        mesh.indices.push(base + 2);
        mesh.indices.push(base + 1);
        mesh.indices.push(base + 3);
        mesh.indices.push(base + 2);
        proof {
            assert forall|j: int| 0 <= j < 4 * (pos + 1) implies #[trigger] mesh.vertices@[v0 + j]
                == skirt_vertex_spec(edge, chunk_size, low, part as int, j / 4, j % 4) by {
                if j < 4 * pos {
                    assert(mesh.vertices@[v0 + j] == prev_v[v0 + j]);
                } else {
                    assert(j / 4 == pos as int);
                }
            }
            assert forall|q: int, m: int| 0 <= q < pos + 1 && 0 <= m < 6 implies #[trigger] mesh.indices@[i0 + 6 * q + m]
                == skirt_quad_indices(v0, q)[m] by {
                if q < pos {
                    assert(mesh.indices@[i0 + 6 * q + m] == prev_i[i0 + 6 * q + m]);
                } else {
                    assert(q == pos as int);
                    assert(base == v0 + 4 * q);
                }
            }
            assert(mesh.vertices@.subrange(0, v0) =~= old(mesh).vertices@);
            assert(mesh.indices@.subrange(0, i0) =~= old(mesh).indices@);
        }
        pos = pos + 1;
    }
}

/// Generate skirt geometry along a chunk boundary edge.
///
/// The skirt extends `skirt_depth` units inward from the boundary; for each
/// of the `chunk_size` (as a byte) steps along u (at v = 0) and then along
/// v (at u = 0) one quad of two triangles is added. Returns the number of
/// triangles added.
pub fn generate_skirt(
    mesh: &mut PackedChunkMesh,
    edge: FaceDirection,
    skirt_depth: u8,
    chunk_size: usize,
) -> (r: usize)
    requires
        skirt_depth > 0 ==> {
            &&& !(is_positive(edge) && skirt_depth == 128)
            &&& chunk_size as u8 <= 32
            &&& (chunk_size as i16) >= 0
            &&& lowered_boundary_spec(edge, skirt_depth, chunk_size) <= 32
        },
        old(mesh).vertices@.len() + 8 * 32 <= u32::MAX,
    ensures
        skirt_depth == 0 ==> r == 0 && final(mesh).vertices@ == old(mesh).vertices@ && final(mesh).indices@ == old(mesh).indices@,
        skirt_depth > 0 ==> {
            let n = chunk_size as u8 as int;
            let v0 = old(mesh).vertices@.len() as int;
            let i0 = old(mesh).indices@.len() as int;
            let low = lowered_boundary_spec(edge, skirt_depth, chunk_size) as u8;
            &&& r == 4 * n
            &&& final(mesh).vertices@.len() == v0 + 8 * n
            &&& final(mesh).vertices@.subrange(0, v0) == old(mesh).vertices@
            &&& forall|j: int| 0 <= j < 4 * n ==> #[trigger] final(mesh).vertices@[v0 + j]
                == skirt_vertex_spec(edge, chunk_size, low, 0, j / 4, j % 4)
            &&& forall|j: int| 0 <= j < 4 * n ==> #[trigger] final(mesh).vertices@[v0 + 4 * n + j]
                == skirt_vertex_spec(edge, chunk_size, low, 1, j / 4, j % 4)
            &&& final(mesh).indices@.len() == i0 + 12 * n
            &&& final(mesh).indices@.subrange(0, i0) == old(mesh).indices@
            &&& forall|q: int, m: int| 0 <= q < 2 * n && 0 <= m < 6 ==> #[trigger] final(mesh).indices@[i0 + 6 * q + m]
                == skirt_quad_indices(v0, q)[m]
        },
        indices_valid(old(mesh).vertices@, old(mesh).indices@) ==> indices_valid(final(mesh).vertices@, final(mesh).indices@),
{
    if skirt_depth == 0 {
        return 0;
    }
    let boundary: u8 = match edge {
        FaceDirection::PosX | FaceDirection::PosY | FaceDirection::PosZ => chunk_size as u8,
        FaceDirection::NegX | FaceDirection::NegY | FaceDirection::NegZ => 0,
    };
    let inward_offset: i8 = match edge {
        FaceDirection::PosX | FaceDirection::PosY | FaceDirection::PosZ => {
            proof {
                assert(skirt_depth != 128u8 ==> (skirt_depth as i8) != -128i8) by (bit_vector);
            }
            -(skirt_depth as i8)
        },
        FaceDirection::NegX | FaceDirection::NegY | FaceDirection::NegZ => skirt_depth as i8,
    };
    let raw = boundary as i16 + inward_offset as i16;
    let hi = chunk_size as i16;
    let lowered: i16 = if raw < 0 { 0 } else if raw > hi { hi } else { raw };
    let low = lowered as u8;
    let n = chunk_size as u8;
    let ghost v0 = old(mesh).vertices@.len() as int;
    let ghost i0 = old(mesh).indices@.len() as int;
    skirt_walk(mesh, edge, chunk_size, boundary, low, 0, n);
    let ghost mid_v = mesh.vertices@;
    let ghost mid_i = mesh.indices@;
    skirt_walk(mesh, edge, chunk_size, boundary, low, 1, n);
    proof {
        let nn = n as int;
        assert forall|j: int| 0 <= j < 4 * nn implies #[trigger] mesh.vertices@[v0 + j]
            == skirt_vertex_spec(edge, chunk_size, low, 0, j / 4, j % 4) by {
            assert(mesh.vertices@.subrange(0, v0 + 4 * nn)[v0 + j] == mid_v[v0 + j]);
        }
        assert forall|q: int, m: int| 0 <= q < 2 * nn && 0 <= m < 6 implies #[trigger] mesh.indices@[i0 + 6 * q + m]
            == skirt_quad_indices(v0, q)[m] by {
            if q < nn {
                assert(mesh.indices@.subrange(0, i0 + 6 * nn)[i0 + 6 * q + m] == mid_i[i0 + 6 * q + m]);
            } else {
                let q2 = q - nn;
                assert(mesh.indices@[(i0 + 6 * nn) + 6 * q2 + m] == skirt_quad_indices(v0 + 4 * nn, q2)[m]);
                assert(i0 + 6 * q + m == (i0 + 6 * nn) + 6 * q2 + m);
            }
        }
        assert(mesh.vertices@.subrange(0, v0) =~= mesh.vertices@.subrange(0, v0 + 4 * nn).subrange(0, v0));
        assert(mesh.indices@.subrange(0, i0) =~= mesh.indices@.subrange(0, i0 + 6 * nn).subrange(0, i0));
        if indices_valid(old(mesh).vertices@, old(mesh).indices@) {
            assert forall|x: int| 0 <= x < mesh.indices@.len() implies mesh.indices@[x] < mesh.vertices@.len() by {
                if x < i0 {
                    assert(mesh.indices@.subrange(0, i0)[x] == old(mesh).indices@[x]);
                } else {
                    let q = (x - i0) / 6;
                    let m = (x - i0) % 6;
                    assert(x == i0 + 6 * q + m);
                }
            }
        }
    }
    4 * (n as usize)
}

/// The vertices [`generate_skirt`] appends for face `edge`: the quads of
/// the walk along u, then those of the walk along v.
pub open spec fn skirt_vertices(edge: FaceDirection, chunk_size: usize, depth: u8) -> Seq<ChunkVertex> {
    let n = chunk_size as u8 as int;
    let low = lowered_boundary_spec(edge, depth, chunk_size) as u8;
    Seq::new(
        (8 * n) as nat,
        |j: int|
            if j < 4 * n {
                skirt_vertex_spec(edge, chunk_size, low, 0, j / 4, j % 4)
            } else {
                skirt_vertex_spec(edge, chunk_size, low, 1, (j - 4 * n) / 4, (j - 4 * n) % 4)
            },
    )
}

/// The indices [`generate_skirt`] appends for `2n` quads whose vertices
/// start at `v0`.
pub open spec fn skirt_indices(v0: int, n: int) -> Seq<u32> {
    Seq::new((12 * n) as nat, |x: int| skirt_quad_indices(v0, x / 6)[x % 6])
}

/// The mesh (vertices and indices) after fixing the seams of the first `k`
/// faces, in face-index order: a face whose neighbor is coarser has its
/// boundary vertices snapped to the `2^difference` grid, then a face with
/// any LOD difference gets a skirt (when the depth is not zero).
pub open spec fn seam_fixed(
    vs: Seq<ChunkVertex>,
    is: Seq<u32>,
    ns: Seq<NeighborLodRelation>,
    chunk_size: usize,
    depth: u8,
    k: nat,
) -> (Seq<ChunkVertex>, Seq<u32>)
    decreases k,
{
    if k == 0 {
        (vs, is)
    } else {
        let (v1, i1) = seam_fixed(vs, is, ns, chunk_size, depth, (k - 1) as nat);
        let d = crate::mesh::face_direction::face_from_index((k - 1) as nat);
        let v2 = match ns[k - 1] {
            NeighborLodRelation::HigherThanNeighbor { lod_diff } => if lod_diff > 0 {
                snapped_vertices(v1, d, pow2(lod_diff as nat), chunk_size)
            } else {
                v1
            },
            _ => v1,
        };
        if ns[k - 1] != NeighborLodRelation::Same && depth > 0 {
            (v2 + skirt_vertices(d, chunk_size, depth), i1 + skirt_indices(v2.len() as int, chunk_size as u8 as int))
        } else {
            (v2, i1)
        }
    }
}

/// Apply full LOD transition seam elimination to a mesh: for each face
/// with a coarser neighbor constrain its edge vertices, and for each face
/// with any LOD difference add a skirt. Returns the total number of skirt
/// triangles added.
pub fn apply_seam_fix(
    mesh: &mut PackedChunkMesh,
    context: &ChunkLodContext,
    chunk_size: usize,
    skirt_depth: u8,
) -> (r: usize)
    requires
        forall|i: int| 0 <= i < 6 ==> match #[trigger] context.neighbors@[i] {
            NeighborLodRelation::HigherThanNeighbor { lod_diff } => lod_diff < 64,
            _ => true,
        },
        skirt_depth > 0 ==> forall|i: int| 0 <= i < 6 ==> (#[trigger] context.neighbors@[i] != NeighborLodRelation::Same ==> {
            &&& !(is_positive(crate::mesh::face_direction::face_from_index(i as nat)) && skirt_depth == 128)
            &&& chunk_size as u8 <= 32
            &&& (chunk_size as i16) >= 0
            &&& lowered_boundary_spec(crate::mesh::face_direction::face_from_index(i as nat), skirt_depth, chunk_size) <= 32
        }),
        old(mesh).vertices@.len() + 6 * 8 * 32 <= u32::MAX,
    ensures
        r == (if skirt_depth == 0 { 0 } else { 4 * (chunk_size as u8 as int) * differing_faces(context.neighbors@, 6) }),
        final(mesh).vertices@.len() == old(mesh).vertices@.len() + (if skirt_depth == 0 { 0 } else {
            8 * (chunk_size as u8 as int) * differing_faces(context.neighbors@, 6)
        }),
        indices_valid(old(mesh).vertices@, old(mesh).indices@) ==> indices_valid(final(mesh).vertices@, final(mesh).indices@),
        (final(mesh).vertices@, final(mesh).indices@) == seam_fixed(
            old(mesh).vertices@,
            old(mesh).indices@,
            context.neighbors@,
            chunk_size,
            skirt_depth,
            6,
        ),
{
    let mut total: usize = 0;
    let mut k: usize = 0;
    let ghost nn = chunk_size as u8 as int;
    while k < 6
        invariant
            k <= 6,
            nn == chunk_size as u8 as int,
            forall|i: int| 0 <= i < 6 ==> match #[trigger] context.neighbors@[i] {
                NeighborLodRelation::HigherThanNeighbor { lod_diff } => lod_diff < 64,
                _ => true,
            },
            skirt_depth > 0 ==> forall|i: int| 0 <= i < 6 ==> (#[trigger] context.neighbors@[i] != NeighborLodRelation::Same ==> {
                &&& !(is_positive(crate::mesh::face_direction::face_from_index(i as nat)) && skirt_depth == 128)
                &&& chunk_size as u8 <= 32
                &&& (chunk_size as i16) >= 0
                &&& lowered_boundary_spec(crate::mesh::face_direction::face_from_index(i as nat), skirt_depth, chunk_size) <= 32
            }),
            total == (if skirt_depth == 0 { 0 } else { 4 * nn * differing_faces(context.neighbors@, k as int) }),
            mesh.vertices@.len() == old(mesh).vertices@.len() + (if skirt_depth == 0 { 0 } else {
                8 * nn * differing_faces(context.neighbors@, k as int)
            }),
            differing_faces(context.neighbors@, k as int) <= k,
            0 <= nn <= 255,
            old(mesh).vertices@.len() + 6 * 8 * 32 <= u32::MAX,
            indices_valid(old(mesh).vertices@, old(mesh).indices@) ==> indices_valid(mesh.vertices@, mesh.indices@),
            (mesh.vertices@, mesh.indices@) == seam_fixed(
                old(mesh).vertices@,
                old(mesh).indices@,
                context.neighbors@,
                chunk_size,
                skirt_depth,
                k as nat,
            ),
        decreases 6 - k,
    {
        let dir = FaceDirection::ALL[k];
        assert(face_index(dir) == k);
        assert(crate::mesh::face_direction::face_from_index(k as nat) == dir);
        if let Some(lod_diff) = context.needs_constraining(dir) {
            constrain_edge_vertices(mesh, dir, lod_diff, chunk_size);
        }
        if context.has_lod_difference(dir) {
            proof {
                if skirt_depth > 0 {
                    assert(nn <= 32);
                    assert(8 * nn * differing_faces(context.neighbors@, k as int) <= 8 * 32 * 5) by (nonlinear_arith)
                        requires nn <= 32, differing_faces(context.neighbors@, k as int) <= k, k < 6, nn >= 0;
                }
            }
            let ghost pv = mesh.vertices@;
            let ghost pi = mesh.indices@;
            let added = generate_skirt(mesh, dir, skirt_depth, chunk_size);
            proof {
                if skirt_depth > 0 {
                    let n = chunk_size as u8 as int;
                    let v0 = pv.len() as int;
                    let i0 = pi.len() as int;
                    assert(mesh.vertices@ =~= pv + skirt_vertices(dir, chunk_size, skirt_depth)) by {
                        assert forall|j: int| 0 <= j < mesh.vertices@.len() implies mesh.vertices@[j]
                            == (pv + skirt_vertices(dir, chunk_size, skirt_depth))[j] by {
                            if j < v0 {
                                assert(mesh.vertices@.subrange(0, v0)[j] == pv[j]);
                            } else if j < v0 + 4 * n {
                                assert(mesh.vertices@[v0 + (j - v0)] == skirt_vertex_spec(
                                    dir,
                                    chunk_size,
                                    lowered_boundary_spec(dir, skirt_depth, chunk_size) as u8,
                                    0,
                                    (j - v0) / 4,
                                    (j - v0) % 4,
                                ));
                            } else {
                                let jj = j - v0 - 4 * n;
                                assert(mesh.vertices@[v0 + 4 * n + jj] == skirt_vertex_spec(
                                    dir,
                                    chunk_size,
                                    lowered_boundary_spec(dir, skirt_depth, chunk_size) as u8,
                                    1,
                                    jj / 4,
                                    jj % 4,
                                ));
                            }
                        }
                    }
                    assert(mesh.indices@ =~= pi + skirt_indices(v0, n)) by {
                        assert forall|x: int| 0 <= x < mesh.indices@.len() implies mesh.indices@[x] == (pi + skirt_indices(
                            v0,
                            n,
                        ))[x] by {
                            if x < i0 {
                                assert(mesh.indices@.subrange(0, i0)[x] == pi[x]);
                            } else {
                                let y = x - i0;
                                let q = y / 6;
                                let m = y % 6;
                                assert(y == 6 * q + m);
                                assert(mesh.indices@[i0 + 6 * q + m] == skirt_quad_indices(v0, q)[m]);
                            }
                        }
                    }
                    assert(4 * nn * (differing_faces(context.neighbors@, k as int) + 1)
                        == 4 * nn * differing_faces(context.neighbors@, k as int) + 4 * nn) by (nonlinear_arith);
                    assert(8 * nn * (differing_faces(context.neighbors@, k as int) + 1)
                        == 8 * nn * differing_faces(context.neighbors@, k as int) + 8 * nn) by (nonlinear_arith);
                    assert(4 * nn * differing_faces(context.neighbors@, k as int) <= 4 * 255 * 6) by (nonlinear_arith)
                        requires nn <= 255, differing_faces(context.neighbors@, k as int) <= 6, nn >= 0;
                }
            }
            total = total + added;
        }
        k = k + 1;
    }
    total
}

/// Number of faces among the first `k` whose relation is not `Same`.
pub open spec fn differing_faces(ns: Seq<NeighborLodRelation>, k: int) -> int
    decreases k,
{
    if k <= 0 {
        0
    } else {
        differing_faces(ns, k - 1) + if ns[k - 1] != NeighborLodRelation::Same { 1int } else { 0int }
    }
}

} // verus!
