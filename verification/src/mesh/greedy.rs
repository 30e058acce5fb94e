//! Greedy meshing: merges coplanar, same-type adjacent faces into larger
//! rectangular quads to reduce triangle count.
//!
//! Each layer of each face direction is scanned in `(v, u)` order; an
//! unmerged visible face starts a quad that grows along `u` and then along
//! `v` while the faces it would take in are visible, unmerged and of the
//! same voxel type and ambient occlusion.

use vstd::prelude::*;
use crate::mesh::face_direction::{FaceDirection, face_index, face_from_index, sweep_axes_spec, is_positive, lemma_face_index_roundtrip};
use crate::mesh::chunk_mesh::{ChunkMesh, MeshVertex, QuadInfo, quad_vertex_spec, quad_winding};
use crate::mesh::ambient_occlusion::{compute_face_ao, face_ao_spec, should_flip_spec};
use crate::mesh::neighborhood::{ChunkNeighborhood, NeighborhoodView};
use crate::mesh::visible_faces::{VisibleFaces, bit_set};
use crate::voxel::types::VoxelTypeId;
use crate::voxel::chunk::{ChunkData, CHUNK_SIZE, voxel_index, in_chunk};
use crate::voxel::registry::{VoxelTypeRegistry, TypeTraits};

verus! {

/// A merged quad: the `w × h` faces from `(u, v)` of layer `layer` of face
/// direction `direction`, all of type `voxel_type` and with AO values `ao`.
pub struct QuadRect {
    /// Face direction of the quad.
    pub direction: FaceDirection,
    /// Layer along the direction's axis.
    pub layer: int,
    /// First face along u.
    pub u: int,
    /// First face along v.
    pub v: int,
    /// Faces along u.
    pub w: int,
    /// Faces along v.
    pub h: int,
    /// Voxel type of every merged face.
    pub voxel_type: VoxelTypeId,
    /// Per-vertex ambient occlusion of every merged face.
    pub ao: Seq<u8>,
}

/// Index of face `(a, b)` in a layer of side `size`.
pub open spec fn cell(size: int, a: int, b: int) -> int {
    b * size + a
}

/// Whether face `(a, b)` lies in quad `r`.
pub open spec fn in_rect(r: QuadRect, a: int, b: int) -> bool {
    r.u <= a < r.u + r.w && r.v <= b < r.v + r.h
}

/// Whether quad `r` is non-empty and fits a grid of side `size`.
pub open spec fn rect_in_bounds(r: QuadRect, size: int) -> bool {
    &&& 1 <= r.w
    &&& 1 <= r.h
    &&& 0 <= r.u
    &&& r.u + r.w <= size
    &&& 0 <= r.v
    &&& r.v + r.h <= size
    &&& 0 <= r.layer < size
    &&& r.ao.len() == 4
}

/// Whether every face of quad `r` is visible, of the quad's type and of the
/// quad's AO, in a layer described by `vis`, `types` and `aos`.
pub open spec fn rect_uniform(r: QuadRect, size: int, vis: Seq<bool>, types: Seq<VoxelTypeId>, aos: Seq<[u8; 4]>) -> bool {
    forall|a: int, b: int|
        #![trigger in_rect(r, a, b)]
        in_rect(r, a, b) ==> {
            &&& vis[cell(size, a, b)]
            &&& types[cell(size, a, b)] == r.voxel_type
            &&& aos[cell(size, a, b)]@ == r.ao
        }
}

/// Whether face `(a, b)` lies in one of `rects`.
pub open spec fn covered(rects: Seq<QuadRect>, a: int, b: int) -> bool {
    exists|j: int| 0 <= j < rects.len() && #[trigger] in_rect(rects[j], a, b)
}

/// Whether no face lies in two of `rects`.
pub open spec fn pairwise_disjoint(rects: Seq<QuadRect>) -> bool {
    forall|j: int, k: int, a: int, b: int|
        #![trigger in_rect(rects[j], a, b), in_rect(rects[k], a, b)]
        0 <= j < k < rects.len() ==> !(in_rect(rects[j], a, b) && in_rect(rects[k], a, b))
}

/// Whether `m1` is a mesh with vertices `vs0`, indices `is0` and quad
/// records `qs0` followed by the quads `rects`, in order: four vertices,
/// six indices and one quad record each.
pub open spec fn mesh_extends(
    vs0: Seq<MeshVertex>,
    is0: Seq<u32>,
    qs0: Seq<QuadInfo>,
    m1: ChunkMesh,
    rects: Seq<QuadRect>,
) -> bool {
    let v0 = vs0.len() as int;
    let i0 = is0.len() as int;
    &&& m1.vertices@.len() == v0 + 4 * rects.len()
    &&& m1.vertices@.subrange(0, v0) == vs0
    &&& forall|j: int, k: int|
        #![trigger m1.vertices@[v0 + 4 * j + k], rects[j]]
        0 <= j < rects.len() && 0 <= k < 4 ==> m1.vertices@[v0 + 4 * j + k] == quad_vertex_spec(
            rects[j].direction,
            rects[j].layer as usize,
            rects[j].u as usize,
            rects[j].v as usize,
            rects[j].w as usize,
            rects[j].h as usize,
            rects[j].voxel_type,
            rects[j].ao,
            k,
        )
    &&& m1.indices@.len() == i0 + 6 * rects.len()
    &&& m1.indices@.subrange(0, i0) == is0
    &&& forall|j: int, m: int|
        #![trigger m1.indices@[i0 + 6 * j + m], rects[j]]
        0 <= j < rects.len() && 0 <= m < 6 ==> m1.indices@[i0 + 6 * j + m] == quad_winding(
            v0 + 4 * j,
            is_positive(rects[j].direction),
            should_flip_spec(rects[j].ao),
        )[m]
    &&& m1.quads@ == qs0 + rects.map_values(|r: QuadRect| QuadInfo { direction: r.direction })
}

/// Cells of a layer of side `size` have distinct indices below `size²`.
proof fn lemma_cell(size: int, a: int, b: int)
    requires
        0 <= a < size,
        0 <= b < size,
        size <= 32,
    ensures
        0 <= cell(size, a, b) < size * size,
        size * size <= 1024,
        cell(size, a, b) + 1 <= size * size,
        forall|a2: int, b2: int|
            #![trigger cell(size, a2, b2)]
            0 <= a2 < size && 0 <= b2 < size && cell(size, a2, b2) == cell(size, a, b) ==> a2 == a && b2 == b,
{
    assert(0 <= cell(size, a, b) < size * size && size * size <= 1024) by (nonlinear_arith)
        requires 0 <= a < size, 0 <= b < size, size <= 32;
    assert forall|a2: int, b2: int|
        #![trigger cell(size, a2, b2)]
        0 <= a2 < size && 0 <= b2 < size && cell(size, a2, b2) == cell(size, a, b) implies a2 == a && b2 == b by {
        assert(a2 == a && b2 == b) by (nonlinear_arith)
            requires 0 <= a < size, 0 <= b < size, 0 <= a2 < size, 0 <= b2 < size, b2 * size + a2 == b * size + a;
    }
}

/// Whether face `idx` is free to merge into a quad of type `t` and AO `ao`:
/// not yet merged, visible, of type `t` and of AO `ao`.
pub open spec fn free_cell(visited: Seq<bool>, vis: Seq<bool>, types: Seq<VoxelTypeId>, aos: Seq<[u8; 4]>, idx: int, t: VoxelTypeId, ao: Seq<u8>) -> bool {
    !visited[idx] && vis[idx] && types[idx] == t && aos[idx]@ == ao
}

/// Whether two AO arrays are equal.
fn ao_eq(a: [u8; 4], b: [u8; 4]) -> (r: bool)
    ensures
        r == (a@ == b@),
{
    let r = a[0] == b[0] && a[1] == b[1] && a[2] == b[2] && a[3] == b[3];
    proof {
        if r {
            assert(a@ =~= b@);
        }
    }
    r
}

/// Whether face `idx` is free to merge (see [`free_cell`]).
fn is_free(visited: &Vec<bool>, vis: &Vec<bool>, types: &Vec<VoxelTypeId>, aos: &Vec<[u8; 4]>, idx: usize, t: VoxelTypeId, ao: [u8; 4]) -> (r: bool)
    requires
        idx < visited@.len(),
        visited@.len() == vis@.len(),
        visited@.len() == types@.len(),
        visited@.len() == aos@.len(),
    ensures
        r == free_cell(visited@, vis@, types@, aos@, idx as int, t, ao@),
{
    !visited[idx] && vis[idx] && types[idx] == t && ao_eq(aos[idx], ao)
}

/// Whether faces `u..u+w` of row `row` are all free to merge.
fn row_free(
    visited: &Vec<bool>,
    vis: &Vec<bool>,
    types: &Vec<VoxelTypeId>,
    aos: &Vec<[u8; 4]>,
    size: usize,
    u: usize,
    w: usize,
    row: usize,
    t: VoxelTypeId,
    ao: [u8; 4],
) -> (r: bool)
    requires
        size <= 32,
        u + w <= size,
        row < size,
        visited@.len() == size * size,
        vis@.len() == size * size,
        types@.len() == size * size,
        aos@.len() == size * size,
    ensures
        r == forall|i: int| 0 <= i < w ==> #[trigger] free_cell(visited@, vis@, types@, aos@, cell(size as int, u + i, row as int), t, ao@),
{
    let mut du: usize = 0;
    while du < w
        invariant
            size <= 32,
            u + w <= size,
            row < size,
            du <= w,
            visited@.len() == size * size,
            vis@.len() == size * size,
            types@.len() == size * size,
            aos@.len() == size * size,
            forall|i: int| 0 <= i < du ==> #[trigger] free_cell(visited@, vis@, types@, aos@, cell(size as int, u + i, row as int), t, ao@),
        decreases w - du,
    {
        proof {
            lemma_cell(size as int, (u + du) as int, row as int);
        }
        if !is_free(visited, vis, types, aos, row * size + u + du, t, ao) {
            return false;
        }
        du = du + 1;
    }
    true
}

/// Appending one more quad keeps a mesh an extension by the quads so far.
proof fn lemma_mesh_extends_push(m0: ChunkMesh, m1: ChunkMesh, m2: ChunkMesh, rects: Seq<QuadRect>, r: QuadRect)
    requires
        mesh_extends(m0.vertices@, m0.indices@, m0.quads@, m1, rects),
        m2.vertices@.len() == m1.vertices@.len() + 4,
        m2.vertices@.subrange(0, m1.vertices@.len() as int) == m1.vertices@,
        forall|k: int| 0 <= k < 4 ==> #[trigger] m2.vertices@[m1.vertices@.len() + k] == quad_vertex_spec(
            r.direction,
            r.layer as usize,
            r.u as usize,
            r.v as usize,
            r.w as usize,
            r.h as usize,
            r.voxel_type,
            r.ao,
            k,
        ),
        m2.indices@ == m1.indices@ + quad_winding(m1.vertices@.len() as int, is_positive(r.direction), should_flip_spec(r.ao)),
        m2.quads@ == m1.quads@.push(QuadInfo { direction: r.direction }),
    ensures
        mesh_extends(m0.vertices@, m0.indices@, m0.quads@, m2, rects.push(r)),
{
    let v0 = m0.vertices@.len() as int;
    let i0 = m0.indices@.len() as int;
    let n = rects.len() as int;
    let rs = rects.push(r);
    assert(m2.vertices@.subrange(0, v0) =~= m0.vertices@) by {
        assert(m2.vertices@.subrange(0, v0) =~= m2.vertices@.subrange(0, m1.vertices@.len() as int).subrange(0, v0));
    }
    assert forall|j: int, k: int|
        #![trigger m2.vertices@[v0 + 4 * j + k], rs[j]]
        0 <= j < rs.len() && 0 <= k < 4 implies m2.vertices@[v0 + 4 * j + k] == quad_vertex_spec(
            rs[j].direction,
            rs[j].layer as usize,
            rs[j].u as usize,
            rs[j].v as usize,
            rs[j].w as usize,
            rs[j].h as usize,
            rs[j].voxel_type,
            rs[j].ao,
            k,
        ) by {
        if j < n {
            assert(rs[j] == rects[j]);
            assert(m2.vertices@.subrange(0, m1.vertices@.len() as int)[v0 + 4 * j + k] == m1.vertices@[v0 + 4 * j + k]);
            assert(m1.vertices@[v0 + 4 * j + k] == quad_vertex_spec(
                rects[j].direction,
                rects[j].layer as usize,
                rects[j].u as usize,
                rects[j].v as usize,
                rects[j].w as usize,
                rects[j].h as usize,
                rects[j].voxel_type,
                rects[j].ao,
                k,
            ));
        } else {
            assert(j == n);
            assert(m2.vertices@[m1.vertices@.len() + k] == m2.vertices@[v0 + 4 * j + k]);
        }
    }
    assert(m2.indices@.subrange(0, i0) =~= m0.indices@) by {
        assert(m2.indices@.subrange(0, i0) =~= m1.indices@.subrange(0, i0));
    }
    assert forall|j: int, m: int|
        #![trigger m2.indices@[i0 + 6 * j + m], rs[j]]
        0 <= j < rs.len() && 0 <= m < 6 implies m2.indices@[i0 + 6 * j + m] == quad_winding(
            v0 + 4 * j,
            is_positive(rs[j].direction),
            should_flip_spec(rs[j].ao),
        )[m] by {
        if j < n {
            assert(rs[j] == rects[j]);
            assert(m2.indices@[i0 + 6 * j + m] == m1.indices@[i0 + 6 * j + m]);
            assert(m1.indices@[i0 + 6 * j + m] == quad_winding(
                v0 + 4 * j,
                is_positive(rects[j].direction),
                should_flip_spec(rects[j].ao),
            )[m]);
        } else {
            assert(j == n);
            assert(m2.indices@[i0 + 6 * j + m] == quad_winding(
                m1.vertices@.len() as int,
                is_positive(r.direction),
                should_flip_spec(r.ao),
            )[m]);
        }
    }
    assert(m2.quads@ =~= m0.quads@ + rs.map_values(|q: QuadRect| QuadInfo { direction: q.direction })) by {
        assert(rs.map_values(|q: QuadRect| QuadInfo { direction: q.direction })
            =~= rects.map_values(|q: QuadRect| QuadInfo { direction: q.direction }).push(QuadInfo { direction: r.direction }));
    }
}

/// The facts that the quads `rects` merged so far in one layer keep.
pub open spec fn layer_quads_ok(
    rects: Seq<QuadRect>,
    direction: FaceDirection,
    layer: int,
    size: int,
    vis: Seq<bool>,
    types: Seq<VoxelTypeId>,
    aos: Seq<[u8; 4]>,
) -> bool {
    &&& forall|j: int|
        0 <= j < rects.len() ==> {
            &&& (#[trigger] rects[j]).direction == direction
            &&& rects[j].layer == layer
            &&& rect_in_bounds(rects[j], size)
            &&& rect_uniform(rects[j], size, vis, types, aos)
        }
    &&& pairwise_disjoint(rects)
}

/// Whether face `(a, b)` of a layer is free to take into a quad of type `t`
/// and AO `ao` once the quads `prev` are made: visible, in none of `prev`,
/// of type `t` and of AO `ao`.
pub open spec fn layer_free(
    prev: Seq<QuadRect>,
    size: int,
    vis: Seq<bool>,
    types: Seq<VoxelTypeId>,
    aos: Seq<[u8; 4]>,
    a: int,
    b: int,
    t: VoxelTypeId,
    ao: Seq<u8>,
) -> bool {
    vis[cell(size, a, b)] && !covered(prev, a, b) && types[cell(size, a, b)] == t && aos[cell(size, a, b)]@ == ao
}

/// Whether quad `r` is the one the greedy scan makes after the quads
/// `prev` of the same layer: it starts at the first visible face, in
/// `(v, u)` order, that none of `prev` holds; it grows along `u` as far as
/// the next face is free ([`layer_free`]) and then along `v` as far as the
/// whole next row is free.
pub open spec fn greedy_step(
    prev: Seq<QuadRect>,
    r: QuadRect,
    size: int,
    vis: Seq<bool>,
    types: Seq<VoxelTypeId>,
    aos: Seq<[u8; 4]>,
) -> bool {
    &&& vis[cell(size, r.u, r.v)]
    &&& !covered(prev, r.u, r.v)
    &&& forall|a: int, b: int|
        0 <= a < size && 0 <= b < size && (b < r.v || (b == r.v && a < r.u)) && #[trigger] vis[cell(size, a, b)]
            ==> covered(prev, a, b)
    &&& r.u + r.w == size || !layer_free(prev, size, vis, types, aos, r.u + r.w, r.v, r.voxel_type, r.ao)
    &&& r.v + r.h == size || exists|i: int|
        0 <= i < r.w && !#[trigger] layer_free(prev, size, vis, types, aos, r.u + i, r.v + r.h, r.voxel_type, r.ao)
}

/// Whether every quad of `rects` is the greedy scan's next quad after the
/// ones before it.
pub open spec fn greedy_scan(
    rects: Seq<QuadRect>,
    size: int,
    vis: Seq<bool>,
    types: Seq<VoxelTypeId>,
    aos: Seq<[u8; 4]>,
) -> bool {
    forall|j: int| 0 <= j < rects.len() ==> greedy_step(rects.take(j), #[trigger] rects[j], size, vis, types, aos)
}

/// Merges the visible faces of one layer into quads, scanning in `(v, u)`
/// order, and appends them to the mesh.
pub(crate) fn merge_layer(
    mesh: &mut ChunkMesh,
    direction: FaceDirection,
    layer: usize,
    size: usize,
    vis: &Vec<bool>,
    types: &Vec<VoxelTypeId>,
    aos: &Vec<[u8; 4]>,
) -> (rects: Ghost<Seq<QuadRect>>)
    requires
        1 <= size <= 32,
        layer < size,
        vis@.len() == size * size,
        types@.len() == size * size,
        aos@.len() == size * size,
        forall|c: int, k: int| 0 <= c < size * size && 0 <= k < 4 ==> #[trigger] aos@[c]@[k] <= 3,
        old(mesh).vertices@.len() + 4 * 1024 + 3 <= u32::MAX,
    ensures
        rects@.len() <= size * size,
        layer_quads_ok(rects@, direction, layer as int, size as int, vis@, types@, aos@),
        greedy_scan(rects@, size as int, vis@, types@, aos@),
        forall|a: int, b: int|
            0 <= a < size && 0 <= b < size && #[trigger] vis@[cell(size as int, a, b)] ==> covered(rects@, a, b),
        mesh_extends(old(mesh).vertices@, old(mesh).indices@, old(mesh).quads@, *final(mesh), rects@),
{
    proof {
        lemma_cell(size as int, 0, 0);
    }
    let n = size * size;
    let mut visited: Vec<bool> = Vec::new();
    let mut c: usize = 0;
    while c < n
        invariant
            n == size * size,
            n <= 1024,
            c <= n,
            visited@.len() == c,
            forall|i: int| 0 <= i < c ==> !(#[trigger] visited@[i]),
        decreases n - c,
    {
        visited.push(false);
        c = c + 1;
    }
    let ghost m0 = *mesh;
    let ghost mut rects: Seq<QuadRect> = Seq::empty();
    let ghost sz = size as int;
    proof {
        assert forall|a: int, b: int| 0 <= a < sz && 0 <= b < sz implies #[trigger] visited@[cell(sz, a, b)] == covered(
            rects,
            a,
            b,
        ) by {
            lemma_cell(sz, a, b);
        }
        assert(mesh.vertices@.subrange(0, mesh.vertices@.len() as int) =~= mesh.vertices@);
        assert(mesh.indices@.subrange(0, mesh.indices@.len() as int) =~= mesh.indices@);
        assert(mesh.quads@ =~= mesh.quads@ + rects.map_values(|r: QuadRect| QuadInfo { direction: r.direction }));
    }
    let mut v: usize = 0;
    while v < size
        invariant
            1 <= size <= 32,
            sz == size,
            layer < size,
            n == size * size,
            n <= 1024,
            v <= size,
            vis@.len() == n,
            types@.len() == n,
            aos@.len() == n,
            visited@.len() == n,
            forall|c: int, k: int| 0 <= c < n && 0 <= k < 4 ==> #[trigger] aos@[c]@[k] <= 3,
            m0.vertices@.len() + 4 * 1024 + 3 <= u32::MAX,
            rects.len() <= v * sz,
            layer_quads_ok(rects, direction, layer as int, sz, vis@, types@, aos@),
            greedy_scan(rects, sz, vis@, types@, aos@),
            forall|a: int, b: int|
                0 <= a < sz && 0 <= b < sz ==> #[trigger] visited@[cell(sz, a, b)] == covered(rects, a, b),
            forall|a: int, b: int|
                0 <= a < sz && 0 <= b < v && #[trigger] vis@[cell(sz, a, b)] ==> covered(rects, a, b),
            mesh_extends(m0.vertices@, m0.indices@, m0.quads@, *mesh, rects),
        decreases size - v,
    {
        let mut u: usize = 0;
        while u < size
            invariant
                1 <= size <= 32,
                sz == size,
                layer < size,
                n == size * size,
                n <= 1024,
                v < size,
                u <= size,
                vis@.len() == n,
                types@.len() == n,
                aos@.len() == n,
                visited@.len() == n,
                forall|c: int, k: int| 0 <= c < n && 0 <= k < 4 ==> #[trigger] aos@[c]@[k] <= 3,
                m0.vertices@.len() + 4 * 1024 + 3 <= u32::MAX,
                rects.len() <= v * sz + u,
                layer_quads_ok(rects, direction, layer as int, sz, vis@, types@, aos@),
                greedy_scan(rects, sz, vis@, types@, aos@),
                forall|a: int, b: int|
                    0 <= a < sz && 0 <= b < sz ==> #[trigger] visited@[cell(sz, a, b)] == covered(rects, a, b),
                forall|a: int, b: int|
                    0 <= a < sz && 0 <= b < sz && (b < v || (b == v && a < u)) && #[trigger] vis@[cell(sz, a, b)]
                        ==> covered(rects, a, b),
                mesh_extends(m0.vertices@, m0.indices@, m0.quads@, *mesh, rects),
            decreases size - u,
        {
            proof {
                lemma_cell(sz, u as int, v as int);
                assert(v * sz + u < n && v * sz + sz <= n) by (nonlinear_arith)
                    requires u < sz, v < sz, n == sz * sz;
                assert(rects.len() + 1 <= 1024) by (nonlinear_arith)
                    requires rects.len() <= v * sz + u, u < sz, v < sz, sz <= 32;
            }
            let idx = v * size + u;
            if visited[idx] || !vis[idx] {
                u = u + 1;
                continue;
            }
            let t = types[idx];
            let base_ao = aos[idx];
            let ghost wvisited = visited@;
            // Extend width along u.
            let mut w: usize = 1;
            while u + w < size && is_free(&visited, vis, types, aos, v * size + u + w, t, base_ao)
                invariant
                    1 <= size <= 32,
                    sz == size,
                    n == size * size,
                    u < size,
                    v < size,
                    v * sz + sz <= n,
                    1 <= w,
                    u + w <= size,
                    vis@.len() == n,
                    types@.len() == n,
                    aos@.len() == n,
                    visited@.len() == n,
                    forall|i: int| 0 <= i < w ==> #[trigger] free_cell(visited@, vis@, types@, aos@, cell(sz, u + i, v as int), t, base_ao@),
                decreases size - u - w,
            {
                proof {
                    lemma_cell(sz, (u + w) as int, v as int);
                }
                w = w + 1;
            }
            proof {
                if u + w < size {
                    lemma_cell(sz, (u + w) as int, v as int);
                }
            }
            assert(u + w == size || !free_cell(wvisited, vis@, types@, aos@, cell(sz, (u + w) as int, v as int), t, base_ao@));
            // Extend height along v.
            let mut h: usize = 1;
            while v + h < size && row_free(&visited, vis, types, aos, size, u, w, v + h, t, base_ao)
                invariant
                    1 <= size <= 32,
                    sz == size,
                    n == size * size,
                    u + w <= size,
                    v < size,
                    1 <= w,
                    1 <= h,
                    v + h <= size,
                    vis@.len() == n,
                    types@.len() == n,
                    aos@.len() == n,
                    visited@.len() == n,
                    forall|i: int, j: int|
                        0 <= i < w && 0 <= j < h ==> #[trigger] free_cell(visited@, vis@, types@, aos@, cell(sz, u + i, v + j), t, base_ao@),
                decreases size - v - h,
            {
                h = h + 1;
            }
            assert(v + h == size || exists|i: int|
                0 <= i < w && !#[trigger] free_cell(wvisited, vis@, types@, aos@, cell(sz, u + i, (v + h) as int), t, base_ao@));
            let ghost r = QuadRect {
                direction,
                layer: layer as int,
                u: u as int,
                v: v as int,
                w: w as int,
                h: h as int,
                voxel_type: t,
                ao: base_ao@,
            };
            proof {
                assert forall|a: int, b: int| #![trigger in_rect(r, a, b)] in_rect(r, a, b) implies {
                    &&& vis@[cell(sz, a, b)]
                    &&& types@[cell(sz, a, b)] == r.voxel_type
                    &&& aos@[cell(sz, a, b)]@ == r.ao
                    &&& !covered(rects, a, b)
                } by {
                    assert(free_cell(visited@, vis@, types@, aos@, cell(sz, u + (a - u), v + (b - v)), t, base_ao@));
                    lemma_cell(sz, a, b);
                }
            }
            // Mark the merged faces.
            let ghost before = visited@;
            let mut dv: usize = 0;
            while dv < h
                invariant
                    1 <= size <= 32,
                    sz == size,
                    n == size * size,
                    u + w <= size,
                    v + h <= size,
                    dv <= h,
                    visited@.len() == n,
                    r.u == u && r.v == v && r.w == w && r.h == h,
                    forall|a: int, b: int|
                        0 <= a < sz && 0 <= b < sz ==> #[trigger] visited@[cell(sz, a, b)] == (before[cell(sz, a, b)] || (
                        in_rect(r, a, b) && b < v + dv)),
                decreases h - dv,
            {
                let mut du: usize = 0;
                while du < w
                    invariant
                        1 <= size <= 32,
                        sz == size,
                        n == size * size,
                        u + w <= size,
                        v + h <= size,
                        dv < h,
                        du <= w,
                        visited@.len() == n,
                        r.u == u && r.v == v && r.w == w && r.h == h,
                        forall|a: int, b: int|
                            0 <= a < sz && 0 <= b < sz ==> #[trigger] visited@[cell(sz, a, b)] == (before[cell(sz, a, b)] || (
                            in_rect(r, a, b) && (b < v + dv || (b == v + dv && a < u + du)))),
                    decreases w - du,
                {
                    proof {
                        lemma_cell(sz, (u + du) as int, (v + dv) as int);
                    }
                    let ghost prev = visited@;
                    visited[(v + dv) * size + u + du] = true;
                    proof {
                        assert forall|a: int, b: int| 0 <= a < sz && 0 <= b < sz implies #[trigger] visited@[cell(sz, a, b)] == (
                        before[cell(sz, a, b)] || (in_rect(r, a, b) && (b < v + dv || (b == v + dv && a < u + du + 1)))) by {
                            lemma_cell(sz, a, b);
                            assert(prev[cell(sz, a, b)] == (before[cell(sz, a, b)] || (in_rect(r, a, b) && (b < v + dv || (b
                                == v + dv && a < u + du)))));
                        }
                    }
                    du = du + 1;
                }
                dv = dv + 1;
            }
            let ghost m1 = *mesh;
            mesh.push_quad_ao(direction, layer, u, v, w, h, t, base_ao);
            proof {
                lemma_mesh_extends_push(m0, m1, *mesh, rects, r);
                let old_rects = rects;
                assert(greedy_step(old_rects, r, sz, vis@, types@, aos@)) by {
                    lemma_cell(sz, u as int, v as int);
                    assert(vis@[cell(sz, r.u, r.v)]);
                    assert(!covered(old_rects, r.u, r.v));
                    assert(forall|a: int, b: int|
                        0 <= a < sz && 0 <= b < sz && (b < r.v || (b == r.v && a < r.u)) && #[trigger] vis@[cell(sz, a, b)]
                            ==> covered(old_rects, a, b));
                    if u + w < size {
                        lemma_cell(sz, (u + w) as int, v as int);
                        assert(!free_cell(wvisited, vis@, types@, aos@, cell(sz, (u + w) as int, v as int), t, base_ao@));
                        assert(!layer_free(old_rects, sz, vis@, types@, aos@, u + w, v as int, t, base_ao@));
                    }
                    if v + h < size {
                        let i = choose|i: int| 0 <= i < w && !#[trigger] free_cell(wvisited, vis@, types@, aos@, cell(sz, u + i, (v + h) as int), t, base_ao@);
                        lemma_cell(sz, u + i, (v + h) as int);
                        assert(!layer_free(old_rects, sz, vis@, types@, aos@, u + i, v + h, t, base_ao@));
                        assert(r.u + i == u + i && r.v + r.h == v + h && r.voxel_type == t && r.ao == base_ao@);
                        assert(!layer_free(old_rects, sz, vis@, types@, aos@, r.u + i, r.v + r.h, r.voxel_type, r.ao));
                    }
                    assert(r.u + r.w == sz || !layer_free(old_rects, sz, vis@, types@, aos@, r.u + r.w, r.v, r.voxel_type, r.ao));
                }
                rects = rects.push(r);
                assert forall|j: int| 0 <= j < rects.len() implies greedy_step(rects.take(j), #[trigger] rects[j], sz, vis@, types@, aos@) by {
                    if j < old_rects.len() {
                        assert(rects.take(j) =~= old_rects.take(j));
                        assert(rects[j] == old_rects[j]);
                    } else {
                        assert(rects.take(j) =~= old_rects);
                    }
                }
                assert forall|j: int| 0 <= j < rects.len() implies {
                    &&& (#[trigger] rects[j]).direction == direction
                    &&& rects[j].layer == layer
                    &&& rect_in_bounds(rects[j], sz)
                    &&& rect_uniform(rects[j], sz, vis@, types@, aos@)
                } by {
                    if j < old_rects.len() {
                        assert(rects[j] == old_rects[j]);
                    }
                }
                assert forall|j: int, k: int, a: int, b: int|
                    #![trigger in_rect(rects[j], a, b), in_rect(rects[k], a, b)]
                    0 <= j < k < rects.len() implies !(in_rect(rects[j], a, b) && in_rect(rects[k], a, b)) by {
                    if k < old_rects.len() {
                        assert(rects[j] == old_rects[j] && rects[k] == old_rects[k]);
                    } else if in_rect(rects[j], a, b) && in_rect(rects[k], a, b) {
                        assert(rects[j] == old_rects[j]);
                        assert(rects[k] == r);
                        assert(covered(old_rects, a, b));
                    }
                }
                assert forall|a: int, b: int| 0 <= a < sz && 0 <= b < sz implies #[trigger] visited@[cell(sz, a, b)]
                    == covered(rects, a, b) by {
                    if covered(old_rects, a, b) {
                        let j = choose|j: int| 0 <= j < old_rects.len() && #[trigger] in_rect(old_rects[j], a, b);
                        assert(rects[j] == old_rects[j]);
                    }
                    if in_rect(r, a, b) {
                        assert(rects[old_rects.len() as int] == r);
                    }
                    if covered(rects, a, b) {
                        let j = choose|j: int| 0 <= j < rects.len() && #[trigger] in_rect(rects[j], a, b);
                        if j < old_rects.len() {
                            assert(rects[j] == old_rects[j]);
                        }
                    }
                }
                assert forall|a: int, b: int|
                    0 <= a < sz && 0 <= b < sz && (b < v || (b == v && a < u + 1)) && #[trigger] vis@[cell(sz, a, b)]
                        implies covered(rects, a, b) by {
                    if a == u && b == v {
                        assert(in_rect(r, a, b));
                        assert(rects[old_rects.len() as int] == r);
                    } else {
                        let j = choose|j: int| 0 <= j < old_rects.len() && #[trigger] in_rect(old_rects[j], a, b);
                        assert(rects[j] == old_rects[j]);
                    }
                }
            }
            u = u + 1;
        }
        assert(v * sz + sz == (v + 1) * sz) by (nonlinear_arith);
        v = v + 1;
    }
    Ghost(rects)
}

/// Extending by `r1` and then by `r2` extends by `r1 + r2`.
pub(crate) proof fn lemma_mesh_extends_concat(
    vs0: Seq<MeshVertex>,
    is0: Seq<u32>,
    qs0: Seq<QuadInfo>,
    m1: ChunkMesh,
    m2: ChunkMesh,
    r1: Seq<QuadRect>,
    r2: Seq<QuadRect>,
)
    requires
        mesh_extends(vs0, is0, qs0, m1, r1),
        mesh_extends(m1.vertices@, m1.indices@, m1.quads@, m2, r2),
    ensures
        mesh_extends(vs0, is0, qs0, m2, r1 + r2),
{
    let v0 = vs0.len() as int;
    let i0 = is0.len() as int;
    let v1 = m1.vertices@.len() as int;
    let i1 = m1.indices@.len() as int;
    let n1 = r1.len() as int;
    let rs = r1 + r2;
    assert(m2.vertices@.subrange(0, v0) =~= vs0) by {
        assert(m2.vertices@.subrange(0, v0) =~= m2.vertices@.subrange(0, v1).subrange(0, v0));
    }
    assert(m2.indices@.subrange(0, i0) =~= is0) by {
        assert(m2.indices@.subrange(0, i0) =~= m2.indices@.subrange(0, i1).subrange(0, i0));
    }
    assert forall|j: int, k: int|
        #![trigger m2.vertices@[v0 + 4 * j + k], rs[j]]
        0 <= j < rs.len() && 0 <= k < 4 implies m2.vertices@[v0 + 4 * j + k] == quad_vertex_spec(
            rs[j].direction,
            rs[j].layer as usize,
            rs[j].u as usize,
            rs[j].v as usize,
            rs[j].w as usize,
            rs[j].h as usize,
            rs[j].voxel_type,
            rs[j].ao,
            k,
        ) by {
        if j < n1 {
            assert(rs[j] == r1[j]);
            assert(m2.vertices@.subrange(0, v1)[v0 + 4 * j + k] == m1.vertices@[v0 + 4 * j + k]);
            assert(m1.vertices@[v0 + 4 * j + k] == quad_vertex_spec(
                r1[j].direction,
                r1[j].layer as usize,
                r1[j].u as usize,
                r1[j].v as usize,
                r1[j].w as usize,
                r1[j].h as usize,
                r1[j].voxel_type,
                r1[j].ao,
                k,
            ));
        } else {
            let j2 = j - n1;
            assert(rs[j] == r2[j2]);
            assert(v0 + 4 * j + k == v1 + 4 * j2 + k);
            assert(m2.vertices@[v1 + 4 * j2 + k] == quad_vertex_spec(
                r2[j2].direction,
                r2[j2].layer as usize,
                r2[j2].u as usize,
                r2[j2].v as usize,
                r2[j2].w as usize,
                r2[j2].h as usize,
                r2[j2].voxel_type,
                r2[j2].ao,
                k,
            ));
        }
    }
    assert forall|j: int, m: int|
        #![trigger m2.indices@[i0 + 6 * j + m], rs[j]]
        0 <= j < rs.len() && 0 <= m < 6 implies m2.indices@[i0 + 6 * j + m] == quad_winding(
            v0 + 4 * j,
            is_positive(rs[j].direction),
            should_flip_spec(rs[j].ao),
        )[m] by {
        if j < n1 {
            assert(rs[j] == r1[j]);
            assert(m2.indices@.subrange(0, i1)[i0 + 6 * j + m] == m1.indices@[i0 + 6 * j + m]);
            assert(m1.indices@[i0 + 6 * j + m] == quad_winding(
                v0 + 4 * j,
                is_positive(r1[j].direction),
                should_flip_spec(r1[j].ao),
            )[m]);
        } else {
            let j2 = j - n1;
            assert(rs[j] == r2[j2]);
            assert(i0 + 6 * j + m == i1 + 6 * j2 + m);
            assert(v0 + 4 * j == v1 + 4 * j2);
            assert(m2.indices@[i1 + 6 * j2 + m] == quad_winding(
                v1 + 4 * j2,
                is_positive(r2[j2].direction),
                should_flip_spec(r2[j2].ao),
            )[m]);
        }
    }
    assert(rs.map_values(|q: QuadRect| QuadInfo { direction: q.direction }) =~= r1.map_values(
        |q: QuadRect| QuadInfo { direction: q.direction },
    ) + r2.map_values(|q: QuadRect| QuadInfo { direction: q.direction }));
    assert(m2.quads@ =~= qs0 + rs.map_values(|q: QuadRect| QuadInfo { direction: q.direction }));
}

/// The voxel of face `(a, b)` of layer `layer` of direction `d`.
pub open spec fn layer_xyz(d: FaceDirection, layer: int, a: int, b: int) -> (int, int, int) {
    let (la, ua, va) = sweep_axes_spec(d);
    let p = seq![0int, 0int, 0int].update(la as int, layer).update(ua as int, a).update(va as int, b);
    (p[0], p[1], p[2])
}

/// Whether face `(a, b)` of layer `layer` of direction `d` is marked
/// visible in `vf`.
pub open spec fn face_cell_visible(vf: Seq<VisibleFaces>, d: FaceDirection, layer: int, a: int, b: int) -> bool {
    let (x, y, z) = layer_xyz(d, layer, a, b);
    bit_set(vf[voxel_index(x, y, z)].0, face_index(d))
}

/// The voxel type behind face `(a, b)` of layer `layer` of direction `d`.
pub open spec fn face_cell_type(c: Seq<VoxelTypeId>, d: FaceDirection, layer: int, a: int, b: int) -> VoxelTypeId {
    let (x, y, z) = layer_xyz(d, layer, a, b);
    c[voxel_index(x, y, z)]
}

/// The AO values of face `(a, b)` of layer `layer` of direction `d`.
pub open spec fn face_cell_ao(types: Seq<TypeTraits>, n: NeighborhoodView, d: FaceDirection, layer: int, a: int, b: int) -> Seq<u8> {
    let (x, y, z) = layer_xyz(d, layer, a, b);
    Seq::new(4, |k: int| face_ao_spec(types, n, x, y, z, d, k))
}

/// Whether `rects` is a greedy meshing of a chunk: every quad lies in the
/// chunk and merges only visible faces of its own voxel type and AO; no
/// face is merged twice; every visible face is merged.
pub open spec fn greedy_cover(
    rects: Seq<QuadRect>,
    c: Seq<VoxelTypeId>,
    vf: Seq<VisibleFaces>,
    n: NeighborhoodView,
    types: Seq<TypeTraits>,
) -> bool {
    &&& forall|q: int|
        0 <= q < rects.len() ==> rect_in_bounds(#[trigger] rects[q], 32) && forall|a: int, b: int|
            #![trigger in_rect(rects[q], a, b)]
            in_rect(rects[q], a, b) ==> {
                &&& face_cell_visible(vf, rects[q].direction, rects[q].layer, a, b)
                &&& face_cell_type(c, rects[q].direction, rects[q].layer, a, b) == rects[q].voxel_type
                &&& face_cell_ao(types, n, rects[q].direction, rects[q].layer, a, b) == rects[q].ao
            }
    &&& forall|q1: int, q2: int, a: int, b: int|
        #![trigger in_rect(rects[q1], a, b), in_rect(rects[q2], a, b)]
        0 <= q1 < q2 < rects.len() && rects[q1].direction == rects[q2].direction && rects[q1].layer == rects[q2].layer
            ==> !(in_rect(rects[q1], a, b) && in_rect(rects[q2], a, b))
    &&& forall|d: FaceDirection, l: int, a: int, b: int|
        0 <= l < 32 && 0 <= a < 32 && 0 <= b < 32 && #[trigger] face_cell_visible(vf, d, l, a, b) ==> exists|q: int|
            0 <= q < rects.len() && rects[q].direction == d && rects[q].layer == l && #[trigger] in_rect(rects[q], a, b)
}

/// Whether face `(a, b)` of layer `l` of direction `d` lies in one of the
/// quads `rects` of that layer.
pub open spec fn covered_in(rects: Seq<QuadRect>, d: FaceDirection, l: int, a: int, b: int) -> bool {
    exists|q: int| 0 <= q < rects.len() && rects[q].direction == d && rects[q].layer == l && #[trigger] in_rect(rects[q], a, b)
}

/// Whether face `(a, b)` of layer `l` of direction `d` is free to take into
/// a quad of type `t` and AO `ao` once the quads `prev` are made: visible,
/// in none of `prev`, of type `t` and of AO `ao`.
pub open spec fn face_free(
    prev: Seq<QuadRect>,
    c: Seq<VoxelTypeId>,
    vf: Seq<VisibleFaces>,
    n: NeighborhoodView,
    types: Seq<TypeTraits>,
    d: FaceDirection,
    l: int,
    a: int,
    b: int,
    t: VoxelTypeId,
    ao: Seq<u8>,
) -> bool {
    &&& face_cell_visible(vf, d, l, a, b)
    &&& !covered_in(prev, d, l, a, b)
    &&& face_cell_type(c, d, l, a, b) == t
    &&& face_cell_ao(types, n, d, l, a, b) == ao
}

/// Whether quad `r` is the one the greedy scan makes after the quads
/// `prev`: within its layer it starts at the first visible face, in
/// `(v, u)` order, that no quad of `prev` holds; it grows along `u` as far
/// as the next face is free ([`face_free`]), and then along `v` as far as
/// the whole next row is free.
pub open spec fn greedy_face_step(
    prev: Seq<QuadRect>,
    r: QuadRect,
    c: Seq<VoxelTypeId>,
    vf: Seq<VisibleFaces>,
    n: NeighborhoodView,
    types: Seq<TypeTraits>,
) -> bool {
    let d = r.direction;
    let l = r.layer;
    &&& face_cell_visible(vf, d, l, r.u, r.v)
    &&& !covered_in(prev, d, l, r.u, r.v)
    &&& forall|a: int, b: int|
        0 <= a < 32 && 0 <= b < 32 && (b < r.v || (b == r.v && a < r.u)) && #[trigger] face_cell_visible(vf, d, l, a, b)
            ==> covered_in(prev, d, l, a, b)
    &&& r.u + r.w == 32 || !face_free(prev, c, vf, n, types, d, l, r.u + r.w, r.v, r.voxel_type, r.ao)
    &&& r.v + r.h == 32 || exists|i: int|
        0 <= i < r.w && !#[trigger] face_free(prev, c, vf, n, types, d, l, r.u + i, r.v + r.h, r.voxel_type, r.ao)
}

/// Whether `rects` come out as the greedy scan makes them: layer by layer,
/// directions in [`face_index`] order and layers in increasing order within
/// a direction, each quad the scan's next one after those before it
/// ([`greedy_face_step`]).
pub open spec fn greedy_order(
    rects: Seq<QuadRect>,
    c: Seq<VoxelTypeId>,
    vf: Seq<VisibleFaces>,
    n: NeighborhoodView,
    types: Seq<TypeTraits>,
) -> bool {
    &&& forall|q1: int, q2: int|
        0 <= q1 < q2 < rects.len() ==> face_index((#[trigger] rects[q1]).direction) < face_index(
            (#[trigger] rects[q2]).direction,
        ) || (face_index(rects[q1].direction) == face_index(rects[q2].direction) && rects[q1].layer <= rects[q2].layer)
    &&& forall|q: int| 0 <= q < rects.len() ==> greedy_face_step(rects.take(q), #[trigger] rects[q], c, vf, n, types)
}

/// Every face of the quad at `i` of a greedy cover is free just before it
/// is made: visible, of the quad's type and AO, and in no earlier quad of
/// its layer.
#[verifier::spinoff_prover]
proof fn lemma_own_faces_free(
    rects: Seq<QuadRect>,
    i: int,
    c: Seq<VoxelTypeId>,
    vf: Seq<VisibleFaces>,
    n: NeighborhoodView,
    types: Seq<TypeTraits>,
    a: int,
    b: int,
)
    requires
        greedy_cover(rects, c, vf, n, types),
        0 <= i < rects.len(),
        in_rect(rects[i], a, b),
    ensures
        face_free(
            rects.take(i),
            c,
            vf,
            n,
            types,
            rects[i].direction,
            rects[i].layer,
            a,
            b,
            rects[i].voxel_type,
            rects[i].ao,
        ),
{
    let r = rects[i];
    assert(in_rect(rects[i], a, b));
    if covered_in(rects.take(i), r.direction, r.layer, a, b) {
        let q = choose|q: int|
            0 <= q < rects.take(i).len() && rects.take(i)[q].direction == r.direction && rects.take(i)[q].layer == r.layer
                && #[trigger] in_rect(rects.take(i)[q], a, b);
        assert(rects.take(i)[q] == rects[q]);
        assert(in_rect(rects[q], a, b) && in_rect(rects[i], a, b));
    }
}

/// In a greedy cover in greedy order, every visible face of a layer before
/// the layer of the quad at `i` lies in a quad before `i`.
#[verifier::spinoff_prover]
proof fn lemma_earlier_layers_covered(
    rects: Seq<QuadRect>,
    i: int,
    c: Seq<VoxelTypeId>,
    vf: Seq<VisibleFaces>,
    n: NeighborhoodView,
    types: Seq<TypeTraits>,
    d: FaceDirection,
    l: int,
    a: int,
    b: int,
)
    requires
        greedy_cover(rects, c, vf, n, types),
        greedy_order(rects, c, vf, n, types),
        0 <= i <= rects.len(),
        0 <= l < 32,
        0 <= a < 32,
        0 <= b < 32,
        face_cell_visible(vf, d, l, a, b),
        i < rects.len() ==> (face_index(d) < face_index(rects[i].direction) || (face_index(d) == face_index(
            rects[i].direction,
        ) && l < rects[i].layer)),
    ensures
        covered_in(rects.take(i), d, l, a, b),
{
    let q = choose|q: int| 0 <= q < rects.len() && rects[q].direction == d && rects[q].layer == l && #[trigger] in_rect(rects[q], a, b);
    if q >= i {
        if q > i {
            assert(face_index((rects[i]).direction) < face_index((rects[q]).direction) || (face_index(rects[i].direction)
                == face_index(rects[q].direction) && rects[i].layer <= rects[q].layer));
        }
    }
    assert(rects.take(i)[q] == rects[q]);
    assert(in_rect(rects.take(i)[q], a, b));
}

/// The layer of the greedy scan's next quad of one greedy cover in greedy
/// order does not come before that of another with the same first `i`
/// quads: every visible face of an earlier layer is held by those quads.
#[verifier::spinoff_prover]
proof fn lemma_next_not_earlier(
    r1: Seq<QuadRect>,
    r2: Seq<QuadRect>,
    i: int,
    c: Seq<VoxelTypeId>,
    vf: Seq<VisibleFaces>,
    n: NeighborhoodView,
    types: Seq<TypeTraits>,
)
    requires
        greedy_cover(r1, c, vf, n, types),
        greedy_order(r1, c, vf, n, types),
        greedy_cover(r2, c, vf, n, types),
        greedy_order(r2, c, vf, n, types),
        0 <= i < r1.len(),
        i < r2.len(),
        r1.take(i) == r2.take(i),
    ensures
        !(face_index(r1[i].direction) < face_index(r2[i].direction) || (face_index(r1[i].direction) == face_index(
            r2[i].direction,
        ) && r1[i].layer < r2[i].layer)),
{
    let x = r1[i];
    if face_index(x.direction) < face_index(r2[i].direction) || (face_index(x.direction) == face_index(r2[i].direction)
        && x.layer < r2[i].layer) {
        assert(greedy_face_step(r1.take(i), r1[i], c, vf, n, types));
        assert(rect_in_bounds(x, 32));
        lemma_earlier_layers_covered(r2, i, c, vf, n, types, x.direction, x.layer, x.u, x.v);
    }
}

/// The greedy scan's next quads of two greedy covers in greedy order with
/// the same first `i` quads lie in the same layer: the first layer, in
/// order, with a visible face that none of those quads holds.
proof fn lemma_next_same_layer(
    r1: Seq<QuadRect>,
    r2: Seq<QuadRect>,
    i: int,
    c: Seq<VoxelTypeId>,
    vf: Seq<VisibleFaces>,
    n: NeighborhoodView,
    types: Seq<TypeTraits>,
)
    requires
        greedy_cover(r1, c, vf, n, types),
        greedy_order(r1, c, vf, n, types),
        greedy_cover(r2, c, vf, n, types),
        greedy_order(r2, c, vf, n, types),
        0 <= i < r1.len(),
        i < r2.len(),
        r1.take(i) == r2.take(i),
    ensures
        r1[i].direction == r2[i].direction,
        r1[i].layer == r2[i].layer,
{
    lemma_next_not_earlier(r1, r2, i, c, vf, n, types);
    lemma_next_not_earlier(r2, r1, i, c, vf, n, types);
    lemma_face_index_roundtrip(r1[i].direction);
    lemma_face_index_roundtrip(r2[i].direction);
}

/// ... and start at the same face, the first free one in scan order, so
/// they have its type and AO.
#[verifier::spinoff_prover]
proof fn lemma_next_same_origin(
    r1: Seq<QuadRect>,
    r2: Seq<QuadRect>,
    i: int,
    c: Seq<VoxelTypeId>,
    vf: Seq<VisibleFaces>,
    n: NeighborhoodView,
    types: Seq<TypeTraits>,
)
    requires
        greedy_cover(r1, c, vf, n, types),
        greedy_order(r1, c, vf, n, types),
        greedy_cover(r2, c, vf, n, types),
        greedy_order(r2, c, vf, n, types),
        0 <= i < r1.len(),
        i < r2.len(),
        r1.take(i) == r2.take(i),
        r1[i].direction == r2[i].direction,
        r1[i].layer == r2[i].layer,
    ensures
        r1[i].u == r2[i].u,
        r1[i].v == r2[i].v,
        r1[i].voxel_type == r2[i].voxel_type,
        r1[i].ao == r2[i].ao,
{
    let x = r1[i];
    let y = r2[i];
    assert(greedy_face_step(r1.take(i), r1[i], c, vf, n, types));
    assert(greedy_face_step(r2.take(i), r2[i], c, vf, n, types));
    assert(rect_in_bounds(x, 32) && rect_in_bounds(y, 32));
    let d = x.direction;
    let l = x.layer;
    if y.v < x.v || (y.v == x.v && y.u < x.u) {
        assert(face_cell_visible(vf, d, l, y.u, y.v));
    }
    if x.v < y.v || (x.v == y.v && x.u < y.u) {
        assert(face_cell_visible(vf, d, l, x.u, x.v));
    }
    assert(in_rect(r1[i], x.u, x.v));
    assert(in_rect(r2[i], y.u, y.v));
}

/// ... and have the same width and height: each stops at the first face
/// along `u`, and then the first row along `v`, that is not free.
#[verifier::spinoff_prover]
proof fn lemma_next_same_size(
    r1: Seq<QuadRect>,
    r2: Seq<QuadRect>,
    i: int,
    c: Seq<VoxelTypeId>,
    vf: Seq<VisibleFaces>,
    n: NeighborhoodView,
    types: Seq<TypeTraits>,
)
    requires
        greedy_cover(r1, c, vf, n, types),
        greedy_order(r1, c, vf, n, types),
        greedy_cover(r2, c, vf, n, types),
        greedy_order(r2, c, vf, n, types),
        0 <= i < r1.len(),
        i < r2.len(),
        r1.take(i) == r2.take(i),
        r1[i].direction == r2[i].direction,
        r1[i].layer == r2[i].layer,
        r1[i].u == r2[i].u,
        r1[i].v == r2[i].v,
        r1[i].voxel_type == r2[i].voxel_type,
        r1[i].ao == r2[i].ao,
    ensures
        r1[i].w == r2[i].w,
        r1[i].h == r2[i].h,
{
    let p = r1.take(i);
    let x = r1[i];
    let y = r2[i];
    assert(greedy_face_step(r1.take(i), r1[i], c, vf, n, types));
    assert(greedy_face_step(r2.take(i), r2[i], c, vf, n, types));
    assert(rect_in_bounds(x, 32) && rect_in_bounds(y, 32));
    let d = x.direction;
    let l = x.layer;
    if x.w < y.w {
        lemma_own_faces_free(r2, i, c, vf, n, types, x.u + x.w, x.v);
    }
    if y.w < x.w {
        lemma_own_faces_free(r1, i, c, vf, n, types, y.u + y.w, y.v);
    }
    assert(x.w == y.w);
    if x.h < y.h {
        let k = choose|k: int|
            0 <= k < x.w && !#[trigger] face_free(p, c, vf, n, types, d, l, x.u + k, x.v + x.h, x.voxel_type, x.ao);
        lemma_own_faces_free(r2, i, c, vf, n, types, x.u + k, x.v + x.h);
    }
    if y.h < x.h {
        let k = choose|k: int|
            0 <= k < y.w && !#[trigger] face_free(p, c, vf, n, types, d, l, y.u + k, y.v + y.h, y.voxel_type, y.ao);
        lemma_own_faces_free(r1, i, c, vf, n, types, y.u + k, y.v + y.h);
    }
}

/// Two quads that are both the greedy scan's next one after the same quads,
/// each within a greedy cover in greedy order, are the same quad.
proof fn lemma_next_quad_unique(
    r1: Seq<QuadRect>,
    r2: Seq<QuadRect>,
    i: int,
    c: Seq<VoxelTypeId>,
    vf: Seq<VisibleFaces>,
    n: NeighborhoodView,
    types: Seq<TypeTraits>,
)
    requires
        greedy_cover(r1, c, vf, n, types),
        greedy_order(r1, c, vf, n, types),
        greedy_cover(r2, c, vf, n, types),
        greedy_order(r2, c, vf, n, types),
        0 <= i < r1.len(),
        i < r2.len(),
        r1.take(i) == r2.take(i),
    ensures
        r1[i] == r2[i],
{
    lemma_next_same_layer(r1, r2, i, c, vf, n, types);
    lemma_next_same_origin(r1, r2, i, c, vf, n, types);
    lemma_next_same_size(r1, r2, i, c, vf, n, types);
}

/// Two greedy covers in greedy order agree on their first `i` quads.
proof fn lemma_greedy_prefix_equal(
    r1: Seq<QuadRect>,
    r2: Seq<QuadRect>,
    i: int,
    c: Seq<VoxelTypeId>,
    vf: Seq<VisibleFaces>,
    n: NeighborhoodView,
    types: Seq<TypeTraits>,
)
    requires
        greedy_cover(r1, c, vf, n, types),
        greedy_order(r1, c, vf, n, types),
        greedy_cover(r2, c, vf, n, types),
        greedy_order(r2, c, vf, n, types),
        0 <= i <= r1.len(),
        i <= r2.len(),
    ensures
        r1.take(i) == r2.take(i),
    decreases i,
{
    if i == 0 {
        assert(r1.take(0) =~= r2.take(0));
    } else {
        lemma_greedy_prefix_equal(r1, r2, i - 1, c, vf, n, types);
        lemma_next_quad_unique(r1, r2, i - 1, c, vf, n, types);
        assert(r1.take(i) =~= r1.take(i - 1).push(r1[i - 1]));
        assert(r2.take(i) =~= r2.take(i - 1).push(r2[i - 1]));
    }
}

/// A greedy cover in greedy order whose first quads are themselves a whole
/// greedy cover has no more quads: a next quad's first face would be
/// visible and yet held by none of the quads before it.
#[verifier::spinoff_prover]
proof fn lemma_no_quad_past_cover(
    r1: Seq<QuadRect>,
    r2: Seq<QuadRect>,
    c: Seq<VoxelTypeId>,
    vf: Seq<VisibleFaces>,
    n: NeighborhoodView,
    types: Seq<TypeTraits>,
)
    requires
        greedy_order(r1, c, vf, n, types),
        greedy_cover(r1, c, vf, n, types),
        greedy_cover(r2, c, vf, n, types),
        r2.len() <= r1.len(),
        r1.take(r2.len() as int) == r2,
    ensures
        r1.len() == r2.len(),
{
    let m = r2.len() as int;
    if m < r1.len() {
        let x = r1[m];
        assert(greedy_face_step(r1.take(m), r1[m], c, vf, n, types));
        assert(rect_in_bounds(x, 32));
        assert(face_cell_visible(vf, x.direction, x.layer, x.u, x.v));
        let q = choose|q: int|
            0 <= q < r2.len() && r2[q].direction == x.direction && r2[q].layer == x.layer && #[trigger] in_rect(
                r2[q],
                x.u,
                x.v,
            );
        assert(in_rect(r2[q], x.u, x.v));
    }
}

/// The greedy meshing of a chunk is unique: two sequences of quads that
/// both cover the visible faces ([`greedy_cover`]) and both come out in the
/// greedy scan's order ([`greedy_order`]) are equal. So the quads that
/// [`greedy_mesh`] emits are exactly the greedy scan's.
#[verifier::spinoff_prover]
pub proof fn lemma_greedy_unique(
    r1: Seq<QuadRect>,
    r2: Seq<QuadRect>,
    c: Seq<VoxelTypeId>,
    vf: Seq<VisibleFaces>,
    n: NeighborhoodView,
    types: Seq<TypeTraits>,
)
    requires
        greedy_cover(r1, c, vf, n, types),
        greedy_order(r1, c, vf, n, types),
        greedy_cover(r2, c, vf, n, types),
        greedy_order(r2, c, vf, n, types),
    ensures
        r1 == r2,
{
    let m = if r1.len() <= r2.len() { r1.len() as int } else { r2.len() as int };
    lemma_greedy_prefix_equal(r1, r2, m, c, vf, n, types);
    // Neither has a quad past the other's end.
    if r1.len() > m {
        assert(r2.take(m) =~= r2);
        lemma_no_quad_past_cover(r1, r2, c, vf, n, types);
    }
    if r2.len() > m {
        assert(r1.take(m) =~= r1);
        lemma_no_quad_past_cover(r2, r1, c, vf, n, types);
    }
    assert(r1.take(m) =~= r1);
    assert(r2.take(m) =~= r2);
}

/// Converts layer coordinates back to `(x, y, z)`.
pub(crate) fn axes_to_xyz(direction: FaceDirection, layer: usize, u: usize, v: usize) -> (r: (usize, usize, usize))
    ensures
        r.0 as int == layer_xyz(direction, layer as int, u as int, v as int).0,
        r.1 as int == layer_xyz(direction, layer as int, u as int, v as int).1,
        r.2 as int == layer_xyz(direction, layer as int, u as int, v as int).2,
{
    let (layer_axis, u_axis, v_axis) = direction.sweep_axes();
    let mut coords = [0usize; 3];
    coords[layer_axis] = layer;
    coords[u_axis] = u;
    coords[v_axis] = v;
    (coords[0], coords[1], coords[2])
}

/// In-chunk layer coordinates name an in-chunk voxel.
proof fn lemma_layer_xyz_in_chunk(d: FaceDirection, layer: int, a: int, b: int)
    requires
        0 <= layer < 32,
        0 <= a < 32,
        0 <= b < 32,
    ensures
        in_chunk(layer_xyz(d, layer, a, b).0, layer_xyz(d, layer, a, b).1, layer_xyz(d, layer, a, b).2),
{
}

/// Cell index `i` of a 32-wide layer is face `(i % 32, i / 32)`.
proof fn lemma_cell_split(i: int)
    requires
        0 <= i < 1024,
    ensures
        cell(32, i % 32, i / 32) == i,
        0 <= i % 32 < 32,
        0 <= i / 32 < 32,
{
}

/// The faces of layer `layer` of `direction`: their visibility, voxel types
/// and (for visible faces) AO values, indexed by [`cell`].
#[verifier::spinoff_prover]
fn build_layer(
    chunk: &ChunkData,
    visible_faces: &[VisibleFaces],
    neighbors: &ChunkNeighborhood,
    registry: &VoxelTypeRegistry,
    direction: FaceDirection,
    layer: usize,
) -> (r: (Vec<bool>, Vec<VoxelTypeId>, Vec<[u8; 4]>))
    requires
        layer < 32,
        visible_faces@.len() >= 32768,
    ensures
        r.0@.len() == 1024,
        r.1@.len() == 1024,
        r.2@.len() == 1024,
        forall|c: int, k: int| 0 <= c < 1024 && 0 <= k < 4 ==> #[trigger] r.2@[c]@[k] <= 3,
        forall|a: int, b: int|
            0 <= a < 32 && 0 <= b < 32 ==> {
                &&& #[trigger] r.0@[cell(32, a, b)] == face_cell_visible(visible_faces@, direction, layer as int, a, b)
                &&& r.1@[cell(32, a, b)] == face_cell_type(chunk@, direction, layer as int, a, b)
                &&& r.0@[cell(32, a, b)] ==> r.2@[cell(32, a, b)]@ == face_cell_ao(
                    registry@,
                    neighbors@,
                    direction,
                    layer as int,
                    a,
                    b,
                )
            },
{
    let mut vis: Vec<bool> = Vec::new();
    let mut tys: Vec<VoxelTypeId> = Vec::new();
    let mut aos: Vec<[u8; 4]> = Vec::new();
    let mut i: usize = 0;
    while i < 1024
        invariant
            layer < 32,
            visible_faces@.len() >= 32768,
            i <= 1024,
            vis@.len() == i,
            tys@.len() == i,
            aos@.len() == i,
            forall|c: int, k: int| 0 <= c < i && 0 <= k < 4 ==> #[trigger] aos@[c]@[k] <= 3,
            forall|c: int|
                0 <= c < i ==> {
                    &&& #[trigger] vis@[c] == face_cell_visible(visible_faces@, direction, layer as int, c % 32, c / 32)
                    &&& tys@[c] == face_cell_type(chunk@, direction, layer as int, c % 32, c / 32)
                    &&& vis@[c] ==> aos@[c]@ == face_cell_ao(registry@, neighbors@, direction, layer as int, c % 32, c / 32)
                },
        decreases 1024 - i,
    {
        let u = i % 32;
        let v = i / 32;
        proof {
            lemma_layer_xyz_in_chunk(direction, layer as int, u as int, v as int);
        }
        let (x, y, z) = axes_to_xyz(direction, layer, u, v);
        let idx = x + y * CHUNK_SIZE + z * CHUNK_SIZE * CHUNK_SIZE;
        let visible = visible_faces[idx].is_visible(direction);
        let t = chunk.get(x, y, z);
        let ao = if visible { compute_face_ao(neighbors, registry, (x, y, z), direction) } else { [0u8; 4] };
        proof {
            if visible {
                assert(ao@ =~= face_cell_ao(registry@, neighbors@, direction, layer as int, u as int, v as int));
            }
        }
        vis.push(visible);
        tys.push(t);
        aos.push(ao);
        i = i + 1;
    }
    proof {
        assert forall|a: int, b: int| 0 <= a < 32 && 0 <= b < 32 implies {
            &&& #[trigger] vis@[cell(32, a, b)] == face_cell_visible(visible_faces@, direction, layer as int, a, b)
            &&& tys@[cell(32, a, b)] == face_cell_type(chunk@, direction, layer as int, a, b)
            &&& vis@[cell(32, a, b)] ==> aos@[cell(32, a, b)]@ == face_cell_ao(registry@, neighbors@, direction, layer as int, a, b)
        } by {
            let c = cell(32, a, b);
            assert(c % 32 == a && c / 32 == b);
        }
    }
    (vis, tys, aos)
}

/// Whether layer `l` of direction `d` comes before layer `lcur` of the
/// direction with index `k` in meshing order.
pub open spec fn layer_done(d: FaceDirection, l: int, k: int, lcur: int) -> bool {
    face_index(d) < k || (face_index(d) == k && l < lcur)
}

/// [`greedy_cover`] for the layers done before layer `lcur` of direction `k`.
pub open spec fn partial_cover(
    rects: Seq<QuadRect>,
    c: Seq<VoxelTypeId>,
    vf: Seq<VisibleFaces>,
    n: NeighborhoodView,
    types: Seq<TypeTraits>,
    k: int,
    lcur: int,
) -> bool {
    &&& forall|q: int|
        0 <= q < rects.len() ==> layer_done((#[trigger] rects[q]).direction, rects[q].layer, k, lcur) && rect_in_bounds(
            rects[q],
            32,
        ) && forall|a: int, b: int|
            #![trigger in_rect(rects[q], a, b)]
            in_rect(rects[q], a, b) ==> {
                &&& face_cell_visible(vf, rects[q].direction, rects[q].layer, a, b)
                &&& face_cell_type(c, rects[q].direction, rects[q].layer, a, b) == rects[q].voxel_type
                &&& face_cell_ao(types, n, rects[q].direction, rects[q].layer, a, b) == rects[q].ao
            }
    &&& forall|q1: int, q2: int, a: int, b: int|
        #![trigger in_rect(rects[q1], a, b), in_rect(rects[q2], a, b)]
        0 <= q1 < q2 < rects.len() && rects[q1].direction == rects[q2].direction && rects[q1].layer == rects[q2].layer
            ==> !(in_rect(rects[q1], a, b) && in_rect(rects[q2], a, b))
    &&& forall|d: FaceDirection, l: int, a: int, b: int|
        0 <= l < 32 && 0 <= a < 32 && 0 <= b < 32 && layer_done(d, l, k, lcur) && #[trigger] face_cell_visible(vf, d, l, a, b)
            ==> exists|q: int|
            0 <= q < rects.len() && rects[q].direction == d && rects[q].layer == l && #[trigger] in_rect(rects[q], a, b)
}

/// A quad that is the greedy scan's next one within the arrays of its
/// layer is the scan's next one over the whole chunk, after the quads of
/// the layers done before and those of its own layer made before it.
#[verifier::spinoff_prover]
proof fn lemma_step_lifts(
    all: Seq<QuadRect>,
    pre: Seq<QuadRect>,
    r: QuadRect,
    c: Seq<VoxelTypeId>,
    vf: Seq<VisibleFaces>,
    n: NeighborhoodView,
    types: Seq<TypeTraits>,
    direction: FaceDirection,
    layer: int,
    vis: Seq<bool>,
    tys: Seq<VoxelTypeId>,
    aos: Seq<[u8; 4]>,
)
    requires
        0 <= layer < 32,
        forall|q: int|
            0 <= q < all.len() ==> layer_done((#[trigger] all[q]).direction, all[q].layer, face_index(direction) as int, layer),
        forall|q: int| 0 <= q < pre.len() ==> (#[trigger] pre[q]).direction == direction && pre[q].layer == layer,
        r.direction == direction,
        r.layer == layer,
        rect_in_bounds(r, 32),
        greedy_step(pre, r, 32, vis, tys, aos),
        forall|a: int, b: int|
            0 <= a < 32 && 0 <= b < 32 ==> {
                &&& #[trigger] vis[cell(32, a, b)] == face_cell_visible(vf, direction, layer, a, b)
                &&& tys[cell(32, a, b)] == face_cell_type(c, direction, layer, a, b)
                &&& vis[cell(32, a, b)] ==> aos[cell(32, a, b)]@ == face_cell_ao(types, n, direction, layer, a, b)
            },
    ensures
        greedy_face_step(all + pre, r, c, vf, n, types),
{
    let ps = all + pre;
    let na = all.len() as int;
    assert forall|a: int, b: int| covered_in(ps, direction, layer, a, b) == covered(pre, a, b) by {
        if covered_in(ps, direction, layer, a, b) {
            let q = choose|q: int|
                0 <= q < ps.len() && ps[q].direction == direction && ps[q].layer == layer && #[trigger] in_rect(ps[q], a, b);
            if q < na {
                assert(ps[q] == all[q]);
                assert(layer_done(all[q].direction, all[q].layer, face_index(direction) as int, layer));
            } else {
                assert(ps[q] == pre[q - na]);
                assert(in_rect(pre[q - na], a, b));
            }
        }
        if covered(pre, a, b) {
            let j = choose|j: int| 0 <= j < pre.len() && #[trigger] in_rect(pre[j], a, b);
            assert(ps[na + j] == pre[j]);
            assert(in_rect(ps[na + j], a, b));
        }
    }
    assert forall|a: int, b: int, t: VoxelTypeId, ao: Seq<u8>|
        0 <= a < 32 && 0 <= b < 32 && #[trigger] face_free(ps, c, vf, n, types, direction, layer, a, b, t, ao)
            implies layer_free(pre, 32, vis, tys, aos, a, b, t, ao) by {
        assert(vis[cell(32, a, b)]);
    }
    assert(vis[cell(32, r.u, r.v)]);
    assert forall|a: int, b: int|
        0 <= a < 32 && 0 <= b < 32 && (b < r.v || (b == r.v && a < r.u)) && #[trigger] face_cell_visible(
            vf,
            direction,
            layer,
            a,
            b,
        ) implies covered_in(ps, direction, layer, a, b) by {
        assert(vis[cell(32, a, b)]);
    }
    if r.u + r.w < 32 {
        if face_free(ps, c, vf, n, types, direction, layer, r.u + r.w, r.v, r.voxel_type, r.ao) {
            assert(layer_free(pre, 32, vis, tys, aos, r.u + r.w, r.v, r.voxel_type, r.ao));
        }
    }
    if r.v + r.h < 32 {
        let i = choose|i: int|
            0 <= i < r.w && !#[trigger] layer_free(pre, 32, vis, tys, aos, r.u + i, r.v + r.h, r.voxel_type, r.ao);
        if face_free(ps, c, vf, n, types, direction, layer, r.u + i, r.v + r.h, r.voxel_type, r.ao) {
            assert(layer_free(pre, 32, vis, tys, aos, r.u + i, r.v + r.h, r.voxel_type, r.ao));
        }
        assert(!face_free(ps, c, vf, n, types, direction, layer, r.u + i, r.v + r.h, r.voxel_type, r.ao));
    }
}

/// Adding the quads of one more layer, made by the greedy scan, keeps the
/// quads in greedy order.
#[verifier::spinoff_prover]
proof fn lemma_order_step(
    all: Seq<QuadRect>,
    rl: Seq<QuadRect>,
    c: Seq<VoxelTypeId>,
    vf: Seq<VisibleFaces>,
    n: NeighborhoodView,
    types: Seq<TypeTraits>,
    direction: FaceDirection,
    layer: int,
    vis: Seq<bool>,
    tys: Seq<VoxelTypeId>,
    aos: Seq<[u8; 4]>,
)
    requires
        0 <= layer < 32,
        forall|q: int|
            0 <= q < all.len() ==> layer_done((#[trigger] all[q]).direction, all[q].layer, face_index(direction) as int, layer),
        greedy_order(all, c, vf, n, types),
        layer_quads_ok(rl, direction, layer, 32, vis, tys, aos),
        greedy_scan(rl, 32, vis, tys, aos),
        forall|a: int, b: int|
            0 <= a < 32 && 0 <= b < 32 ==> {
                &&& #[trigger] vis[cell(32, a, b)] == face_cell_visible(vf, direction, layer, a, b)
                &&& tys[cell(32, a, b)] == face_cell_type(c, direction, layer, a, b)
                &&& vis[cell(32, a, b)] ==> aos[cell(32, a, b)]@ == face_cell_ao(types, n, direction, layer, a, b)
            },
    ensures
        greedy_order(all + rl, c, vf, n, types),
{
    let k = face_index(direction) as int;
    let rs = all + rl;
    let na = all.len() as int;
    assert forall|q1: int, q2: int|
        0 <= q1 < q2 < rs.len() implies face_index((#[trigger] rs[q1]).direction) < face_index(
            (#[trigger] rs[q2]).direction,
        ) || (face_index(rs[q1].direction) == face_index(rs[q2].direction) && rs[q1].layer <= rs[q2].layer) by {
        if q2 < na {
            assert(rs[q1] == all[q1] && rs[q2] == all[q2]);
        } else if q1 >= na {
            assert(rs[q1] == rl[q1 - na] && rs[q2] == rl[q2 - na]);
        } else {
            assert(rs[q1] == all[q1] && rs[q2] == rl[q2 - na]);
            assert(layer_done(all[q1].direction, all[q1].layer, k, layer));
        }
    }
    assert forall|q: int| 0 <= q < rs.len() implies greedy_face_step(rs.take(q), #[trigger] rs[q], c, vf, n, types) by {
        if q < na {
            assert(rs.take(q) =~= all.take(q));
            assert(rs[q] == all[q]);
        } else {
            let j = q - na;
            assert(rs.take(q) =~= all + rl.take(j));
            assert(rs[q] == rl[j]);
            assert(greedy_step(rl.take(j), rl[j], 32, vis, tys, aos));
            assert forall|i: int| 0 <= i < rl.take(j).len() implies (#[trigger] rl.take(j)[i]).direction == direction
                && rl.take(j)[i].layer == layer by {
                assert(rl.take(j)[i] == rl[i]);
            }
            lemma_step_lifts(all, rl.take(j), rl[j], c, vf, n, types, direction, layer, vis, tys, aos);
        }
    }
}

/// Adding the quads of one more layer extends the cover by that layer.
proof fn lemma_cover_step(
    all: Seq<QuadRect>,
    rl: Seq<QuadRect>,
    c: Seq<VoxelTypeId>,
    vf: Seq<VisibleFaces>,
    n: NeighborhoodView,
    types: Seq<TypeTraits>,
    direction: FaceDirection,
    layer: int,
    vis: Seq<bool>,
    tys: Seq<VoxelTypeId>,
    aos: Seq<[u8; 4]>,
)
    requires
        0 <= layer < 32,
        partial_cover(all, c, vf, n, types, face_index(direction) as int, layer),
        layer_quads_ok(rl, direction, layer, 32, vis, tys, aos),
        forall|a: int, b: int| 0 <= a < 32 && 0 <= b < 32 && #[trigger] vis[cell(32, a, b)] ==> covered(rl, a, b),
        forall|a: int, b: int|
            0 <= a < 32 && 0 <= b < 32 ==> {
                &&& #[trigger] vis[cell(32, a, b)] == face_cell_visible(vf, direction, layer, a, b)
                &&& tys[cell(32, a, b)] == face_cell_type(c, direction, layer, a, b)
                &&& vis[cell(32, a, b)] ==> aos[cell(32, a, b)]@ == face_cell_ao(types, n, direction, layer, a, b)
            },
    ensures
        partial_cover(all + rl, c, vf, n, types, face_index(direction) as int, layer + 1),
{
    let k = face_index(direction) as int;
    let rs = all + rl;
    let na = all.len() as int;

    assert forall|q: int|
        0 <= q < rs.len() implies layer_done((#[trigger] rs[q]).direction, rs[q].layer, k, layer + 1) && rect_in_bounds(
            rs[q],
            32,
        ) && forall|a: int, b: int|
            #![trigger in_rect(rs[q], a, b)]
            in_rect(rs[q], a, b) ==> {
                &&& face_cell_visible(vf, rs[q].direction, rs[q].layer, a, b)
                &&& face_cell_type(c, rs[q].direction, rs[q].layer, a, b) == rs[q].voxel_type
                &&& face_cell_ao(types, n, rs[q].direction, rs[q].layer, a, b) == rs[q].ao
            } by {
        if q < na {
            assert(rs[q] == all[q]);
        } else {
            let j = q - na;
            assert(rs[q] == rl[j]);
            assert(rect_uniform(rl[j], 32, vis, tys, aos));
            assert forall|a: int, b: int| #![trigger in_rect(rs[q], a, b)] in_rect(rs[q], a, b) implies {
                &&& face_cell_visible(vf, rs[q].direction, rs[q].layer, a, b)
                &&& face_cell_type(c, rs[q].direction, rs[q].layer, a, b) == rs[q].voxel_type
                &&& face_cell_ao(types, n, rs[q].direction, rs[q].layer, a, b) == rs[q].ao
            } by {
                assert(in_rect(rl[j], a, b));
                assert(vis[cell(32, a, b)]);
            }
        }
    }
    assert forall|q1: int, q2: int, a: int, b: int|
        #![trigger in_rect(rs[q1], a, b), in_rect(rs[q2], a, b)]
        0 <= q1 < q2 < rs.len() && rs[q1].direction == rs[q2].direction && rs[q1].layer == rs[q2].layer
            implies !(in_rect(rs[q1], a, b) && in_rect(rs[q2], a, b)) by {
        if q2 < na {
            assert(rs[q1] == all[q1] && rs[q2] == all[q2]);
        } else if q1 >= na {
            assert(rs[q1] == rl[q1 - na] && rs[q2] == rl[q2 - na]);
            assert(pairwise_disjoint(rl));
            assert(in_rect(rs[q1], a, b) == in_rect(rl[q1 - na], a, b));
            assert(in_rect(rs[q2], a, b) == in_rect(rl[q2 - na], a, b));
        } else {
            assert(rs[q1] == all[q1] && rs[q2] == rl[q2 - na]);
            assert(layer_done(all[q1].direction, all[q1].layer, k, layer));
        }
    }
    assert forall|d: FaceDirection, l: int, a: int, b: int|
        0 <= l < 32 && 0 <= a < 32 && 0 <= b < 32 && layer_done(d, l, k, layer + 1) && #[trigger] face_cell_visible(
            vf,
            d,
            l,
            a,
            b,
        ) implies exists|q: int|
        0 <= q < rs.len() && rs[q].direction == d && rs[q].layer == l && #[trigger] in_rect(rs[q], a, b) by {
        if layer_done(d, l, k, layer) {
            let q = choose|q: int|
                0 <= q < all.len() && all[q].direction == d && all[q].layer == l && #[trigger] in_rect(all[q], a, b);
            assert(rs[q] == all[q]);
        } else {
            assert(face_index(d) == k && l == layer);
            assert(d == direction) by {
                crate::mesh::face_direction::lemma_face_index_roundtrip(d);
                crate::mesh::face_direction::lemma_face_index_roundtrip(direction);
            }
            assert(vis[cell(32, a, b)]);
            assert(covered(rl, a, b));
            let j = choose|j: int| 0 <= j < rl.len() && #[trigger] in_rect(rl[j], a, b);
            assert(rs[na + j] == rl[j]);
            assert(in_rect(rs[na + j], a, b));
        }
    }
}

/// Performs greedy meshing on a chunk, merging adjacent same-type visible
/// faces with equal ambient occlusion into larger rectangular quads.
///
/// The quads are exactly those of the greedy scan ([`greedy_order`]): layer
/// by layer, each starts at the first visible face not yet merged and grows
/// along `u` as far as it can, then along `v` as far as whole rows can
/// join; together they cover every visible face once ([`greedy_cover`]).
///
/// `visible_faces` are the per-voxel visibility masks (from
/// [`crate::mesh::visibility::compute_visible_faces`]); `neighbors` and
/// `registry` supply the solidity that ambient occlusion reads.
#[verifier::spinoff_prover]
pub fn greedy_mesh(
    chunk: &ChunkData,
    visible_faces: &[VisibleFaces],
    neighbors: &ChunkNeighborhood,
    registry: &VoxelTypeRegistry,
) -> (r: ChunkMesh)
    requires
        visible_faces@.len() >= 32768,
    ensures
        exists|rects: Seq<QuadRect>|
            greedy_cover(rects, chunk@, visible_faces@, neighbors@, registry@) && greedy_order(
                rects,
                chunk@,
                visible_faces@,
                neighbors@,
                registry@,
            ) && mesh_extends(
                Seq::empty(),
                Seq::empty(),
                Seq::empty(),
                r,
                rects,
            ),
{
    let mut mesh = ChunkMesh::new();
    let ghost mut all: Seq<QuadRect> = Seq::empty();
    proof {
        assert(mesh.vertices@.subrange(0, 0) =~= Seq::<MeshVertex>::empty());
        assert(mesh.indices@.subrange(0, 0) =~= Seq::<u32>::empty());
        assert(mesh.quads@ =~= Seq::<QuadInfo>::empty() + all.map_values(|r: QuadRect| QuadInfo { direction: r.direction }));
    }
    let mut k: usize = 0;
    while k < 6
        invariant
            k <= 6,
            visible_faces@.len() >= 32768,
            all.len() <= k * 32 * 1024,
            mesh.vertices@.len() == 4 * all.len(),
            partial_cover(all, chunk@, visible_faces@, neighbors@, registry@, k as int, 0),
            greedy_order(all, chunk@, visible_faces@, neighbors@, registry@),
            mesh_extends(Seq::empty(), Seq::empty(), Seq::empty(), mesh, all),
        decreases 6 - k,
    {
        let direction = FaceDirection::ALL[k];
        assert(face_index(direction) == k);
        let mut layer: usize = 0;
        while layer < 32
            invariant
                k < 6,
                face_index(direction) == k,
                layer <= 32,
                visible_faces@.len() >= 32768,
                all.len() <= (k * 32 + layer) * 1024,
                mesh.vertices@.len() == 4 * all.len(),
                partial_cover(all, chunk@, visible_faces@, neighbors@, registry@, k as int, layer as int),
                greedy_order(all, chunk@, visible_faces@, neighbors@, registry@),
                mesh_extends(Seq::empty(), Seq::empty(), Seq::empty(), mesh, all),
            decreases 32 - layer,
        {
            let (vis, tys, aos) = build_layer(chunk, visible_faces, neighbors, registry, direction, layer);
            let ghost m1 = mesh;
            let rl = merge_layer(&mut mesh, direction, layer, 32, &vis, &tys, &aos);
            proof {
                lemma_mesh_extends_concat(Seq::empty(), Seq::empty(), Seq::empty(), m1, mesh, all, rl@);
                let ghost layer_facts = forall|a: int, b: int|
                    0 <= a < 32 && 0 <= b < 32 ==> {
                        &&& #[trigger] vis@[cell(32, a, b)] == face_cell_visible(visible_faces@, direction, layer as int, a, b)
                        &&& tys@[cell(32, a, b)] == face_cell_type(chunk@, direction, layer as int, a, b)
                        &&& vis@[cell(32, a, b)] ==> aos@[cell(32, a, b)]@ == face_cell_ao(
                            registry@,
                            neighbors@,
                            direction,
                            layer as int,
                            a,
                            b,
                        )
                    };
                assert(layer_facts);
                assert forall|q: int| 0 <= q < all.len() implies layer_done(
                    (#[trigger] all[q]).direction,
                    all[q].layer,
                    face_index(direction) as int,
                    layer as int,
                ) by {}
                lemma_order_step(
                    all,
                    rl@,
                    chunk@,
                    visible_faces@,
                    neighbors@,
                    registry@,
                    direction,
                    layer as int,
                    vis@,
                    tys@,
                    aos@,
                );
                assert(layer_facts);
                lemma_cover_step(
                    all,
                    rl@,
                    chunk@,
                    visible_faces@,
                    neighbors@,
                    registry@,
                    direction,
                    layer as int,
                    vis@,
                    tys@,
                    aos@,
                );
                all = all + rl@;
            }
            layer = layer + 1;
        }
        proof {
            assert forall|d: FaceDirection, l: int| 0 <= l < 32 implies layer_done(d, l, k as int + 1, 0) == layer_done(
                d,
                l,
                k as int,
                32,
            ) by {}
        }
        k = k + 1;
    }
    proof {
        assert forall|d: FaceDirection, l: int| 0 <= l < 32 implies layer_done(d, l, 6, 0) by {
            crate::mesh::face_direction::lemma_face_index_roundtrip(d);
        }
    }
    mesh
}

} // verus!
