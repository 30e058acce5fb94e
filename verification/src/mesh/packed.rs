//! Packed mesh data structures optimized for GPU bandwidth.
//!
//! [`ChunkVertex`] is a 12-byte vertex format.

use vstd::prelude::*;
use crate::mesh::face_direction::{FaceDirection, face_index, face_from_index};

verus! {

/// A single vertex in a chunk mesh, packed to 12 bytes for GPU upload.
///
/// Layout: position `[u8; 3]`, normal `u8` (face direction index), ao `u8`,
/// one padding byte, material id `u16`, uv `[u8; 2]`, two padding bytes.
#[derive(Clone, Copy, Debug, PartialEq, Eq)]
pub struct ChunkVertex {
    /// Position relative to chunk origin (each component 0..=32).
    pub position: [u8; 3],
    /// Face direction index (0..=5).
    pub normal: u8,
    /// Ambient occlusion level (0..=3).
    pub ao: u8,
    /// Reserved, set to 0.
    pub _pad0: u8,
    /// Voxel type / material index.
    pub material_id: u16,
    /// Texture coordinates (each component 0..=32).
    pub uv: [u8; 2],
    /// Reserved, aligns the vertex to 12 bytes.
    pub _pad1: u16,
}

/// Size in bytes of one packed vertex.
pub const CHUNK_VERTEX_SIZE: usize = 12;

/// The vertex built by [`ChunkVertex::new`].
pub open spec fn chunk_vertex_spec(pos: Seq<u8>, direction: FaceDirection, ao: u8, material: u16, uv: Seq<u8>) -> ChunkVertex {
    ChunkVertex {
        position: [pos[0], pos[1], pos[2]],
        normal: face_index(direction) as u8,
        ao,
        _pad0: 0,
        material_id: material,
        uv: [uv[0], uv[1]],
        _pad1: 0,
    }
}

impl ChunkVertex {
    /// Construct a packed vertex from meshing output.
    pub fn new(pos: [u8; 3], direction: FaceDirection, ao: u8, material: u16, uv: [u8; 2]) -> (r: Self)
        requires
            pos@[0] <= 32 && pos@[1] <= 32 && pos@[2] <= 32,
            ao <= 3,
        ensures
            r.position@ == pos@,
            r.normal == face_index(direction),
            r.ao == ao,
            r._pad0 == 0,
            r.material_id == material,
            r.uv@ == uv@,
            r._pad1 == 0,
    {
        ChunkVertex {
            position: pos,
            normal: direction.index() as u8,
            ao,
            _pad0: 0,
            material_id: material,
            uv,
            _pad1: 0,
        }
    }

    /// Decode the face direction from the packed normal byte; `None` if the
    /// stored value is out of range.
    pub fn face_direction(&self) -> (r: Option<FaceDirection>)
        ensures
            self.normal < 6 ==> r == Some(face_from_index(self.normal as nat)),
            self.normal >= 6 ==> r is None,
    {
        FaceDirection::from_u8(self.normal)
    }
}

/// A vertex built for face direction `direction` decodes back to that
/// direction, whatever its position, occlusion, material and texture
/// coordinates.
pub proof fn lemma_built_vertex_keeps_direction(
    pos: Seq<u8>,
    direction: FaceDirection,
    ao: u8,
    material: u16,
    uv: Seq<u8>,
)
    ensures
        chunk_vertex_spec(pos, direction, ao, material, uv).normal < 6,
        face_from_index(chunk_vertex_spec(pos, direction, ao, material, uv).normal as nat) == direction,
{
    crate::mesh::face_direction::lemma_face_index_roundtrip(direction);
}

/// Whether every index refers to an existing vertex.
pub open spec fn indices_valid(vertices: Seq<ChunkVertex>, indices: Seq<u32>) -> bool {
    forall|i: int| 0 <= i < indices.len() ==> indices[i] < vertices.len()
}

/// The six indices of a quad starting at vertex `base`.
pub open spec fn quad_indices(base: u32, flip: bool) -> Seq<u32> {
    if flip {
        seq![(base + 1) as u32, (base + 2) as u32, (base + 3) as u32, base, (base + 1) as u32, (base + 3) as u32]
    } else {
        seq![base, (base + 1) as u32, (base + 2) as u32, base, (base + 2) as u32, (base + 3) as u32]
    }
}

/// A packed chunk mesh containing vertex and index buffers ready for GPU upload.
pub struct PackedChunkMesh {
    /// Packed vertex buffer.
    pub vertices: Vec<ChunkVertex>,
    /// Index buffer (triangles, 3 indices per triangle).
    pub indices: Vec<u32>,
}

/// The four bytes of `v`, least significant first.
pub open spec fn u32_le_bytes(v: u32) -> Seq<u8> {
    seq![(v % 256) as u8, ((v / 256) % 256) as u8, ((v / 65536) % 256) as u8, (v / 16777216) as u8]
}

/// The four bytes of `v`, most significant first.
pub open spec fn u32_be_bytes(v: u32) -> Seq<u8> {
    seq![(v / 16777216) as u8, ((v / 65536) % 256) as u8, ((v / 256) % 256) as u8, (v % 256) as u8]
}

/// The bytes of `vs`, each value in turn in one byte order: most
/// significant byte first when `big_endian`, least significant first
/// otherwise.
pub open spec fn u32s_bytes(vs: Seq<u32>, big_endian: bool) -> Seq<u8> {
    Seq::new(
        4 * vs.len(),
        |i: int|
            if big_endian {
                u32_be_bytes(vs[i / 4])[i % 4]
            } else {
                u32_le_bytes(vs[i / 4])[i % 4]
            },
    )
}

/// Reinterprets `u32` indices as their bytes (`bytemuck::cast_slice`): the
/// indices as they lie in memory, each in the machine's byte order, which
/// is the same for all of them.
#[verifier::external_body]
fn cast_indices_to_bytes(indices: &[u32]) -> (r: &[u8])
    ensures
        r@ == u32s_bytes(indices@, false) || r@ == u32s_bytes(indices@, true),
{
    bytemuck::cast_slice(indices)
}

/// The 12 bytes of a packed vertex in its documented layout, multi-byte
/// fields little-endian.
pub open spec fn vertex_le_bytes(v: ChunkVertex) -> Seq<u8> {
    seq![
        v.position@[0],
        v.position@[1],
        v.position@[2],
        v.normal,
        v.ao,
        v._pad0,
        (v.material_id % 256) as u8,
        (v.material_id / 256) as u8,
        v.uv@[0],
        v.uv@[1],
        (v._pad1 % 256) as u8,
        (v._pad1 / 256) as u8,
    ]
}

/// The bytes of vertices `vs`, each in turn as [`vertex_le_bytes`].
pub open spec fn vertices_le_bytes(vs: Seq<ChunkVertex>) -> Seq<u8> {
    Seq::new(12 * vs.len(), |i: int| vertex_le_bytes(vs[i / 12])[i % 12])
}

impl PackedChunkMesh {
    /// Creates an empty packed mesh.
    pub fn new() -> (r: Self)
        ensures
            r.vertices@.len() == 0,
            r.indices@.len() == 0,
    {
        PackedChunkMesh { vertices: Vec::new(), indices: Vec::new() }
    }

    /// Adds a quad (4 vertices, 6 indices). If `flip` is true the
    /// triangulation diagonal is flipped (1–3 instead of 0–2).
    pub fn push_quad(&mut self, verts: [ChunkVertex; 4], flip: bool)
        requires
            old(self).vertices@.len() + 3 <= u32::MAX,
        ensures
            final(self).vertices@ == old(self).vertices@ + verts@,
            final(self).indices@ == old(self).indices@ + quad_indices(old(self).vertices@.len() as u32, flip),
            indices_valid(old(self).vertices@, old(self).indices@) ==> indices_valid(final(self).vertices@, final(self).indices@),
    {
        let base = self.vertices.len() as u32;
        self.vertices.push(verts[0]);
        self.vertices.push(verts[1]);
        self.vertices.push(verts[2]);
        self.vertices.push(verts[3]);
        if flip {
            self.indices.push(base + 1);
            self.indices.push(base + 2);
            self.indices.push(base + 3);
            self.indices.push(base);
            self.indices.push(base + 1);
            self.indices.push(base + 3);
        } else {
            self.indices.push(base);
            self.indices.push(base + 1);
            self.indices.push(base + 2);
            self.indices.push(base);
            self.indices.push(base + 2);
            self.indices.push(base + 3);
        }
        assert(self.vertices@ =~= old(self).vertices@ + verts@);
        assert(self.indices@ =~= old(self).indices@ + quad_indices(base, flip));
    }

    /// Returns `true` if the mesh contains no vertices.
    pub fn is_empty(&self) -> (r: bool)
        ensures
            r == (self.vertices@.len() == 0),
    {
        self.vertices.len() == 0
    }

    /// Returns the number of triangles in the mesh.
    pub fn triangle_count(&self) -> (r: usize)
        ensures
            r == self.indices@.len() / 3,
    {
        self.indices.len() / 3
    }

    /// Returns the size of the vertex buffer in bytes.
    pub fn vertex_buffer_bytes(&self) -> (r: usize)
        requires
            self.vertices@.len() * 12 <= usize::MAX,
        ensures
            r == self.vertices@.len() * 12,
    {
        self.vertices.len() * CHUNK_VERTEX_SIZE
    }

    /// Returns the size of the index buffer in bytes.
    pub fn index_buffer_bytes(&self) -> (r: usize)
        requires
            self.indices@.len() * 4 <= usize::MAX,
        ensures
            r == self.indices@.len() * 4,
    {
        self.indices.len() * 4
    }

    /// Returns the vertex data as bytes for GPU upload: 12 bytes per vertex
    /// in the documented layout, the `u16` fields little-endian.
    pub fn vertex_bytes(&self) -> (r: Vec<u8>)
        requires
            12 * self.vertices@.len() <= usize::MAX,
        ensures
            r@ == vertices_le_bytes(self.vertices@),
    {
        let mut out: Vec<u8> = Vec::new();
        let mut i: usize = 0;
        while i < self.vertices.len()
            invariant
                i <= self.vertices@.len(),
                12 * self.vertices@.len() <= usize::MAX,
                out@ == vertices_le_bytes(self.vertices@.take(i as int)),
            decreases self.vertices@.len() - i,
        {
            let v = self.vertices[i];
            let ghost before = out@;
            out.push(v.position[0]);
            out.push(v.position[1]);
            out.push(v.position[2]);
            out.push(v.normal);
            out.push(v.ao);
            out.push(v._pad0);
            out.push((v.material_id % 256) as u8);
            out.push((v.material_id / 256) as u8);
            out.push(v.uv[0]);
            out.push(v.uv[1]);
            out.push((v._pad1 % 256) as u8);
            out.push((v._pad1 / 256) as u8);
            proof {
                let vs = self.vertices@.take(i + 1);
                assert(out@ == before + vertex_le_bytes(v));
                assert forall|k: int| 0 <= k < 12 * vs.len() implies #[trigger] out@[k] == vertices_le_bytes(vs)[k] by {
                    if k < 12 * i {
                        assert(k / 12 < i);
                        assert(vs[k / 12] == self.vertices@.take(i as int)[k / 12]);
                    } else {
                        assert(k / 12 == i);
                        assert(vs[k / 12] == v);
                    }
                }
                assert(out@ =~= vertices_le_bytes(vs));
            }
            i = i + 1;
        }
        assert(self.vertices@.take(i as int) =~= self.vertices@);
        out
    }

    /// Returns the index data as a byte slice for GPU upload (zero-copy):
    /// each index in the machine's byte order.
    pub fn index_bytes(&self) -> (r: &[u8])
        ensures
            r@ == u32s_bytes(self.indices@, false) || r@ == u32s_bytes(self.indices@, true),
            r@.len() == 4 * self.indices@.len(),
    {
        cast_indices_to_bytes(self.indices.as_slice())
    }
}

} // verus!
