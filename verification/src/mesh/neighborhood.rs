//! Cross-chunk neighbor access for face, edge, and corner voxel lookups.
//!
//! [`ChunkNeighborhood`] aggregates a center chunk and boundary data from up
//! to 26 surrounding chunks into a self-contained, owned snapshot.

use vstd::prelude::*;
use crate::mesh::face_direction::{
    FaceDirection, EdgeDirection, CornerDirection, face_index, edge_index, corner_index, opposite_spec, face_from_index,
};
use crate::voxel::types::VoxelTypeId;
use crate::voxel::chunk::{ChunkData, CHUNK_SIZE, voxel_index};

verus! {

/// A 2D slice of `size × size` voxels from a face neighbor (u varies
/// fastest). Only the single layer touching the center chunk is stored.
#[derive(Debug)]
pub struct ChunkBoundarySlice {
    data: Vec<VoxelTypeId>,
    size: usize,
}

impl View for ChunkBoundarySlice {
    type V = Seq<VoxelTypeId>;

    closed spec fn view(&self) -> Seq<VoxelTypeId> {
        self.data@
    }
}

impl ChunkBoundarySlice {
    /// The voxels number `size²`, and a side is at most a chunk wide.
    #[verifier::type_invariant]
    spec fn well_formed(&self) -> bool {
        &&& self.size <= 32
        &&& self.data@.len() == self.size * self.size
    }

    /// Side length of the slice.
    pub closed spec fn side(&self) -> nat {
        self.size as nat
    }

    /// Returns the number of voxels in the slice.
    pub fn len(&self) -> (r: usize)
        ensures
            r == self@.len(),
            r == self.side() * self.side(),
    {
        proof {
            use_type_invariant(self);
        }
        self.data.len()
    }

    /// Returns `true` if the slice contains no voxels.
    pub fn is_empty(&self) -> (r: bool)
        ensures
            r == (self@.len() == 0),
    {
        self.data.len() == 0
    }

    /// Looks up a voxel by 2D coordinates within the slice.
    pub fn get(&self, u: usize, v: usize) -> (r: VoxelTypeId)
        requires
            u < self.side(),
            v < self.side(),
        ensures
            r == self@[v * self.side() + u],
    {
        proof {
            use_type_invariant(self);
            assert(v * self.size + u < self.size * self.size && v * self.size + u < 1024) by (nonlinear_arith)
                requires u < self.size, v < self.size, self.size <= 32;
        }
        self.data[v * self.size + u]
    }
}

impl Clone for ChunkBoundarySlice {
    fn clone(&self) -> (r: Self)
        ensures
            r@ == self@,
            r.side() == self.side(),
    {
        proof {
            use_type_invariant(self);
        }
        let data = self.data.clone();
        assert(data@ =~= self.data@);
        ChunkBoundarySlice { data, size: self.size }
    }
}

/// A 1D column of voxels from an edge neighbor.
#[derive(Debug)]
pub struct ChunkBoundaryEdge {
    data: Vec<VoxelTypeId>,
}

impl View for ChunkBoundaryEdge {
    type V = Seq<VoxelTypeId>;

    closed spec fn view(&self) -> Seq<VoxelTypeId> {
        self.data@
    }
}

impl ChunkBoundaryEdge {
    /// Returns the number of voxels in the edge.
    pub fn len(&self) -> (r: usize)
        ensures
            r == self@.len(),
    {
        self.data.len()
    }

    /// Returns `true` if the edge contains no voxels.
    pub fn is_empty(&self) -> (r: bool)
        ensures
            r == (self@.len() == 0),
    {
        self.data.len() == 0
    }

    /// Looks up a voxel by index along the edge.
    pub fn get(&self, index: usize) -> (r: VoxelTypeId)
        requires
            index < self@.len(),
        ensures
            r == self@[index as int],
    {
        self.data[index]
    }
}

impl Clone for ChunkBoundaryEdge {
    fn clone(&self) -> (r: Self)
        ensures
            r@ == self@,
    {
        let data = self.data.clone();
        assert(data@ =~= self.data@);
        ChunkBoundaryEdge { data }
    }
}

/// The chunk cell that is cell `(u, v)` of the boundary slice of face `d`
/// of a chunk with side `size`.
pub open spec fn slice_cell(d: FaceDirection, size: int, u: int, v: int) -> (int, int, int) {
    match d {
        FaceDirection::PosX => (size - 1, u, v),
        FaceDirection::NegX => (0, u, v),
        FaceDirection::PosY => (u, size - 1, v),
        FaceDirection::NegY => (u, 0, v),
        FaceDirection::PosZ => (u, v, size - 1),
        FaceDirection::NegZ => (u, v, 0),
    }
}

/// The boundary slice of face `d` of chunk `c`, `size × size` cells.
pub open spec fn slice_of(c: Seq<VoxelTypeId>, d: FaceDirection, size: int) -> Seq<VoxelTypeId> {
    Seq::new(
        (size * size) as nat,
        |i: int|
            {
                let (x, y, z) = slice_cell(d, size, i % size, i / size);
                c[voxel_index(x, y, z)]
            },
    )
}

/// The chunk cell at position `i` along edge `e` of a chunk with side `size`.
pub open spec fn edge_cell(e: EdgeDirection, size: int, i: int) -> (int, int, int) {
    let s = size - 1;
    match e {
        EdgeDirection::PosXPosY => (s, s, i),
        EdgeDirection::PosXNegY => (s, 0, i),
        EdgeDirection::PosXPosZ => (s, i, s),
        EdgeDirection::PosXNegZ => (s, i, 0),
        EdgeDirection::NegXPosY => (0, s, i),
        EdgeDirection::NegXNegY => (0, 0, i),
        EdgeDirection::NegXPosZ => (0, i, s),
        EdgeDirection::NegXNegZ => (0, i, 0),
        EdgeDirection::PosYPosZ => (i, s, s),
        EdgeDirection::PosYNegZ => (i, s, 0),
        EdgeDirection::NegYPosZ => (i, 0, s),
        EdgeDirection::NegYNegZ => (i, 0, 0),
    }
}

/// The column along edge `e` of chunk `c`.
pub open spec fn edge_of(c: Seq<VoxelTypeId>, e: EdgeDirection, size: int) -> Seq<VoxelTypeId> {
    Seq::new(
        size as nat,
        |i: int|
            {
                let (x, y, z) = edge_cell(e, size, i);
                c[voxel_index(x, y, z)]
            },
    )
}

/// The chunk cell at corner `k` of a chunk with side `size`.
pub open spec fn corner_cell(k: CornerDirection, size: int) -> (int, int, int) {
    let s = size - 1;
    match k {
        CornerDirection::NegXNegYNegZ => (0, 0, 0),
        CornerDirection::PosXNegYNegZ => (s, 0, 0),
        CornerDirection::NegXPosYNegZ => (0, s, 0),
        CornerDirection::PosXPosYNegZ => (s, s, 0),
        CornerDirection::NegXNegYPosZ => (0, 0, s),
        CornerDirection::PosXNegYPosZ => (s, 0, s),
        CornerDirection::NegXPosYPosZ => (0, s, s),
        CornerDirection::PosXPosYPosZ => (s, s, s),
    }
}

/// The edge of a neighbor chunk that touches the center chunk at `e`.
pub open spec fn opposite_edge_spec(e: EdgeDirection) -> EdgeDirection {
    match e {
        EdgeDirection::PosXPosY => EdgeDirection::NegXNegY,
        EdgeDirection::PosXNegY => EdgeDirection::NegXPosY,
        EdgeDirection::PosXPosZ => EdgeDirection::NegXNegZ,
        EdgeDirection::PosXNegZ => EdgeDirection::NegXPosZ,
        EdgeDirection::NegXPosY => EdgeDirection::PosXNegY,
        EdgeDirection::NegXNegY => EdgeDirection::PosXPosY,
        EdgeDirection::NegXPosZ => EdgeDirection::PosXNegZ,
        EdgeDirection::NegXNegZ => EdgeDirection::PosXPosZ,
        EdgeDirection::PosYPosZ => EdgeDirection::NegYNegZ,
        EdgeDirection::PosYNegZ => EdgeDirection::NegYPosZ,
        EdgeDirection::NegYPosZ => EdgeDirection::PosYNegZ,
        EdgeDirection::NegYNegZ => EdgeDirection::PosYPosZ,
    }
}

/// The corner of a neighbor chunk that touches the center chunk at `k`.
pub open spec fn opposite_corner_spec(k: CornerDirection) -> CornerDirection {
    match k {
        CornerDirection::NegXNegYNegZ => CornerDirection::PosXPosYPosZ,
        CornerDirection::PosXNegYNegZ => CornerDirection::NegXPosYPosZ,
        CornerDirection::NegXPosYNegZ => CornerDirection::PosXNegYPosZ,
        CornerDirection::PosXPosYNegZ => CornerDirection::NegXNegYPosZ,
        CornerDirection::NegXNegYPosZ => CornerDirection::PosXPosYNegZ,
        CornerDirection::PosXNegYPosZ => CornerDirection::NegXPosYNegZ,
        CornerDirection::NegXPosYPosZ => CornerDirection::PosXNegYNegZ,
        CornerDirection::PosXPosYPosZ => CornerDirection::NegXNegYNegZ,
    }
}

/// Extracts a 2D boundary slice from a chunk for the given face direction.
///
/// `direction` names the face of `chunk` that is the boundary: `PosX`
/// extracts the slice at `x = size - 1`.
pub fn extract_boundary_slice(chunk: &ChunkData, direction: FaceDirection, size: usize) -> (r: ChunkBoundarySlice)
    requires
        size <= CHUNK_SIZE,
    ensures
        r@ == slice_of(chunk@, direction, size as int),
        r.side() == size,
{
    let mut data: Vec<VoxelTypeId> = Vec::new();
    let ghost n = size as int;
    let mut v: usize = 0;
    while v < size
        invariant
            size <= 32,
            n == size,
            v <= size,
            data@.len() == v * n,
            forall|i: int| 0 <= i < data@.len() ==> #[trigger] data@[i] == slice_of(chunk@, direction, n)[i],
        decreases size - v,
    {
        let mut u: usize = 0;
        while u < size
            invariant
                size <= 32,
                n == size,
                v < size,
                u <= size,
                data@.len() == v * n + u,
                forall|i: int| 0 <= i < data@.len() ==> #[trigger] data@[i] == slice_of(chunk@, direction, n)[i],
            decreases size - u,
        {
            let cell = match direction {
                FaceDirection::PosX => chunk.get(size - 1, u, v),
                FaceDirection::NegX => chunk.get(0, u, v),
                FaceDirection::PosY => chunk.get(u, size - 1, v),
                FaceDirection::NegY => chunk.get(u, 0, v),
                FaceDirection::PosZ => chunk.get(u, v, size - 1),
                FaceDirection::NegZ => chunk.get(u, v, 0),
            };
            proof {
                let i = v * n + u;
                assert(i / n == v && i % n == u) by (nonlinear_arith)
                    requires i == v * n + u, 0 <= u < n;
                assert(v * n + u < n * n) by (nonlinear_arith)
                    requires u < n, v < n;
            }
            data.push(cell);
            u = u + 1;
        }
        assert(v * n + n == (v + 1) * n) by (nonlinear_arith);
        v = v + 1;
    }
    assert(data@ =~= slice_of(chunk@, direction, n));
    ChunkBoundarySlice { data, size }
}

/// Extracts the column of voxels where two faces of a chunk meet.
pub fn extract_boundary_edge(chunk: &ChunkData, edge: EdgeDirection, size: usize) -> (r: ChunkBoundaryEdge)
    requires
        1 <= size <= CHUNK_SIZE,
    ensures
        r@ == edge_of(chunk@, edge, size as int),
{
    let s = size - 1;
    let mut data: Vec<VoxelTypeId> = Vec::new();
    let mut i: usize = 0;
    while i < size
        invariant
            1 <= size <= 32,
            s == size - 1,
            i <= size,
            data@.len() == i,
            forall|j: int| 0 <= j < i ==> #[trigger] data@[j] == edge_of(chunk@, edge, size as int)[j],
        decreases size - i,
    {
        let cell = match edge {
            EdgeDirection::PosXPosY => chunk.get(s, s, i),
            EdgeDirection::PosXNegY => chunk.get(s, 0, i),
            EdgeDirection::PosXPosZ => chunk.get(s, i, s),
            EdgeDirection::PosXNegZ => chunk.get(s, i, 0),
            EdgeDirection::NegXPosY => chunk.get(0, s, i),
            EdgeDirection::NegXNegY => chunk.get(0, 0, i),
            EdgeDirection::NegXPosZ => chunk.get(0, i, s),
            EdgeDirection::NegXNegZ => chunk.get(0, i, 0),
            EdgeDirection::PosYPosZ => chunk.get(i, s, s),
            EdgeDirection::PosYNegZ => chunk.get(i, s, 0),
            EdgeDirection::NegYPosZ => chunk.get(i, 0, s),
            EdgeDirection::NegYNegZ => chunk.get(i, 0, 0),
        };
        data.push(cell);
        i = i + 1;
    }
    assert(data@ =~= edge_of(chunk@, edge, size as int));
    ChunkBoundaryEdge { data }
}

/// Extracts a single corner voxel from a chunk.
fn extract_corner_voxel(chunk: &ChunkData, corner: CornerDirection, size: usize) -> (r: VoxelTypeId)
    requires
        1 <= size <= CHUNK_SIZE,
    ensures
        ({
            let (x, y, z) = corner_cell(corner, size as int);
            r == chunk@[voxel_index(x, y, z)]
        }),
{
    let s = size - 1;
    match corner {
        CornerDirection::NegXNegYNegZ => chunk.get(0, 0, 0),
        CornerDirection::PosXNegYNegZ => chunk.get(s, 0, 0),
        CornerDirection::NegXPosYNegZ => chunk.get(0, s, 0),
        CornerDirection::PosXPosYNegZ => chunk.get(s, s, 0),
        CornerDirection::NegXNegYPosZ => chunk.get(0, 0, s),
        CornerDirection::PosXNegYPosZ => chunk.get(s, 0, s),
        CornerDirection::NegXPosYPosZ => chunk.get(0, s, s),
        CornerDirection::PosXPosYPosZ => chunk.get(s, s, s),
    }
}

/// What a [`ChunkNeighborhood`] holds: the center chunk's voxels, the six
/// face slices, the twelve edge columns and the eight corner voxels, each
/// absent when that neighbor is not loaded.
pub struct NeighborhoodView {
    /// The center chunk's voxels.
    pub center: Option<Seq<VoxelTypeId>>,
    /// Face slices, indexed by face direction.
    pub faces: Seq<Option<Seq<VoxelTypeId>>>,
    /// Edge columns, indexed by edge direction.
    pub edges: Seq<Option<Seq<VoxelTypeId>>>,
    /// Corner voxels, indexed by corner direction.
    pub corners: Seq<Option<VoxelTypeId>>,
}

/// `n` with face slot `i` replaced by `s`.
pub open spec fn with_face(n: NeighborhoodView, i: int, s: Option<Seq<VoxelTypeId>>) -> NeighborhoodView {
    NeighborhoodView { faces: n.faces.update(i, s), ..n }
}

/// `n` with edge slot `i` replaced by `e`.
pub open spec fn with_edge(n: NeighborhoodView, i: int, e: Option<Seq<VoxelTypeId>>) -> NeighborhoodView {
    NeighborhoodView { edges: n.edges.update(i, e), ..n }
}

/// `n` with corner slot `i` replaced by `v`.
pub open spec fn with_corner(n: NeighborhoodView, i: int, v: Option<VoxelTypeId>) -> NeighborhoodView {
    NeighborhoodView { corners: n.corners.update(i, v), ..n }
}

/// The corner voxel of `n` at index `i`, air when absent.
pub open spec fn corner_or_air(n: NeighborhoodView, i: int) -> VoxelTypeId {
    match n.corners[i] {
        Some(v) => v,
        None => VoxelTypeId(0),
    }
}

/// The voxel at corner `k` of chunk `c`.
pub open spec fn corner_voxel_of(c: Seq<VoxelTypeId>, k: CornerDirection) -> VoxelTypeId {
    let (x, y, z) = corner_cell(k, 32);
    c[voxel_index(x, y, z)]
}

/// The corner slot for the sides `(x > 0, y > 0, z > 0)`.
pub open spec fn corner_slot(xp: bool, yp: bool, zp: bool) -> int {
    (if xp { 1int } else { 0 }) + (if yp { 2int } else { 0 }) + (if zp { 4int } else { 0 })
}

/// Which side of `0..32` a coordinate lies on: -1 below, 1 above, 0 inside.
pub open spec fn out_sign(c: int) -> int {
    if c < 0 {
        -1
    } else if c >= 32 {
        1
    } else {
        0
    }
}

/// The voxel at `(x, y, z)`, relative to the center chunk, that a
/// neighborhood holding `n` answers: coordinates inside the chunk come
/// from the center, those outside along one axis from a face slice, along
/// two axes from an edge column, along three from a corner. Whatever is
/// missing reads as air.
#[verifier::opaque]
pub open spec fn lookup(n: NeighborhoodView, x: int, y: int, z: int) -> VoxelTypeId {
    let xo = out_sign(x);
    let yo = out_sign(y);
    let zo = out_sign(z);
    let count = (if xo != 0 { 1int } else { 0 }) + (if yo != 0 { 1int } else { 0 }) + (if zo != 0 { 1int } else { 0 });
    if count == 0 {
        match n.center {
            Some(c) => c[voxel_index(x, y, z)],
            None => VoxelTypeId(0),
        }
    } else if count == 1 {
        let (fi, u, v) = if xo != 0 {
            (if xo < 0 { 1int } else { 0int }, y, z)
        } else if yo != 0 {
            (if yo < 0 { 3int } else { 2int }, x, z)
        } else {
            (if zo < 0 { 5int } else { 4int }, x, y)
        };
        match n.faces[fi] {
            Some(s) => s[v * 32 + u],
            None => VoxelTypeId(0),
        }
    } else if count == 2 {
        let (ei, i) = if zo == 0 {
            (if xo > 0 { if yo > 0 { 0int } else { 1int } } else { if yo > 0 { 4int } else { 5int } }, z)
        } else if yo == 0 {
            (if xo > 0 { if zo > 0 { 2int } else { 3int } } else { if zo > 0 { 6int } else { 7int } }, y)
        } else {
            (if yo > 0 { if zo > 0 { 8int } else { 9int } } else { if zo > 0 { 10int } else { 11int } }, x)
        };
        match n.edges[ei] {
            Some(e) => e[i],
            None => VoxelTypeId(0),
        }
    } else {
        let ci = (if xo > 0 { 1int } else { 0 }) + (if yo > 0 { 2int } else { 0 }) + (if zo > 0 { 4int } else { 0 });
        match n.corners[ci] {
            Some(v) => v,
            None => VoxelTypeId(0),
        }
    }
}

/// Provides voxel access beyond the boundaries of a single chunk: the
/// central chunk's full voxel data plus boundary data from up to 26
/// neighboring chunks (6 face slices, 12 edge columns, 8 corner voxels).
pub struct ChunkNeighborhood {
    center: Option<ChunkData>,
    face_neighbors: [Option<ChunkBoundarySlice>; 6],
    edge_neighbors: [Option<ChunkBoundaryEdge>; 12],
    corner_neighbors: [Option<VoxelTypeId>; 8],
    size: usize,
}

/// The view of an optional slice.
pub open spec fn slice_view(s: Option<ChunkBoundarySlice>) -> Option<Seq<VoxelTypeId>> {
    match s {
        Some(x) => Some(x@),
        None => None,
    }
}

/// The view of an optional edge.
pub open spec fn edge_view(e: Option<ChunkBoundaryEdge>) -> Option<Seq<VoxelTypeId>> {
    match e {
        Some(x) => Some(x@),
        None => None,
    }
}

impl View for ChunkNeighborhood {
    type V = NeighborhoodView;

    closed spec fn view(&self) -> NeighborhoodView {
        NeighborhoodView {
            center: match self.center {
                Some(c) => Some(c@),
                None => None,
            },
            faces: self.face_neighbors@.map_values(|s: Option<ChunkBoundarySlice>| slice_view(s)),
            edges: self.edge_neighbors@.map_values(|e: Option<ChunkBoundaryEdge>| edge_view(e)),
            corners: self.corner_neighbors@,
        }
    }
}

/// A view with nothing loaded.
pub open spec fn empty_view(center: Option<Seq<VoxelTypeId>>) -> NeighborhoodView {
    NeighborhoodView {
        center,
        faces: Seq::new(6, |i: int| None),
        edges: Seq::new(12, |i: int| None),
        corners: Seq::new(8, |i: int| None),
    }
}

/// Every face slice is `32 × 32` and every edge column 32 long.
pub open spec fn view_shaped(n: NeighborhoodView) -> bool {
    &&& n.faces.len() == 6
    &&& n.edges.len() == 12
    &&& n.corners.len() == 8
    &&& forall|i: int| 0 <= i < 6 ==> (#[trigger] n.faces[i] matches Some(s) ==> s.len() == 32 * 32)
    &&& forall|i: int| 0 <= i < 12 ==> (#[trigger] n.edges[i] matches Some(e) ==> e.len() == 32)
    &&& (n.center matches Some(c) ==> c.len() == 32768)
}

impl ChunkNeighborhood {
    /// Face slices are chunk-wide and edges chunk-long.
    #[verifier::type_invariant]
    spec fn well_formed(&self) -> bool {
        &&& self.size == 32
        &&& forall|i: int| 0 <= i < 6 ==> (#[trigger] self.face_neighbors@[i] matches Some(s) ==> s.side() == 32)
        &&& forall|i: int| 0 <= i < 12 ==> (#[trigger] self.edge_neighbors@[i] matches Some(e) ==> e@.len() == 32)
    }

    /// Creates a neighborhood with no center chunk and no neighbors (all air).
    pub fn all_air() -> (r: Self)
        ensures
            r@ == empty_view(None),
    {
        let r = ChunkNeighborhood {
            center: None,
            face_neighbors: [None, None, None, None, None, None],
            edge_neighbors: [None, None, None, None, None, None, None, None, None, None, None, None],
            corner_neighbors: [None, None, None, None, None, None, None, None],
            size: CHUNK_SIZE,
        };
        assert(r@.faces =~= empty_view(None).faces);
        assert(r@.edges =~= empty_view(None).edges);
        assert(r@.corners =~= empty_view(None).corners);
        r
    }

    /// Creates a neighborhood from a center chunk with no neighbors loaded.
    pub fn from_center_only(center: ChunkData) -> (r: Self)
        ensures
            r@ == empty_view(Some(center@)),
    {
        let r = ChunkNeighborhood {
            center: Some(center),
            face_neighbors: [None, None, None, None, None, None],
            edge_neighbors: [None, None, None, None, None, None, None, None, None, None, None, None],
            corner_neighbors: [None, None, None, None, None, None, None, None],
            size: CHUNK_SIZE,
        };
        assert(r@.faces =~= empty_view(None).faces);
        assert(r@.edges =~= empty_view(None).edges);
        assert(r@.corners =~= empty_view(None).corners);
        r
    }

    /// Creates a neighborhood with only the −X face neighbor; all others air.
    pub fn with_neg_x(chunk: ChunkData) -> (r: Self)
        ensures
            r@ == with_face(empty_view(None), 1, Some(slice_of(chunk@, FaceDirection::PosX, 32))),
    {
        let mut n = Self::all_air();
        proof {
            use_type_invariant(&n);
        }
        let slice = extract_boundary_slice(&chunk, FaceDirection::PosX, CHUNK_SIZE);
        n.face_neighbors[1] = Some(slice);
        assert(n@.faces =~= empty_view(None).faces.update(1, Some(slice_of(chunk@, FaceDirection::PosX, 32))));
        n
    }

    /// Sets a face neighbor by direction index (0–5), extracting the boundary
    /// slice from the provided full chunk data; other indices are ignored.
    pub fn set(&mut self, direction_index: usize, chunk: ChunkData)
        ensures
            direction_index < 6 ==> final(self)@ == with_face(
                old(self)@,
                direction_index as int,
                Some(slice_of(chunk@, opposite_spec(face_from_index(direction_index as nat)), 32)),
            ),
            direction_index >= 6 ==> final(self)@ == old(self)@,
    {
        if direction_index < 6 {
            let dir = FaceDirection::ALL[direction_index];
            assert(face_index(dir) == direction_index);
            assert(dir == face_from_index(direction_index as nat));
            self.set_face_neighbor(dir, &chunk);
        }
    }

    /// Sets a face neighbor, extracting only the boundary slice that touches
    /// the center chunk (the neighbor's opposite face).
    pub fn set_face_neighbor(&mut self, direction: FaceDirection, neighbor_chunk: &ChunkData)
        ensures
            final(self)@ == with_face(
                old(self)@,
                face_index(direction) as int,
                Some(slice_of(neighbor_chunk@, opposite_spec(direction), 32)),
            ),
    {
        proof {
            use_type_invariant(&*self);
        }
        let extract_face = direction.opposite();
        let slice = extract_boundary_slice(neighbor_chunk, extract_face, self.size);
        let i = direction.index();
        self.face_neighbors[i] = Some(slice);
        assert(self@.faces =~= old(self)@.faces.update(
            face_index(direction) as int,
            Some(slice_of(neighbor_chunk@, opposite_spec(direction), 32)),
        ));
    }

    /// Sets an edge neighbor, extracting only the boundary edge column of the
    /// neighbor that touches the center chunk.
    pub fn set_edge_neighbor(&mut self, edge: EdgeDirection, neighbor_chunk: &ChunkData)
        ensures
            final(self)@ == with_edge(
                old(self)@,
                edge_index(edge) as int,
                Some(edge_of(neighbor_chunk@, opposite_edge_spec(edge), 32)),
            ),
    {
        proof {
            use_type_invariant(&*self);
        }
        let opposite = opposite_edge(edge);
        let edge_data = extract_boundary_edge(neighbor_chunk, opposite, self.size);
        let i = edge.index();
        self.edge_neighbors[i] = Some(edge_data);
        assert(self@.edges =~= old(self)@.edges.update(
            edge_index(edge) as int,
            Some(edge_of(neighbor_chunk@, opposite_edge_spec(edge), 32)),
        ));
    }

    /// Sets a corner neighbor to a single voxel value.
    pub fn set_corner_neighbor(&mut self, corner: CornerDirection, voxel: VoxelTypeId)
        ensures
            final(self)@ == with_corner(old(self)@, corner_index(corner) as int, Some(voxel)),
    {
        proof {
            use_type_invariant(&*self);
        }
        let i = corner.index();
        self.corner_neighbors[i] = Some(voxel);
        assert(self@.corners =~= old(self)@.corners.update(corner_index(corner) as int, Some(voxel)));
        assert(self@.faces =~= old(self)@.faces);
        assert(self@.edges =~= old(self)@.edges);
    }

    /// Sets a corner neighbor from the corner voxel of a chunk that touches
    /// the center chunk.
    pub fn set_corner_neighbor_from_chunk(&mut self, corner: CornerDirection, neighbor_chunk: &ChunkData)
        ensures
            final(self)@ == with_corner(
                old(self)@,
                corner_index(corner) as int,
                Some(corner_voxel_of(neighbor_chunk@, opposite_corner_spec(corner))),
            ),
    {
        proof {
            use_type_invariant(&*self);
        }
        let opposite = opposite_corner(corner);
        let voxel = extract_corner_voxel(neighbor_chunk, opposite, self.size);
        self.set_corner_neighbor(corner, voxel);
    }

    /// Returns the center chunk data, if available.
    pub fn center(&self) -> (r: Option<&ChunkData>)
        ensures
            r is Some ==> self@.center == Some(r->0@),
            r is None ==> self@.center is None,
    {
        match &self.center {
            Some(c) => Some(c),
            None => None,
        }
    }

    /// Gets a voxel at coordinates relative to the center chunk.
    ///
    /// Coordinates in `[0, size)` are served from the center chunk; those
    /// beyond a boundary from the neighbor on that side. Missing neighbors
    /// read as air.
    pub fn get(&self, x: i32, y: i32, z: i32) -> (r: VoxelTypeId)
        ensures
            r == lookup(self@, x as int, y as int, z as int),
    {
        proof {
            use_type_invariant(self);
            reveal(lookup);
        }
        let s = self.size as i32;
        let x_out: i8 = if x < 0 { -1 } else if x >= s { 1 } else { 0 };
        let y_out: i8 = if y < 0 { -1 } else if y >= s { 1 } else { 0 };
        let z_out: i8 = if z < 0 { -1 } else if z >= s { 1 } else { 0 };
        let out_count: u8 = (if x_out != 0 { 1u8 } else { 0 }) + (if y_out != 0 { 1u8 } else { 0 }) + (if z_out != 0 {
            1u8
        } else {
            0
        });
        if out_count == 0 {
            match &self.center {
                Some(c) => c.get(x as usize, y as usize, z as usize),
                None => VoxelTypeId(0),
            }
        } else if out_count == 1 {
            self.lookup_face(x, y, z, x_out, y_out, z_out)
        } else if out_count == 2 {
            self.lookup_edge(x_out, y_out, z_out, x, y, z)
        } else {
            self.lookup_corner(x_out, y_out, z_out)
        }
    }

    fn lookup_face(&self, x: i32, y: i32, z: i32, x_out: i8, y_out: i8, z_out: i8) -> (r: VoxelTypeId)
        requires
            x_out == out_sign(x as int),
            y_out == out_sign(y as int),
            z_out == out_sign(z as int),
            (if x_out != 0 { 1int } else { 0 }) + (if y_out != 0 { 1int } else { 0 }) + (if z_out != 0 { 1int } else { 0 }) == 1,
        ensures
            r == lookup(self@, x as int, y as int, z as int),
    {
        proof {
            use_type_invariant(self);
            reveal(lookup);
        }
        let (dir_index, u, v): (usize, usize, usize) = if x_out != 0 {
            (if x_out < 0 { 1 } else { 0 }, y as usize, z as usize)
        } else if y_out != 0 {
            (if y_out < 0 { 3 } else { 2 }, x as usize, z as usize)
        } else {
            (if z_out < 0 { 5 } else { 4 }, x as usize, y as usize)
        };
        match &self.face_neighbors[dir_index] {
            Some(slice) => {
                assert(self@.faces[dir_index as int] == Some(slice@));
                slice.get(u, v)
            },
            None => VoxelTypeId(0),
        }
    }

    fn lookup_edge(&self, x_out: i8, y_out: i8, z_out: i8, x: i32, y: i32, z: i32) -> (r: VoxelTypeId)
        requires
            x_out == out_sign(x as int),
            y_out == out_sign(y as int),
            z_out == out_sign(z as int),
            (if x_out != 0 { 1int } else { 0 }) + (if y_out != 0 { 1int } else { 0 }) + (if z_out != 0 { 1int } else { 0 }) == 2,
        ensures
            r == lookup(self@, x as int, y as int, z as int),
    {
        proof {
            use_type_invariant(self);
            reveal(lookup);
        }
        let (edge_idx, in_val): (usize, usize) = if z_out == 0 {
            (if x_out > 0 { if y_out > 0 { 0 } else { 1 } } else { if y_out > 0 { 4 } else { 5 } }, z as usize)
        } else if y_out == 0 {
            (if x_out > 0 { if z_out > 0 { 2 } else { 3 } } else { if z_out > 0 { 6 } else { 7 } }, y as usize)
        } else {
            (if y_out > 0 { if z_out > 0 { 8 } else { 9 } } else { if z_out > 0 { 10 } else { 11 } }, x as usize)
        };
        match &self.edge_neighbors[edge_idx] {
            Some(edge) => {
                assert(self@.edges[edge_idx as int] == Some(edge@));
                edge.get(in_val)
            },
            None => VoxelTypeId(0),
        }
    }

    fn lookup_corner(&self, x_out: i8, y_out: i8, z_out: i8) -> (r: VoxelTypeId)
        ensures
            r == corner_or_air(self@, corner_slot(x_out > 0, y_out > 0, z_out > 0)),
    {
        let idx: usize = (if x_out > 0 { 1usize } else { 0 }) + (if y_out > 0 { 2usize } else { 0 }) + (if z_out > 0 {
            4usize
        } else {
            0
        });
        match self.corner_neighbors[idx] {
            Some(v) => v,
            None => VoxelTypeId(0),
        }
    }
}

/// Returns the edge of the neighbor chunk that touches the center chunk at
/// the given edge.
fn opposite_edge(edge: EdgeDirection) -> (r: EdgeDirection)
    ensures
        r == opposite_edge_spec(edge),
{
    match edge {
        EdgeDirection::PosXPosY => EdgeDirection::NegXNegY,
        EdgeDirection::PosXNegY => EdgeDirection::NegXPosY,
        EdgeDirection::PosXPosZ => EdgeDirection::NegXNegZ,
        EdgeDirection::PosXNegZ => EdgeDirection::NegXPosZ,
        EdgeDirection::NegXPosY => EdgeDirection::PosXNegY,
        EdgeDirection::NegXNegY => EdgeDirection::PosXPosY,
        EdgeDirection::NegXPosZ => EdgeDirection::PosXNegZ,
        EdgeDirection::NegXNegZ => EdgeDirection::PosXPosZ,
        EdgeDirection::PosYPosZ => EdgeDirection::NegYNegZ,
        EdgeDirection::PosYNegZ => EdgeDirection::NegYPosZ,
        EdgeDirection::NegYPosZ => EdgeDirection::PosYNegZ,
        EdgeDirection::NegYNegZ => EdgeDirection::PosYPosZ,
    }
}

/// Returns the opposite corner direction.
fn opposite_corner(corner: CornerDirection) -> (r: CornerDirection)
    ensures
        r == opposite_corner_spec(corner),
{
    match corner {
        CornerDirection::NegXNegYNegZ => CornerDirection::PosXPosYPosZ,
        CornerDirection::PosXNegYNegZ => CornerDirection::NegXPosYPosZ,
        CornerDirection::NegXPosYNegZ => CornerDirection::PosXNegYPosZ,
        CornerDirection::PosXPosYNegZ => CornerDirection::NegXNegYPosZ,
        CornerDirection::NegXNegYPosZ => CornerDirection::PosXPosYNegZ,
        CornerDirection::PosXNegYPosZ => CornerDirection::NegXPosYNegZ,
        CornerDirection::NegXPosYPosZ => CornerDirection::PosXNegYNegZ,
        CornerDirection::PosXPosYPosZ => CornerDirection::NegXNegYNegZ,
    }
}

/// A coordinate one step outside `0..32` moved into the neighboring chunk:
/// `-1` becomes 31 and 32 becomes 0.
pub open spec fn wrap(c: int) -> int {
    if c < 0 {
        c + 32
    } else if c >= 32 {
        c - 32
    } else {
        c
    }
}

/// The cell just beyond face `d` at in-plane coordinates `(a, b)`.
pub open spec fn across_face(d: FaceDirection, a: int, b: int) -> (int, int, int) {
    match d {
        FaceDirection::PosX => (32, a, b),
        FaceDirection::NegX => (-1, a, b),
        FaceDirection::PosY => (a, 32, b),
        FaceDirection::NegY => (a, -1, b),
        FaceDirection::PosZ => (a, b, 32),
        FaceDirection::NegZ => (a, b, -1),
    }
}

/// The cell just beyond edge `e` at position `i` along it.
pub open spec fn across_edge(e: EdgeDirection, i: int) -> (int, int, int) {
    match e {
        EdgeDirection::PosXPosY => (32, 32, i),
        EdgeDirection::PosXNegY => (32, -1, i),
        EdgeDirection::PosXPosZ => (32, i, 32),
        EdgeDirection::PosXNegZ => (32, i, -1),
        EdgeDirection::NegXPosY => (-1, 32, i),
        EdgeDirection::NegXNegY => (-1, -1, i),
        EdgeDirection::NegXPosZ => (-1, i, 32),
        EdgeDirection::NegXNegZ => (-1, i, -1),
        EdgeDirection::PosYPosZ => (i, 32, 32),
        EdgeDirection::PosYNegZ => (i, 32, -1),
        EdgeDirection::NegYPosZ => (i, -1, 32),
        EdgeDirection::NegYNegZ => (i, -1, -1),
    }
}

/// The cell just beyond corner `k`.
pub open spec fn across_corner(k: CornerDirection) -> (int, int, int) {
    match k {
        CornerDirection::NegXNegYNegZ => (-1, -1, -1),
        CornerDirection::PosXNegYNegZ => (32, -1, -1),
        CornerDirection::NegXPosYNegZ => (-1, 32, -1),
        CornerDirection::PosXPosYNegZ => (32, 32, -1),
        CornerDirection::NegXNegYPosZ => (-1, -1, 32),
        CornerDirection::PosXNegYPosZ => (32, -1, 32),
        CornerDirection::NegXPosYPosZ => (-1, 32, 32),
        CornerDirection::PosXPosYPosZ => (32, 32, 32),
    }
}

/// After the face neighbor on side `d` is set to chunk `c`, reading just
/// beyond face `d` gives the voxel of `c` on the other side of the boundary.
pub proof fn lemma_face_neighbor_read(n: NeighborhoodView, d: FaceDirection, c: Seq<VoxelTypeId>, a: int, b: int)
    requires
        n.faces.len() == 6,
        0 <= a < 32,
        0 <= b < 32,
    ensures
        ({
            let n2 = with_face(n, face_index(d) as int, Some(slice_of(c, opposite_spec(d), 32)));
            let (x, y, z) = across_face(d, a, b);
            lookup(n2, x, y, z) == c[voxel_index(wrap(x), wrap(y), wrap(z))]
        }),
{
    reveal(lookup);
    let i = b * 32 + a;
    assert(i / 32 == b && i % 32 == a) by (nonlinear_arith)
        requires i == b * 32 + a, 0 <= a < 32;
    assert(0 <= i < 32 * 32) by (nonlinear_arith)
        requires i == b * 32 + a, 0 <= a < 32, 0 <= b < 32;
}

/// After the edge neighbor at `e` is set to chunk `c`, reading just beyond
/// edge `e` gives the voxel of `c` diagonally across it.
pub proof fn lemma_edge_neighbor_read(n: NeighborhoodView, e: EdgeDirection, c: Seq<VoxelTypeId>, i: int)
    requires
        n.edges.len() == 12,
        0 <= i < 32,
    ensures
        ({
            let n2 = with_edge(n, edge_index(e) as int, Some(edge_of(c, opposite_edge_spec(e), 32)));
            let (x, y, z) = across_edge(e, i);
            lookup(n2, x, y, z) == c[voxel_index(wrap(x), wrap(y), wrap(z))]
        }),
{
    reveal(lookup);
}

/// After the corner neighbor at `k` is set from chunk `c`, reading just
/// beyond corner `k` gives the voxel of `c` diagonally across it.
pub proof fn lemma_corner_neighbor_read(n: NeighborhoodView, k: CornerDirection, c: Seq<VoxelTypeId>)
    requires
        n.corners.len() == 8,
    ensures
        ({
            let n2 = with_corner(n, corner_index(k) as int, Some(corner_voxel_of(c, opposite_corner_spec(k))));
            let (x, y, z) = across_corner(k);
            lookup(n2, x, y, z) == c[voxel_index(wrap(x), wrap(y), wrap(z))]
        }),
{
    reveal(lookup);
}

/// A neighborhood has six face slots, twelve edge slots and eight corner
/// slots.
pub proof fn lemma_view_slots(n: &ChunkNeighborhood)
    ensures
        n@.faces.len() == 6,
        n@.edges.len() == 12,
        n@.corners.len() == 8,
{
}

/// Inside the chunk, a neighborhood reads its center chunk, or air when
/// there is none.
pub proof fn lemma_center_read(n: NeighborhoodView, x: int, y: int, z: int)
    requires
        0 <= x < 32,
        0 <= y < 32,
        0 <= z < 32,
    ensures
        n.center matches Some(c) ==> lookup(n, x, y, z) == c[voxel_index(x, y, z)],
        n.center is None ==> lookup(n, x, y, z) == VoxelTypeId(0),
{
    reveal(lookup);
}

/// With nothing loaded around it, everything outside the chunk reads as air.
pub proof fn lemma_empty_reads_air(center: Option<Seq<VoxelTypeId>>, x: int, y: int, z: int)
    requires
        !(0 <= x < 32 && 0 <= y < 32 && 0 <= z < 32),
    ensures
        lookup(empty_view(center), x, y, z) == VoxelTypeId(0),
{
    reveal(lookup);
}

} // verus!
