//! Cardinal directions for voxel geometry: face (6), edge (12), and corner (8).

use vstd::prelude::*;

verus! {

/// One of the six cardinal directions a voxel face can point.
///
/// The direction's index doubles as the bit index inside `VisibleFaces`.
#[derive(Clone, Copy, Debug, PartialEq, Eq, Structural, Hash)]
pub enum FaceDirection {
    /// +X direction.
    PosX,
    /// −X direction.
    NegX,
    /// +Y direction.
    PosY,
    /// −Y direction.
    NegY,
    /// +Z direction.
    PosZ,
    /// −Z direction.
    NegZ,
}

/// The index (0–5) of a face direction.
pub open spec fn face_index(d: FaceDirection) -> nat {
    match d {
        FaceDirection::PosX => 0,
        FaceDirection::NegX => 1,
        FaceDirection::PosY => 2,
        FaceDirection::NegY => 3,
        FaceDirection::PosZ => 4,
        FaceDirection::NegZ => 5,
    }
}

/// The face direction with index `i` (0–5).
pub open spec fn face_from_index(i: nat) -> FaceDirection {
    if i == 0 {
        FaceDirection::PosX
    } else if i == 1 {
        FaceDirection::NegX
    } else if i == 2 {
        FaceDirection::PosY
    } else if i == 3 {
        FaceDirection::NegY
    } else if i == 4 {
        FaceDirection::PosZ
    } else {
        FaceDirection::NegZ
    }
}

/// The sweep axes `(layer, u, v)` of a face direction.
pub open spec fn sweep_axes_spec(d: FaceDirection) -> (usize, usize, usize) {
    match d {
        FaceDirection::PosX | FaceDirection::NegX => (0, 2, 1),
        FaceDirection::PosY | FaceDirection::NegY => (1, 0, 2),
        FaceDirection::PosZ | FaceDirection::NegZ => (2, 0, 1),
    }
}

/// Whether the face points in a positive axis direction.
pub open spec fn is_positive(d: FaceDirection) -> bool {
    d is PosX || d is PosY || d is PosZ
}

/// The unit offset `(dx, dy, dz)` of a face direction.
pub open spec fn face_offset(d: FaceDirection) -> (int, int, int) {
    match d {
        FaceDirection::PosX => (1, 0, 0),
        FaceDirection::NegX => (-1, 0, 0),
        FaceDirection::PosY => (0, 1, 0),
        FaceDirection::NegY => (0, -1, 0),
        FaceDirection::PosZ => (0, 0, 1),
        FaceDirection::NegZ => (0, 0, -1),
    }
}

/// The opposite of a face direction.
pub open spec fn opposite_spec(d: FaceDirection) -> FaceDirection {
    match d {
        FaceDirection::PosX => FaceDirection::NegX,
        FaceDirection::NegX => FaceDirection::PosX,
        FaceDirection::PosY => FaceDirection::NegY,
        FaceDirection::NegY => FaceDirection::PosY,
        FaceDirection::PosZ => FaceDirection::NegZ,
        FaceDirection::NegZ => FaceDirection::PosZ,
    }
}

impl FaceDirection {
    /// All six directions in index order.
    pub const ALL: [FaceDirection; 6] = [
        FaceDirection::PosX,
        FaceDirection::NegX,
        FaceDirection::PosY,
        FaceDirection::NegY,
        FaceDirection::PosZ,
        FaceDirection::NegZ,
    ];

    /// Returns the sweep axes for greedy meshing: `(layer_axis, u_axis, v_axis)`.
    ///
    /// `layer_axis` is perpendicular to the face; `u_axis` and `v_axis` span
    /// the face plane. Each value is 0=X, 1=Y, 2=Z.
    pub fn sweep_axes(self) -> (r: (usize, usize, usize))
        ensures
            r == sweep_axes_spec(self),
    {
        match self {
            FaceDirection::PosX | FaceDirection::NegX => (0, 2, 1),
            FaceDirection::PosY | FaceDirection::NegY => (1, 0, 2),
            FaceDirection::PosZ | FaceDirection::NegZ => (2, 0, 1),
        }
    }

    /// Returns the unit normal of this direction as integer components.
    pub fn normal_components(self) -> (r: [i8; 3])
        ensures
            r@ == seq![face_offset(self).0 as i8, face_offset(self).1 as i8, face_offset(self).2 as i8],
    {
        let r: [i8; 3] = match self {
            FaceDirection::PosX => [1, 0, 0],
            FaceDirection::NegX => [-1, 0, 0],
            FaceDirection::PosY => [0, 1, 0],
            FaceDirection::NegY => [0, -1, 0],
            FaceDirection::PosZ => [0, 0, 1],
            FaceDirection::NegZ => [0, 0, -1],
        };
        assert(r@ =~= seq![face_offset(self).0 as i8, face_offset(self).1 as i8, face_offset(self).2 as i8]);
        r
    }

    /// Returns the neighbor coordinate one step in this direction.
    pub fn offset(self, x: i32, y: i32, z: i32) -> (r: (i32, i32, i32))
        requires
            i32::MIN <= x + face_offset(self).0 <= i32::MAX,
            i32::MIN <= y + face_offset(self).1 <= i32::MAX,
            i32::MIN <= z + face_offset(self).2 <= i32::MAX,
        ensures
            r.0 == x + face_offset(self).0,
            r.1 == y + face_offset(self).1,
            r.2 == z + face_offset(self).2,
    {
        match self {
            FaceDirection::PosX => (x + 1, y, z),
            FaceDirection::NegX => (x - 1, y, z),
            FaceDirection::PosY => (x, y + 1, z),
            FaceDirection::NegY => (x, y - 1, z),
            FaceDirection::PosZ => (x, y, z + 1),
            FaceDirection::NegZ => (x, y, z - 1),
        }
    }

    /// Returns the opposite face direction.
    pub fn opposite(self) -> (r: Self)
        ensures
            r == opposite_spec(self),
    {
        match self {
            FaceDirection::PosX => FaceDirection::NegX,
            FaceDirection::NegX => FaceDirection::PosX,
            FaceDirection::PosY => FaceDirection::NegY,
            FaceDirection::NegY => FaceDirection::PosY,
            FaceDirection::PosZ => FaceDirection::NegZ,
            FaceDirection::NegZ => FaceDirection::PosZ,
        }
    }

    /// Returns the direction index (0–5).
    pub fn index(self) -> (r: usize)
        ensures
            r == face_index(self),
    {
        match self {
            FaceDirection::PosX => 0,
            FaceDirection::NegX => 1,
            FaceDirection::PosY => 2,
            FaceDirection::NegY => 3,
            FaceDirection::PosZ => 4,
            FaceDirection::NegZ => 5,
        }
    }

    /// Decodes a direction from its index; `None` for values above 5.
    pub fn from_u8(v: u8) -> (r: Option<FaceDirection>)
        ensures
            v < 6 ==> r == Some(face_from_index(v as nat)),
            v >= 6 ==> r is None,
    {
        if v == 0 {
            Some(FaceDirection::PosX)
        } else if v == 1 {
            Some(FaceDirection::NegX)
        } else if v == 2 {
            Some(FaceDirection::PosY)
        } else if v == 3 {
            Some(FaceDirection::NegY)
        } else if v == 4 {
            Some(FaceDirection::PosZ)
        } else if v == 5 {
            Some(FaceDirection::NegZ)
        } else {
            None
        }
    }
}

/// Decoding an index gives back the direction, and the opposite of the
/// opposite is the direction itself.
pub proof fn lemma_face_index_roundtrip(d: FaceDirection)
    ensures
        face_from_index(face_index(d)) == d,
        face_index(d) < 6,
        opposite_spec(opposite_spec(d)) == d,
        opposite_spec(d) != d,
        face_offset(opposite_spec(d)).0 == -face_offset(d).0,
        face_offset(opposite_spec(d)).1 == -face_offset(d).1,
        face_offset(opposite_spec(d)).2 == -face_offset(d).2,
        sweep_axes_spec(opposite_spec(d)) == sweep_axes_spec(d),
{
}

/// One of 12 edge-adjacent directions (two axes out of bounds).
#[derive(Clone, Copy, Debug, PartialEq, Eq, Structural, Hash)]
pub enum EdgeDirection {
    /// +X +Y edge.
    PosXPosY,
    /// +X −Y edge.
    PosXNegY,
    /// +X +Z edge.
    PosXPosZ,
    /// +X −Z edge.
    PosXNegZ,
    /// −X +Y edge.
    NegXPosY,
    /// −X −Y edge.
    NegXNegY,
    /// −X +Z edge.
    NegXPosZ,
    /// −X −Z edge.
    NegXNegZ,
    /// +Y +Z edge.
    PosYPosZ,
    /// +Y −Z edge.
    PosYNegZ,
    /// −Y +Z edge.
    NegYPosZ,
    /// −Y −Z edge.
    NegYNegZ,
}

/// The index (0–11) of an edge direction.
pub open spec fn edge_index(d: EdgeDirection) -> nat {
    match d {
        EdgeDirection::PosXPosY => 0,
        EdgeDirection::PosXNegY => 1,
        EdgeDirection::PosXPosZ => 2,
        EdgeDirection::PosXNegZ => 3,
        EdgeDirection::NegXPosY => 4,
        EdgeDirection::NegXNegY => 5,
        EdgeDirection::NegXPosZ => 6,
        EdgeDirection::NegXNegZ => 7,
        EdgeDirection::PosYPosZ => 8,
        EdgeDirection::PosYNegZ => 9,
        EdgeDirection::NegYPosZ => 10,
        EdgeDirection::NegYNegZ => 11,
    }
}

impl EdgeDirection {
    /// All 12 edge directions in index order.
    pub const ALL: [EdgeDirection; 12] = [
        EdgeDirection::PosXPosY,
        EdgeDirection::PosXNegY,
        EdgeDirection::PosXPosZ,
        EdgeDirection::PosXNegZ,
        EdgeDirection::NegXPosY,
        EdgeDirection::NegXNegY,
        EdgeDirection::NegXPosZ,
        EdgeDirection::NegXNegZ,
        EdgeDirection::PosYPosZ,
        EdgeDirection::PosYNegZ,
        EdgeDirection::NegYPosZ,
        EdgeDirection::NegYNegZ,
    ];

    /// Returns the direction index (0–11).
    pub fn index(self) -> (r: usize)
        ensures
            r == edge_index(self),
    {
        match self {
            EdgeDirection::PosXPosY => 0,
            EdgeDirection::PosXNegY => 1,
            EdgeDirection::PosXPosZ => 2,
            EdgeDirection::PosXNegZ => 3,
            EdgeDirection::NegXPosY => 4,
            EdgeDirection::NegXNegY => 5,
            EdgeDirection::NegXPosZ => 6,
            EdgeDirection::NegXNegZ => 7,
            EdgeDirection::PosYPosZ => 8,
            EdgeDirection::PosYNegZ => 9,
            EdgeDirection::NegYPosZ => 10,
            EdgeDirection::NegYNegZ => 11,
        }
    }
}

/// One of 8 corner-adjacent directions (all three axes out of bounds).
#[derive(Clone, Copy, Debug, PartialEq, Eq, Structural, Hash)]
pub enum CornerDirection {
    /// −X −Y −Z corner.
    NegXNegYNegZ,
    /// +X −Y −Z corner.
    PosXNegYNegZ,
    /// −X +Y −Z corner.
    NegXPosYNegZ,
    /// +X +Y −Z corner.
    PosXPosYNegZ,
    /// −X −Y +Z corner.
    NegXNegYPosZ,
    /// +X −Y +Z corner.
    PosXNegYPosZ,
    /// −X +Y +Z corner.
    NegXPosYPosZ,
    /// +X +Y +Z corner.
    PosXPosYPosZ,
}

/// The index (0–7) of a corner direction: bit 0 is +X, bit 1 is +Y, bit 2 is +Z.
pub open spec fn corner_index(d: CornerDirection) -> nat {
    match d {
        CornerDirection::NegXNegYNegZ => 0,
        CornerDirection::PosXNegYNegZ => 1,
        CornerDirection::NegXPosYNegZ => 2,
        CornerDirection::PosXPosYNegZ => 3,
        CornerDirection::NegXNegYPosZ => 4,
        CornerDirection::PosXNegYPosZ => 5,
        CornerDirection::NegXPosYPosZ => 6,
        CornerDirection::PosXPosYPosZ => 7,
    }
}

impl CornerDirection {
    /// All 8 corner directions in index order.
    pub const ALL: [CornerDirection; 8] = [
        CornerDirection::NegXNegYNegZ,
        CornerDirection::PosXNegYNegZ,
        CornerDirection::NegXPosYNegZ,
        CornerDirection::PosXPosYNegZ,
        CornerDirection::NegXNegYPosZ,
        CornerDirection::PosXNegYPosZ,
        CornerDirection::NegXPosYPosZ,
        CornerDirection::PosXPosYPosZ,
    ];

    /// Returns the direction index (0–7).
    pub fn index(self) -> (r: usize)
        ensures
            r == corner_index(self),
    {
        match self {
            CornerDirection::NegXNegYNegZ => 0,
            CornerDirection::PosXNegYNegZ => 1,
            CornerDirection::NegXPosYNegZ => 2,
            CornerDirection::PosXPosYNegZ => 3,
            CornerDirection::NegXNegYPosZ => 4,
            CornerDirection::PosXNegYPosZ => 5,
            CornerDirection::NegXPosYPosZ => 6,
            CornerDirection::PosXPosYPosZ => 7,
        }
    }
}

} // verus!
