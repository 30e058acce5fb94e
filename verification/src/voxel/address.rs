//! Chunk addresses: which chunk of which cube face a chunk is.

use vstd::prelude::*;

verus! {

/// The address of a chunk: its integer coordinates and the cube face it
/// belongs to.
#[derive(Clone, Copy, Debug, PartialEq, Eq, Structural, Hash)]
pub struct ChunkAddress {
    /// Chunk coordinate along x.
    pub x: i64,
    /// Chunk coordinate along y.
    pub y: i64,
    /// Chunk coordinate along z.
    pub z: i64,
    /// Cube face index.
    pub face: u8,
}

impl ChunkAddress {
    /// The chunk at `(x, y, z)` on face `face`.
    pub fn new(x: i64, y: i64, z: i64, face: u8) -> (r: Self)
        ensures
            r == (ChunkAddress { x, y, z, face }),
    {
        ChunkAddress { x, y, z, face }
    }

    /// The chunk `(dx, dy, dz)` chunks away on the same face.
    pub fn offset(self, dx: i64, dy: i64, dz: i64) -> (r: Self)
        requires
            i64::MIN <= self.x + dx <= i64::MAX,
            i64::MIN <= self.y + dy <= i64::MAX,
            i64::MIN <= self.z + dz <= i64::MAX,
        ensures
            r == (ChunkAddress { x: (self.x + dx) as i64, y: (self.y + dy) as i64, z: (self.z + dz) as i64, face: self.face }),
    {
        ChunkAddress { x: self.x + dx, y: self.y + dy, z: self.z + dz, face: self.face }
    }
}

} // verus!
