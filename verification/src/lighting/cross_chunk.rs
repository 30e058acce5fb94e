//! Light propagation across chunk borders through border caches.
//!
//! Once a chunk has propagated its own light, the outermost layer of voxels
//! on each face is copied into a [`BorderLightFace`]. Where a face's copy
//! changed, the neighbouring chunk takes the light in again with
//! [`propagate_cross_chunk`].

use vstd::prelude::*;
use std::collections::VecDeque;
use crate::voxel::types::VoxelTypeId;
use crate::voxel::chunk::{ChunkData, in_chunk, voxel_index};
use crate::voxel::registry::{VoxelTypeRegistry, Transparency, TypeTraits, traits_at};
use crate::lighting::voxel_light::{
    VoxelLight, ChunkLightMap, light_index, channel, with_channel, sun_of, block_of, level_at,
    opaque_at, decay_at, covers, settled, raised, no_lower, pending, unit_step, deficit, decay_into,
    lemma_light_index, lemma_deficit_update, lemma_deficit_nonneg, lemma_settled_mono,
    lemma_covers_kept, lemma_light_index_decode,
};

verus! {

/// Light values along one face of a chunk, 32 × 32 of them; entry `a * 32 + b`
/// holds face position `(a, b)`.
pub type BorderLightFace = Box<[VoxelLight; 1024]>;

/// Border caches for the six faces of a chunk, in the order of [`Face`].
pub struct ChunkBorderLights {
    /// One cache per face.
    pub faces: [BorderLightFace; 6],
}

impl ChunkBorderLights {
    /// An all-dark border cache.
    pub fn new_dark() -> (r: Self)
        ensures
            forall|f: int, i: int| 0 <= f < 6 && 0 <= i < 1024 ==> (#[trigger] r.faces@[f]@[i]).0 == 0,
    {
        let faces = [
            Box::new([VoxelLight(0); 1024]),
            Box::new([VoxelLight(0); 1024]),
            Box::new([VoxelLight(0); 1024]),
            Box::new([VoxelLight(0); 1024]),
            Box::new([VoxelLight(0); 1024]),
            Box::new([VoxelLight(0); 1024]),
        ];
        ChunkBorderLights { faces }
    }
}

/// The six axis-aligned faces of a chunk.
#[derive(Clone, Copy, Debug, PartialEq, Eq, Structural, Hash)]
pub enum Face {
    /// +X
    PosX,
    /// −X
    NegX,
    /// +Y
    PosY,
    /// −Y
    NegY,
    /// +Z
    PosZ,
    /// −Z
    NegZ,
}

/// The face on the other side of a chunk from `f`.
pub open spec fn opposite_face(f: Face) -> Face {
    match f {
        Face::PosX => Face::NegX,
        Face::NegX => Face::PosX,
        Face::PosY => Face::NegY,
        Face::NegY => Face::PosY,
        Face::PosZ => Face::NegZ,
        Face::NegZ => Face::PosZ,
    }
}

impl Face {
    /// The opposite face.
    pub fn opposite(self) -> (r: Face)
        ensures
            r == opposite_face(self),
    {
        match self {
            Face::PosX => Face::NegX,
            Face::NegX => Face::PosX,
            Face::PosY => Face::NegY,
            Face::NegY => Face::PosY,
            Face::PosZ => Face::NegZ,
            Face::NegZ => Face::PosZ,
        }
    }
}

/// The voxel at face position `(a, b)` of face `f`, in the chunk's own
/// coordinates.
pub open spec fn face_voxel(f: Face, a: int, b: int) -> (int, int, int) {
    match f {
        Face::PosX => (31, a, b),
        Face::NegX => (0, a, b),
        Face::PosY => (a, 31, b),
        Face::NegY => (a, 0, b),
        Face::PosZ => (a, b, 31),
        Face::NegZ => (a, b, 0),
    }
}

/// Whether `(x, y, z)` lies in the outermost layer on face `f`.
pub open spec fn on_face(f: Face, x: int, y: int, z: int) -> bool {
    match f {
        Face::PosX => x == 31,
        Face::NegX => x == 0,
        Face::PosY => y == 31,
        Face::NegY => y == 0,
        Face::PosZ => z == 31,
        Face::NegZ => z == 0,
    }
}

/// The border-cache entry of the voxel `(x, y, z)` on face `f`.
pub open spec fn face_slot(f: Face, x: int, y: int, z: int) -> int {
    match f {
        Face::PosX | Face::NegX => y * 32 + z,
        Face::PosY | Face::NegY => x * 32 + z,
        Face::PosZ | Face::NegZ => x * 32 + y,
    }
}

/// Maps face position `(a, b)` to the chunk's coordinates.
fn face_coords(face: Face, a: u32, b: u32) -> (r: (u32, u32, u32))
    requires
        a < 32,
        b < 32,
    ensures
        (r.0 as int, r.1 as int, r.2 as int) == face_voxel(face, a as int, b as int),
{
    match face {
        Face::PosX => (31, a, b),
        Face::NegX => (0, a, b),
        Face::PosY => (a, 31, b),
        Face::NegY => (a, 0, b),
        Face::PosZ => (a, b, 31),
        Face::NegZ => (a, b, 0),
    }
}

impl ChunkLightMap {
    /// The outermost layer of light values on `face`.
    pub fn extract_border(&self, face: Face) -> (r: BorderLightFace)
        ensures
            forall|a: int, b: int|
                0 <= a < 32 && 0 <= b < 32 ==> #[trigger] r@[a * 32 + b] == self@[light_index(
                    face_voxel(face, a, b).0,
                    face_voxel(face, a, b).1,
                    face_voxel(face, a, b).2,
                )],
    {
        let mut border = [VoxelLight(0); 1024];
        let mut a: u32 = 0;
        while a < 32
            invariant
                a <= 32,
                forall|i: int, j: int|
                    0 <= i < a && 0 <= j < 32 ==> #[trigger] border@[i * 32 + j] == self@[light_index(
                        face_voxel(face, i, j).0,
                        face_voxel(face, i, j).1,
                        face_voxel(face, i, j).2,
                    )],
            decreases 32 - a,
        {
            let mut b: u32 = 0;
            while b < 32
                invariant
                    a < 32,
                    b <= 32,
                    forall|i: int, j: int|
                        (0 <= i < a && 0 <= j < 32) || (i == a && 0 <= j < b) ==> #[trigger] border@[i * 32 + j]
                            == self@[light_index(
                            face_voxel(face, i, j).0,
                            face_voxel(face, i, j).1,
                            face_voxel(face, i, j).2,
                        )],
                decreases 32 - b,
            {
                let (x, y, z) = face_coords(face, a, b);
                let v = self.get(x, y, z);
                let ghost before = border@;
                border.set((a * 32 + b) as usize, v);
                proof {
                    assert forall|i: int, j: int|
                        (0 <= i < a && 0 <= j < 32) || (i == a && 0 <= j < b + 1) implies #[trigger] border@[i * 32
                        + j] == self@[light_index(
                        face_voxel(face, i, j).0,
                        face_voxel(face, i, j).1,
                        face_voxel(face, i, j).2,
                    )] by {
                        if i == a && j == b {
                        } else {
                            assert(i * 32 + j != a * 32 + b);
                            assert(border@[i * 32 + j] == before[i * 32 + j]);
                        }
                    }
                }
                b = b + 1;
            }
            a = a + 1;
        }
        Box::new(border)
    }
}

/// Whether two border caches differ in any voxel.
pub fn border_changed(old: &BorderLightFace, new: &BorderLightFace) -> (r: bool)
    ensures
        r == (exists|i: int| 0 <= i < 1024 && #[trigger] old@[i] != new@[i]),
{
    let mut i: usize = 0;
    while i < 1024
        invariant
            i <= 1024,
            forall|k: int| 0 <= k < i ==> #[trigger] old@[k] == new@[k],
        decreases 1024 - i,
    {
        if old[i] != new[i] {
            return true;
        }
        i = i + 1;
    }
    false
}

/// The voxel spreads its light in the two-channel flood: it is a source, or
/// the flood raised either of its levels.
pub open spec fn active_both(
    m0: Seq<VoxelLight>,
    m: Seq<VoxelLight>,
    src: Set<(int, int, int)>,
    x: int,
    y: int,
    z: int,
) -> bool {
    src.contains((x, y, z)) || raised(m0, m, true, x, y, z) || raised(m0, m, false, x, y, z)
}

/// The voxel `(px, py, pz)` spreads light and is bright enough in one
/// channel to have lit `(x, y, z)` to its level in that channel.
pub open spec fn feeds_both(
    m0: Seq<VoxelLight>,
    m: Seq<VoxelLight>,
    sun: bool,
    src: Set<(int, int, int)>,
    vox: Seq<VoxelTypeId>,
    types: Seq<TypeTraits>,
    px: int,
    py: int,
    pz: int,
    x: int,
    y: int,
    z: int,
) -> bool {
    &&& in_chunk(px, py, pz)
    &&& active_both(m0, m, src, px, py, pz)
    &&& level_at(m, sun, px, py, pz) >= level_at(m, sun, x, y, z) + decay_at(vox, types, x, y, z)
}

/// The level of one channel at `(x, y, z)` is owed to light: the voxel lets
/// light in and a neighbour fed it in that channel.
pub open spec fn supported_both(
    m0: Seq<VoxelLight>,
    m: Seq<VoxelLight>,
    sun: bool,
    src: Set<(int, int, int)>,
    vox: Seq<VoxelTypeId>,
    types: Seq<TypeTraits>,
    x: int,
    y: int,
    z: int,
) -> bool {
    &&& !opaque_at(vox, types, x, y, z)
    &&& {
        ||| feeds_both(m0, m, sun, src, vox, types, x + 1, y, z, x, y, z)
        ||| feeds_both(m0, m, sun, src, vox, types, x - 1, y, z, x, y, z)
        ||| feeds_both(m0, m, sun, src, vox, types, x, y + 1, z, x, y, z)
        ||| feeds_both(m0, m, sun, src, vox, types, x, y - 1, z, x, y, z)
        ||| feeds_both(m0, m, sun, src, vox, types, x, y, z + 1, x, y, z)
        ||| feeds_both(m0, m, sun, src, vox, types, x, y, z - 1, x, y, z)
    }
}

/// `m2` leaves the two-channel flood of `m0` from `src` nothing to do: no
/// level is below `m0`, and every voxel that spreads light in `m2` has
/// passed both its levels on to its neighbours.
pub open spec fn both_fixpoint(
    m0: Seq<VoxelLight>,
    m2: Seq<VoxelLight>,
    src: Set<(int, int, int)>,
    vox: Seq<VoxelTypeId>,
    types: Seq<TypeTraits>,
) -> bool {
    &&& m2.len() == 32768
    &&& no_lower(m0, m2, true)
    &&& no_lower(m0, m2, false)
    &&& forall|x: int, y: int, z: int|
        in_chunk(x, y, z) && #[trigger] active_both(m0, m2, src, x, y, z) ==> settled(m2, true, vox, types, x, y, z)
            && settled(m2, false, vox, types, x, y, z)
}

/// No level of either channel of `m` is above that of `m2`.
pub open spec fn below_both(m: Seq<VoxelLight>, m2: Seq<VoxelLight>) -> bool {
    no_lower(m, m2, true) && no_lower(m, m2, false)
}

/// `m` is what flooding both channels of `m0` together from the voxels `src`
/// gives: the least light map that leaves the flood nothing to do. No level
/// falls, every voxel that spreads light has passed both its levels on to its
/// neighbours, every level that rose is owed to a neighbour that spreads
/// light, and no level is above that of any map that leaves the flood nothing
/// to do.
pub open spec fn flood_both_result(
    m0: Seq<VoxelLight>,
    m: Seq<VoxelLight>,
    src: Set<(int, int, int)>,
    vox: Seq<VoxelTypeId>,
    types: Seq<TypeTraits>,
) -> bool {
    &&& m.len() == 32768
    &&& no_lower(m0, m, true)
    &&& no_lower(m0, m, false)
    &&& forall|x: int, y: int, z: int|
        in_chunk(x, y, z) && #[trigger] active_both(m0, m, src, x, y, z) ==> settled(m, true, vox, types, x, y, z)
            && settled(m, false, vox, types, x, y, z)
    &&& forall|x: int, y: int, z: int|
        in_chunk(x, y, z) && #[trigger] raised(m0, m, true, x, y, z) ==> supported_both(
            m0,
            m,
            true,
            src,
            vox,
            types,
            x,
            y,
            z,
        )
    &&& forall|x: int, y: int, z: int|
        in_chunk(x, y, z) && #[trigger] raised(m0, m, false, x, y, z) ==> supported_both(
            m0,
            m,
            false,
            src,
            vox,
            types,
            x,
            y,
            z,
        )
    &&& forall|m2: Seq<VoxelLight>| #[trigger] both_fixpoint(m0, m2, src, vox, types) ==> below_both(m, m2)
}

/// What holds between steps of the two-channel flood; `(ex, ey, ez)` is the
/// voxel being processed.
spec fn both_inv(
    m0: Seq<VoxelLight>,
    m: Seq<VoxelLight>,
    q: Seq<(u32, u32, u32)>,
    src: Set<(int, int, int)>,
    vox: Seq<VoxelTypeId>,
    types: Seq<TypeTraits>,
    ex: int,
    ey: int,
    ez: int,
) -> bool {
    &&& m.len() == 32768
    &&& m0.len() == 32768
    &&& no_lower(m0, m, true)
    &&& no_lower(m0, m, false)
    &&& forall|k: int|
        0 <= k < q.len() ==> in_chunk(#[trigger] q[k].0 as int, q[k].1 as int, q[k].2 as int) && active_both(
            m0,
            m,
            src,
            q[k].0 as int,
            q[k].1 as int,
            q[k].2 as int,
        )
    &&& forall|x: int, y: int, z: int|
        in_chunk(x, y, z) && #[trigger] active_both(m0, m, src, x, y, z) ==> pending(q, x, y, z) || (settled(
            m,
            true,
            vox,
            types,
            x,
            y,
            z,
        ) && settled(m, false, vox, types, x, y, z)) || (x == ex && y == ey && z == ez)
    &&& forall|x: int, y: int, z: int|
        in_chunk(x, y, z) && #[trigger] raised(m0, m, true, x, y, z) ==> supported_both(
            m0,
            m,
            true,
            src,
            vox,
            types,
            x,
            y,
            z,
        )
    &&& forall|x: int, y: int, z: int|
        in_chunk(x, y, z) && #[trigger] raised(m0, m, false, x, y, z) ==> supported_both(
            m0,
            m,
            false,
            src,
            vox,
            types,
            x,
            y,
            z,
        )
    &&& forall|m2: Seq<VoxelLight>| #[trigger] both_fixpoint(m0, m2, src, vox, types) ==> below_both(m, m2)
}

proof fn lemma_active_both_mono(
    m0: Seq<VoxelLight>,
    m: Seq<VoxelLight>,
    mp: Seq<VoxelLight>,
    src: Set<(int, int, int)>,
    x: int,
    y: int,
    z: int,
)
    requires
        in_chunk(x, y, z),
        no_lower(m, mp, true),
        no_lower(m, mp, false),
        active_both(m0, m, src, x, y, z),
    ensures
        active_both(m0, mp, src, x, y, z),
{
    lemma_light_index(x, y, z);
}

proof fn lemma_supported_both_mono(
    m0: Seq<VoxelLight>,
    m: Seq<VoxelLight>,
    mp: Seq<VoxelLight>,
    sun: bool,
    src: Set<(int, int, int)>,
    vox: Seq<VoxelTypeId>,
    types: Seq<TypeTraits>,
    x: int,
    y: int,
    z: int,
)
    requires
        no_lower(m, mp, true),
        no_lower(m, mp, false),
        level_at(mp, sun, x, y, z) == level_at(m, sun, x, y, z),
        supported_both(m0, m, sun, src, vox, types, x, y, z),
    ensures
        supported_both(m0, mp, sun, src, vox, types, x, y, z),
{
    if feeds_both(m0, m, sun, src, vox, types, x + 1, y, z, x, y, z) {
        lemma_active_both_mono(m0, m, mp, src, x + 1, y, z);
        lemma_light_index(x + 1, y, z);
    } else if feeds_both(m0, m, sun, src, vox, types, x - 1, y, z, x, y, z) {
        lemma_active_both_mono(m0, m, mp, src, x - 1, y, z);
        lemma_light_index(x - 1, y, z);
    } else if feeds_both(m0, m, sun, src, vox, types, x, y + 1, z, x, y, z) {
        lemma_active_both_mono(m0, m, mp, src, x, y + 1, z);
        lemma_light_index(x, y + 1, z);
    } else if feeds_both(m0, m, sun, src, vox, types, x, y - 1, z, x, y, z) {
        lemma_active_both_mono(m0, m, mp, src, x, y - 1, z);
        lemma_light_index(x, y - 1, z);
    } else if feeds_both(m0, m, sun, src, vox, types, x, y, z + 1, x, y, z) {
        lemma_active_both_mono(m0, m, mp, src, x, y, z + 1);
        lemma_light_index(x, y, z + 1);
    } else {
        lemma_active_both_mono(m0, m, mp, src, x, y, z - 1);
        lemma_light_index(x, y, z - 1);
    }
}

/// The level one channel of a neighbour has after the light of a voxel at
/// `from` arrives through a voxel that costs `d`, when it was `to` before.
pub open spec fn arrive(from: int, d: int, to: int) -> int {
    if from > d && from - d > to {
        from - d
    } else {
        to
    }
}

/// Raising the neighbour `(jx, jy, jz)` of `(ix, iy, iz)` in one or both
/// channels keeps the two-channel flood invariant.
proof fn lemma_relax_both_push(
    m0: Seq<VoxelLight>,
    m: Seq<VoxelLight>,
    q: Seq<(u32, u32, u32)>,
    mp: Seq<VoxelLight>,
    qp: Seq<(u32, u32, u32)>,
    src: Set<(int, int, int)>,
    vox: Seq<VoxelTypeId>,
    types: Seq<TypeTraits>,
    ix: int,
    iy: int,
    iz: int,
    dx: i64,
    dy: i64,
    dz: i64,
    nb: VoxelLight,
)
    requires
        in_chunk(ix, iy, iz),
        unit_step(dx, dy, dz),
        in_chunk(ix + dx, iy + dy, iz + dz),
        !opaque_at(vox, types, ix + dx, iy + dy, iz + dz),
        both_inv(m0, m, q, src, vox, types, ix, iy, iz),
        active_both(m0, m, src, ix, iy, iz),
        channel(nb, true) == arrive(
            level_at(m, true, ix, iy, iz),
            decay_at(vox, types, ix + dx, iy + dy, iz + dz),
            level_at(m, true, ix + dx, iy + dy, iz + dz),
        ),
        channel(nb, false) == arrive(
            level_at(m, false, ix, iy, iz),
            decay_at(vox, types, ix + dx, iy + dy, iz + dz),
            level_at(m, false, ix + dx, iy + dy, iz + dz),
        ),
        channel(nb, true) > level_at(m, true, ix + dx, iy + dy, iz + dz) || channel(nb, false) > level_at(
            m,
            false,
            ix + dx,
            iy + dy,
            iz + dz,
        ),
        mp == m.update(light_index(ix + dx, iy + dy, iz + dz), nb),
        qp == q.push(((ix + dx) as u32, (iy + dy) as u32, (iz + dz) as u32)),
    ensures
        both_inv(m0, mp, qp, src, vox, types, ix, iy, iz),
        level_at(mp, true, ix, iy, iz) == level_at(m, true, ix, iy, iz),
        level_at(mp, false, ix, iy, iz) == level_at(m, false, ix, iy, iz),
        no_lower(m, mp, true),
        no_lower(m, mp, false),
        covers(mp, true, vox, types, ix, iy, iz, ix + dx, iy + dy, iz + dz),
        covers(mp, false, vox, types, ix, iy, iz, ix + dx, iy + dy, iz + dz),
        qp.len() + 2 * (deficit(mp, true) + deficit(mp, false)) < q.len() + 2 * (deficit(m, true) + deficit(
            m,
            false,
        )),
{
    let (jx, jy, jz) = (ix + dx, iy + dy, iz + dz);
    let idx = light_index(jx, jy, jz);
    lemma_light_index(jx, jy, jz);
    lemma_light_index(ix, iy, iz);
    lemma_deficit_update(m, true, idx, nb);
    lemma_deficit_update(m, false, idx, nb);
    assert(no_lower(m, mp, true)) by {
        assert forall|i: int| 0 <= i < 32768 implies #[trigger] channel(mp[i], true) >= channel(m[i], true) by {
            if i == idx {
            } else {
            }
        }
    }
    assert(no_lower(m, mp, false)) by {
        assert forall|i: int| 0 <= i < 32768 implies #[trigger] channel(mp[i], false) >= channel(m[i], false) by {
            if i == idx {
            } else {
            }
        }
    }
    assert(no_lower(m0, mp, true)) by {
        assert forall|i: int| 0 <= i < 32768 implies #[trigger] channel(mp[i], true) >= channel(m0[i], true) by {
            assert(channel(mp[i], true) >= channel(m[i], true));
        }
    }
    assert(no_lower(m0, mp, false)) by {
        assert forall|i: int| 0 <= i < 32768 implies #[trigger] channel(mp[i], false) >= channel(m0[i], false) by {
            assert(channel(mp[i], false) >= channel(m[i], false));
        }
    }
    assert(active_both(m0, mp, src, jx, jy, jz));
    assert forall|k: int| 0 <= k < qp.len() implies in_chunk(#[trigger] qp[k].0 as int, qp[k].1 as int, qp[k].2 as int)
        && active_both(m0, mp, src, qp[k].0 as int, qp[k].1 as int, qp[k].2 as int) by {
        if k < q.len() {
            assert(qp[k] == q[k]);
            lemma_active_both_mono(m0, m, mp, src, q[k].0 as int, q[k].1 as int, q[k].2 as int);
        } else {
            assert(qp[k] == (jx as u32, jy as u32, jz as u32));
        }
    }
    assert forall|a: int, b: int, c: int| in_chunk(a, b, c) && #[trigger] active_both(m0, mp, src, a, b, c) implies pending(
        qp,
        a,
        b,
        c,
    ) || (settled(mp, true, vox, types, a, b, c) && settled(mp, false, vox, types, a, b, c)) || (a == ix && b == iy
        && c == iz) by {
        if a == jx && b == jy && c == jz {
            assert(qp[q.len() as int] == (jx as u32, jy as u32, jz as u32));
        } else {
            lemma_light_index(a, b, c);
            assert(level_at(mp, true, a, b, c) == level_at(m, true, a, b, c));
            assert(level_at(mp, false, a, b, c) == level_at(m, false, a, b, c));
            assert(active_both(m0, m, src, a, b, c));
            if pending(q, a, b, c) {
                let k = choose|k: int| 0 <= k < q.len() && q[k] == (a as u32, b as u32, c as u32);
                assert(qp[k] == q[k]);
            } else if settled(m, true, vox, types, a, b, c) && settled(m, false, vox, types, a, b, c) {
                lemma_settled_mono(m, mp, true, vox, types, a, b, c);
                lemma_settled_mono(m, mp, false, vox, types, a, b, c);
            }
        }
    }
    assert forall|a: int, b: int, c: int| in_chunk(a, b, c) && #[trigger] raised(m0, mp, true, a, b, c) implies supported_both(
        m0,
        mp,
        true,
        src,
        vox,
        types,
        a,
        b,
        c,
    ) by {
        lemma_light_index(a, b, c);
        if a == jx && b == jy && c == jz && level_at(mp, true, a, b, c) > level_at(m, true, a, b, c) {
            lemma_active_both_mono(m0, m, mp, src, ix, iy, iz);
            assert(feeds_both(m0, mp, true, src, vox, types, ix, iy, iz, a, b, c));
        } else {
            assert(level_at(mp, true, a, b, c) == level_at(m, true, a, b, c));
            assert(raised(m0, m, true, a, b, c));
            lemma_supported_both_mono(m0, m, mp, true, src, vox, types, a, b, c);
        }
    }
    assert forall|a: int, b: int, c: int| in_chunk(a, b, c) && #[trigger] raised(m0, mp, false, a, b, c) implies supported_both(
        m0,
        mp,
        false,
        src,
        vox,
        types,
        a,
        b,
        c,
    ) by {
        lemma_light_index(a, b, c);
        if a == jx && b == jy && c == jz && level_at(mp, false, a, b, c) > level_at(m, false, a, b, c) {
            lemma_active_both_mono(m0, m, mp, src, ix, iy, iz);
            assert(feeds_both(m0, mp, false, src, vox, types, ix, iy, iz, a, b, c));
        } else {
            assert(level_at(mp, false, a, b, c) == level_at(m, false, a, b, c));
            assert(raised(m0, m, false, a, b, c));
            lemma_supported_both_mono(m0, m, mp, false, src, vox, types, a, b, c);
        }
    }
    assert forall|m2: Seq<VoxelLight>| #[trigger] both_fixpoint(m0, m2, src, vox, types) implies below_both(mp, m2) by {
        assert(below_both(m, m2));
        lemma_active_both_mono(m0, m, m2, src, ix, iy, iz);
        assert(settled(m2, true, vox, types, ix, iy, iz));
        assert(settled(m2, false, vox, types, ix, iy, iz));
        assert(level_at(m2, true, ix, iy, iz) >= level_at(m, true, ix, iy, iz));
        assert(level_at(m2, false, ix, iy, iz) >= level_at(m, false, ix, iy, iz));
        assert(level_at(m2, true, jx, jy, jz) >= level_at(m, true, jx, jy, jz));
        assert(level_at(m2, false, jx, jy, jz) >= level_at(m, false, jx, jy, jz));
        assert(covers(m2, true, vox, types, ix, iy, iz, jx, jy, jz));
        assert(covers(m2, false, vox, types, ix, iy, iz, jx, jy, jz));
        assert forall|i: int| 0 <= i < 32768 implies #[trigger] channel(m2[i], true) >= channel(mp[i], true) by {
            if i == idx {
            } else {
                assert(channel(m2[i], true) >= channel(m[i], true));
            }
        }
        assert forall|i: int| 0 <= i < 32768 implies #[trigger] channel(m2[i], false) >= channel(mp[i], false) by {
            if i == idx {
            } else {
                assert(channel(m2[i], false) >= channel(m[i], false));
            }
        }
    }
}

/// Passes both light levels of `(x, y, z)` on to its neighbour one unit step
/// `(dx, dy, dz)` away, queueing the neighbour if either level rose.
fn relax_both(
    chunk: &mut ChunkLightMap,
    queue: &mut VecDeque<(u32, u32, u32)>,
    voxels: &ChunkData,
    registry: &VoxelTypeRegistry,
    x: u32,
    y: u32,
    z: u32,
    dx: i64,
    dy: i64,
    dz: i64,
    Ghost(m0): Ghost<Seq<VoxelLight>>,
    Ghost(src): Ghost<Set<(int, int, int)>>,
)
    requires
        in_chunk(x as int, y as int, z as int),
        unit_step(dx, dy, dz),
        both_inv(m0, old(chunk)@, old(queue)@, src, voxels@, registry@, x as int, y as int, z as int),
        active_both(m0, old(chunk)@, src, x as int, y as int, z as int),
    ensures
        both_inv(m0, final(chunk)@, final(queue)@, src, voxels@, registry@, x as int, y as int, z as int),
        level_at(final(chunk)@, true, x as int, y as int, z as int) == level_at(old(chunk)@, true, x as int, y as int, z as int),
        level_at(final(chunk)@, false, x as int, y as int, z as int) == level_at(old(chunk)@, false, x as int, y as int, z as int),
        no_lower(old(chunk)@, final(chunk)@, true),
        no_lower(old(chunk)@, final(chunk)@, false),
        covers(final(chunk)@, true, voxels@, registry@, x as int, y as int, z as int, x + dx, y + dy, z + dz),
        covers(final(chunk)@, false, voxels@, registry@, x as int, y as int, z as int, x + dx, y + dy, z + dz),
        final(queue)@.len() + 2 * (deficit(final(chunk)@, true) + deficit(final(chunk)@, false)) < old(queue)@.len() + 2
            * (deficit(old(chunk)@, true) + deficit(old(chunk)@, false)) + 1,
{
    let nx = x as i64 + dx;
    let ny = y as i64 + dy;
    let nz = z as i64 + dz;
    if nx < 0 || nx >= 32 || ny < 0 || ny >= 32 || nz < 0 || nz >= 32 {
        return;
    }
    let ux = nx as u32;
    let uy = ny as u32;
    let uz = nz as u32;
    let id = voxels.get(ux as usize, uy as usize, uz as usize);
    if !registry.is_transparent(id) {
        return;
    }
    let decay = decay_into(registry.traits(id));
    let current = chunk.get(x, y, z);
    let bl = current.block_light();
    let sl = current.sunlight();
    let mut neighbor = chunk.get(ux, uy, uz);
    let ghost before = neighbor;
    let mut push = false;
    if bl > decay {
        let new_bl = bl - decay;
        if new_bl > neighbor.block_light() {
            neighbor.set_block_light(new_bl);
            push = true;
        }
    }
    if sl > decay {
        let new_sl = sl - decay;
        if new_sl > neighbor.sunlight() {
            neighbor.set_sunlight(new_sl);
            push = true;
        }
    }
    if push {
        let ghost m = chunk@;
        let ghost q = queue@;
        chunk.set(ux, uy, uz, neighbor);
        queue.push_back((ux, uy, uz));
        proof {
            lemma_relax_both_push(
                m0,
                m,
                q,
                chunk@,
                queue@,
                src,
                voxels@,
                registry@,
                x as int,
                y as int,
                z as int,
                dx,
                dy,
                dz,
                neighbor,
            );
        }
    }
}

/// Breadth-first flood of both channels together: takes voxels from the
/// front of `queue` and passes both their levels on to their neighbours until
/// none is left.
fn flood_both(
    chunk: &mut ChunkLightMap,
    queue: VecDeque<(u32, u32, u32)>,
    voxels: &ChunkData,
    registry: &VoxelTypeRegistry,
    Ghost(m0): Ghost<Seq<VoxelLight>>,
    Ghost(src): Ghost<Set<(int, int, int)>>,
)
    requires
        both_inv(m0, old(chunk)@, queue@, src, voxels@, registry@, -1, -1, -1),
    ensures
        flood_both_result(m0, final(chunk)@, src, voxels@, registry@),
{
    let mut queue = queue;
    while queue.len() > 0
        invariant
            both_inv(m0, chunk@, queue@, src, voxels@, registry@, -1, -1, -1),
        decreases queue@.len() + 2 * (deficit(chunk@, true) + deficit(chunk@, false)),
    {
        proof {
            lemma_deficit_nonneg(chunk@, true);
            lemma_deficit_nonneg(chunk@, false);
        }
        let ghost m_start = chunk@;
        let ghost q_start = queue@;
        let (x, y, z) = queue.pop_front().unwrap();
        let ghost (ix, iy, iz) = (x as int, y as int, z as int);
        proof {
            let q = queue@;
            assert(q_start[0] == (x, y, z));
            assert forall|k: int| 0 <= k < q.len() implies in_chunk(#[trigger] q[k].0 as int, q[k].1 as int, q[k].2 as int)
                && active_both(m0, chunk@, src, q[k].0 as int, q[k].1 as int, q[k].2 as int) by {
                assert(q[k] == q_start[k + 1]);
            }
            assert forall|a: int, b: int, c: int| in_chunk(a, b, c) && #[trigger] active_both(m0, chunk@, src, a, b, c)
                implies pending(q, a, b, c) || (settled(chunk@, true, voxels@, registry@, a, b, c) && settled(
                chunk@,
                false,
                voxels@,
                registry@,
                a,
                b,
                c,
            )) || (a == ix && b == iy && c == iz) by {
                if pending(q_start, a, b, c) {
                    let k = choose|k: int| 0 <= k < q_start.len() && q_start[k] == (a as u32, b as u32, c as u32);
                    if k > 0 {
                        assert(q[k - 1] == q_start[k]);
                    }
                }
            }
        }
        relax_both(chunk, &mut queue, voxels, registry, x, y, z, 1, 0, 0, Ghost(m0), Ghost(src));
        let ghost m1 = chunk@;
        relax_both(chunk, &mut queue, voxels, registry, x, y, z, -1, 0, 0, Ghost(m0), Ghost(src));
        let ghost m2 = chunk@;
        relax_both(chunk, &mut queue, voxels, registry, x, y, z, 0, 1, 0, Ghost(m0), Ghost(src));
        let ghost m3 = chunk@;
        relax_both(chunk, &mut queue, voxels, registry, x, y, z, 0, -1, 0, Ghost(m0), Ghost(src));
        let ghost m4 = chunk@;
        relax_both(chunk, &mut queue, voxels, registry, x, y, z, 0, 0, 1, Ghost(m0), Ghost(src));
        let ghost m5 = chunk@;
        relax_both(chunk, &mut queue, voxels, registry, x, y, z, 0, 0, -1, Ghost(m0), Ghost(src));
        proof {
            let m6 = chunk@;
            assert forall|sun: bool| #[trigger] settled(m6, sun, voxels@, registry@, ix, iy, iz) by {
                lemma_covers_kept(m1, m6, sun, voxels@, registry@, ix, iy, iz, ix + 1, iy, iz);
                lemma_covers_kept(m2, m6, sun, voxels@, registry@, ix, iy, iz, ix - 1, iy, iz);
                lemma_covers_kept(m3, m6, sun, voxels@, registry@, ix, iy, iz, ix, iy + 1, iz);
                lemma_covers_kept(m4, m6, sun, voxels@, registry@, ix, iy, iz, ix, iy - 1, iz);
                lemma_covers_kept(m5, m6, sun, voxels@, registry@, ix, iy, iz, ix, iy, iz + 1);
            }
            assert(settled(m6, true, voxels@, registry@, ix, iy, iz));
            assert(settled(m6, false, voxels@, registry@, ix, iy, iz));
            lemma_deficit_nonneg(m6, true);
            lemma_deficit_nonneg(m6, false);
            assert forall|a: int, b: int, c: int| in_chunk(a, b, c) && #[trigger] active_both(m0, m6, src, a, b, c)
                implies pending(queue@, a, b, c) || (settled(m6, true, voxels@, registry@, a, b, c) && settled(
                m6,
                false,
                voxels@,
                registry@,
                a,
                b,
                c,
            )) || (a == -1 && b == -1 && c == -1) by {
            }
        }
    }
    proof {
        let m = chunk@;
        assert forall|a: int, b: int, c: int| in_chunk(a, b, c) && #[trigger] active_both(m0, m, src, a, b, c) implies settled(
            m,
            true,
            voxels@,
            registry@,
            a,
            b,
            c,
        ) && settled(m, false, voxels@, registry@, a, b, c) by {
            if pending(queue@, a, b, c) {
                let k = choose|k: int| 0 <= k < queue@.len() && queue@[k] == (a as u32, b as u32, c as u32);
            }
        }
    }
}

/// The light value at `(x, y, z)` once the light of a neighbour's border
/// cache `border` has entered through face `f`: each channel of a voxel on
/// that face that lets light in rises to what arrives from the facing
/// neighbour voxel, if that is more. Arriving light loses what entering the
/// voxel costs, except that sunlight entering through the bottom face only
/// loses the extra cost of a semi-transparent voxel.
pub open spec fn entry_value(
    m: Seq<VoxelLight>,
    vox: Seq<VoxelTypeId>,
    types: Seq<TypeTraits>,
    f: Face,
    border: Seq<VoxelLight>,
    x: int,
    y: int,
    z: int,
) -> VoxelLight {
    let l = m[light_index(x, y, z)];
    if on_face(f, x, y, z) && !opaque_at(vox, types, x, y, z) {
        let nb = border[face_slot(f, x, y, z)];
        let d = decay_at(vox, types, x, y, z);
        let ibl = if block_of(nb) > d { block_of(nb) - d } else { 0 };
        let sd = if f == Face::NegY { d - 1 } else { d };
        let isl = if sun_of(nb) > sd { sun_of(nb) - sd } else { 0 };
        let l1 = if ibl > block_of(l) { with_channel(l, false, ibl) } else { l };
        if isl > sun_of(l1) {
            with_channel(l1, true, isl)
        } else {
            l1
        }
    } else {
        l
    }
}

/// All light values once the light of `border` has entered through face `f`.
pub open spec fn entry_light(
    m: Seq<VoxelLight>,
    vox: Seq<VoxelTypeId>,
    types: Seq<TypeTraits>,
    f: Face,
    border: Seq<VoxelLight>,
) -> Seq<VoxelLight> {
    Seq::new(32768, |i: int| entry_value(m, vox, types, f, border, i % 32, i / 1024, (i / 32) % 32))
}

/// The voxels whose light the border light raised: they seed the flood.
pub open spec fn entry_sources(
    m: Seq<VoxelLight>,
    vox: Seq<VoxelTypeId>,
    types: Seq<TypeTraits>,
    f: Face,
    border: Seq<VoxelLight>,
) -> Set<(int, int, int)> {
    Set::new(
        |c: (int, int, int)|
            in_chunk(c.0, c.1, c.2) && entry_value(m, vox, types, f, border, c.0, c.1, c.2) != m[light_index(
                c.0,
                c.1,
                c.2,
            )],
    )
}

/// Whether the face scan, now at face position `(a, b)`, has passed the
/// voxel `(x, y, z)`.
spec fn entered(f: Face, x: int, y: int, z: int, a: int, b: int) -> bool {
    on_face(f, x, y, z) && face_slot(f, x, y, z) < a * 32 + b
}

/// What holds part way through the face scan.
spec fn entry_inv(
    m: Seq<VoxelLight>,
    cur: Seq<VoxelLight>,
    q: Seq<(u32, u32, u32)>,
    vox: Seq<VoxelTypeId>,
    types: Seq<TypeTraits>,
    f: Face,
    border: Seq<VoxelLight>,
    a: int,
    b: int,
) -> bool {
    &&& m.len() == 32768
    &&& cur.len() == 32768
    &&& border.len() == 1024
    &&& forall|x: int, y: int, z: int|
        in_chunk(x, y, z) ==> #[trigger] cur[light_index(x, y, z)] == if entered(f, x, y, z, a, b) {
            entry_value(m, vox, types, f, border, x, y, z)
        } else {
            m[light_index(x, y, z)]
        }
    &&& forall|k: int|
        0 <= k < q.len() ==> in_chunk(#[trigger] q[k].0 as int, q[k].1 as int, q[k].2 as int) && entry_sources(
            m,
            vox,
            types,
            f,
            border,
        ).contains((q[k].0 as int, q[k].1 as int, q[k].2 as int))
    &&& forall|x: int, y: int, z: int|
        in_chunk(x, y, z) && #[trigger] entry_sources(m, vox, types, f, border).contains((x, y, z)) && entered(
            f,
            x,
            y,
            z,
            a,
            b,
        ) ==> pending(q, x, y, z)
}

/// Face position `(a, b)` names exactly one voxel of the face.
proof fn lemma_face_voxel(f: Face, a: int, b: int)
    requires
        0 <= a < 32,
        0 <= b < 32,
    ensures
        in_chunk(face_voxel(f, a, b).0, face_voxel(f, a, b).1, face_voxel(f, a, b).2),
        on_face(f, face_voxel(f, a, b).0, face_voxel(f, a, b).1, face_voxel(f, a, b).2),
        face_slot(f, face_voxel(f, a, b).0, face_voxel(f, a, b).1, face_voxel(f, a, b).2) == a * 32 + b,
        forall|x: int, y: int, z: int|
            in_chunk(x, y, z) && on_face(f, x, y, z) && #[trigger] face_slot(f, x, y, z) == a * 32 + b ==> (x, y, z)
                == face_voxel(f, a, b),
{
}

/// Takes in light from a neighbour's border cache.
///
/// `face` is the face of this chunk that the light enters through: with
/// `Face::NegX` the neighbour lies on the −X side and light enters the x = 0
/// layer. Each voxel of that layer that lets light in takes, per channel, the
/// light that arrives from the facing border voxel if that is more than it
/// has; the voxels that got brighter then seed a breadth-first flood of both
/// channels inside the chunk.
pub fn propagate_cross_chunk(
    chunk: &mut ChunkLightMap,
    voxels: &ChunkData,
    registry: &VoxelTypeRegistry,
    face: Face,
    neighbor_border: &BorderLightFace,
)
    ensures
        flood_both_result(
            entry_light(old(chunk)@, voxels@, registry@, face, neighbor_border@),
            final(chunk)@,
            entry_sources(old(chunk)@, voxels@, registry@, face, neighbor_border@),
            voxels@,
            registry@,
        ),
{
    let ghost m = chunk@;
    let ghost border = neighbor_border@;
    let ghost src = entry_sources(m, voxels@, registry@, face, border);
    let _ = chunk.len();
    let mut queue: VecDeque<(u32, u32, u32)> = VecDeque::new();
    let mut a: u32 = 0;
    while a < 32
        invariant
            a <= 32,
            entry_inv(m, chunk@, queue@, voxels@, registry@, face, border, a as int, 0),
            border == neighbor_border@,
        decreases 32 - a,
    {
        let mut b: u32 = 0;
        while b < 32
            invariant
                a < 32,
                b <= 32,
                entry_inv(m, chunk@, queue@, voxels@, registry@, face, border, a as int, b as int),
                border == neighbor_border@,
            decreases 32 - b,
        {
            let neighbor_light = neighbor_border[(a * 32 + b) as usize];
            let (x, y, z) = face_coords(face, a, b);
            let ghost (ix, iy, iz) = (x as int, y as int, z as int);
            let ghost cur = chunk@;
            let ghost q = queue@;
            proof {
                lemma_face_voxel(face, a as int, b as int);
                lemma_light_index(ix, iy, iz);
            }
            let id = voxels.get(x as usize, y as usize, z as usize);
            if registry.is_transparent(id) {
                let decay_extra: u8 = decay_into(registry.traits(id)) - 1;
                let mut current = chunk.get(x, y, z);
                proof {
                    assert(neighbor_light == border[a * 32 + b]);
                    assert(face_slot(face, ix, iy, iz) == a * 32 + b);
                    assert(neighbor_light == border[face_slot(face, ix, iy, iz)]);
                    assert(1 + decay_extra == decay_at(voxels@, registry@, ix, iy, iz));
                    assert(!opaque_at(voxels@, registry@, ix, iy, iz));
                    assert(on_face(face, ix, iy, iz));
                    assert(!entered(face, ix, iy, iz, a as int, b as int));
                    assert(current == m[light_index(ix, iy, iz)]);
                }
                let mut changed = false;
                let incoming_bl = neighbor_light.block_light().saturating_sub(1 + decay_extra);
                if incoming_bl > current.block_light() {
                    current.set_block_light(incoming_bl);
                    changed = true;
                }
                let sl_decay = if face == Face::NegY {
                    decay_extra
                } else {
                    1 + decay_extra
                };
                let incoming_sl = neighbor_light.sunlight().saturating_sub(sl_decay);
                if incoming_sl > current.sunlight() {
                    current.set_sunlight(incoming_sl);
                    changed = true;
                }
                proof {
                    assert(current == entry_value(m, voxels@, registry@, face, border, ix, iy, iz));
                    assert(changed == (current != m[light_index(ix, iy, iz)]));
                }
                if changed {
                    chunk.set(x, y, z, current);
                    queue.push_back((x, y, z));
                }
                proof {
                    lemma_entry_step(m, cur, q, chunk@, queue@, voxels@, registry@, face, border, a as int, b as int, changed);
                }
            } else {
                proof {
                    lemma_entry_step(m, cur, q, chunk@, queue@, voxels@, registry@, face, border, a as int, b as int, false);
                }
            }
            b = b + 1;
        }
        a = a + 1;
    }
    let ghost m1 = chunk@;
    proof {
        assert forall|i: int| 0 <= i < 32768 implies #[trigger] m1[i] == entry_light(m, voxels@, registry@, face, border)[i] by {
            lemma_light_index_decode(i);
        }
        assert(m1 =~= entry_light(m, voxels@, registry@, face, border));
        let q = queue@;
        assert forall|x2: int, y2: int, z2: int| in_chunk(x2, y2, z2) && #[trigger] active_both(m1, m1, src, x2, y2, z2)
            implies pending(q, x2, y2, z2) || (settled(m1, true, voxels@, registry@, x2, y2, z2) && settled(
            m1,
            false,
            voxels@,
            registry@,
            x2,
            y2,
            z2,
        )) || (x2 == -1 && y2 == -1 && z2 == -1) by {
            assert(src.contains((x2, y2, z2)));
            assert(entered(face, x2, y2, z2, 32, 0));
        }
        assert forall|k: int| 0 <= k < q.len() implies in_chunk(#[trigger] q[k].0 as int, q[k].1 as int, q[k].2 as int)
            && active_both(m1, m1, src, q[k].0 as int, q[k].1 as int, q[k].2 as int) by {
        }
    }
    flood_both(chunk, queue, voxels, registry, Ghost(m1), Ghost(src));
}

/// One step of the face scan, at face position `(a, b)`, keeps the scan
/// invariant; `changed` tells whether the border light raised the voxel there.
proof fn lemma_entry_step(
    m: Seq<VoxelLight>,
    cur: Seq<VoxelLight>,
    q: Seq<(u32, u32, u32)>,
    cur1: Seq<VoxelLight>,
    q1: Seq<(u32, u32, u32)>,
    vox: Seq<VoxelTypeId>,
    types: Seq<TypeTraits>,
    f: Face,
    border: Seq<VoxelLight>,
    a: int,
    b: int,
    changed: bool,
)
    requires
        0 <= a < 32,
        0 <= b < 32,
        entry_inv(m, cur, q, vox, types, f, border, a, b),
        changed == (entry_value(m, vox, types, f, border, face_voxel(f, a, b).0, face_voxel(f, a, b).1, face_voxel(f, a, b).2)
            != m[light_index(face_voxel(f, a, b).0, face_voxel(f, a, b).1, face_voxel(f, a, b).2)]),
        changed ==> cur1 == cur.update(
            light_index(face_voxel(f, a, b).0, face_voxel(f, a, b).1, face_voxel(f, a, b).2),
            entry_value(m, vox, types, f, border, face_voxel(f, a, b).0, face_voxel(f, a, b).1, face_voxel(f, a, b).2),
        ) && q1 == q.push(
            (face_voxel(f, a, b).0 as u32, face_voxel(f, a, b).1 as u32, face_voxel(f, a, b).2 as u32),
        ),
        !changed ==> cur1 == cur && q1 == q,
    ensures
        entry_inv(m, cur1, q1, vox, types, f, border, a, b + 1),
{
    let (ix, iy, iz) = face_voxel(f, a, b);
    let src = entry_sources(m, vox, types, f, border);
    lemma_face_voxel(f, a, b);
    lemma_light_index(ix, iy, iz);
    assert forall|x2: int, y2: int, z2: int| in_chunk(x2, y2, z2) implies #[trigger] cur1[light_index(x2, y2, z2)]
        == if entered(f, x2, y2, z2, a, b + 1) {
        entry_value(m, vox, types, f, border, x2, y2, z2)
    } else {
        m[light_index(x2, y2, z2)]
    } by {
        lemma_light_index(x2, y2, z2);
        if x2 == ix && y2 == iy && z2 == iz {
        } else {
            assert(cur1[light_index(x2, y2, z2)] == cur[light_index(x2, y2, z2)]);
            assert(entered(f, x2, y2, z2, a, b + 1) == entered(f, x2, y2, z2, a, b));
        }
    }
    assert forall|k: int| 0 <= k < q1.len() implies in_chunk(#[trigger] q1[k].0 as int, q1[k].1 as int, q1[k].2 as int)
        && src.contains((q1[k].0 as int, q1[k].1 as int, q1[k].2 as int)) by {
        if k < q.len() {
            assert(q1[k] == q[k]);
        } else {
            assert(q1[k] == (ix as u32, iy as u32, iz as u32));
        }
    }
    assert forall|x2: int, y2: int, z2: int| in_chunk(x2, y2, z2) && #[trigger] src.contains((x2, y2, z2)) && entered(
        f,
        x2,
        y2,
        z2,
        a,
        b + 1,
    ) implies pending(q1, x2, y2, z2) by {
        if x2 == ix && y2 == iy && z2 == iz {
            assert(q1[q.len() as int] == (x2 as u32, y2 as u32, z2 as u32));
        } else {
            assert(entered(f, x2, y2, z2, a, b));
            let k = choose|k: int| 0 <= k < q.len() && q[k] == (x2 as u32, y2 as u32, z2 as u32);
            assert(q1[k] == q[k]);
        }
    }
}

/// The two-channel flood has one result: its contract pins the light map
/// down, whatever order the voxels were taken in.
pub proof fn lemma_flood_both_result_unique(
    m0: Seq<VoxelLight>,
    m: Seq<VoxelLight>,
    mp: Seq<VoxelLight>,
    src: Set<(int, int, int)>,
    vox: Seq<VoxelTypeId>,
    types: Seq<TypeTraits>,
)
    requires
        flood_both_result(m0, m, src, vox, types),
        flood_both_result(m0, mp, src, vox, types),
    ensures
        m == mp,
{
    assert(both_fixpoint(m0, m, src, vox, types));
    assert(both_fixpoint(m0, mp, src, vox, types));
    assert(below_both(m, mp));
    assert(below_both(mp, m));
    assert forall|i: int| 0 <= i < 32768 implies #[trigger] m[i] == mp[i] by {
        assert(channel(m[i], true) >= channel(mp[i], true));
        assert(channel(mp[i], true) >= channel(m[i], true));
        assert(channel(m[i], false) >= channel(mp[i], false));
        assert(channel(mp[i], false) >= channel(m[i], false));
        assert(m[i].0 == mp[i].0);
    }
    assert(m =~= mp);
}

} // verus!
