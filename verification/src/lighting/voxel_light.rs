//! Per-voxel light storage and flood-fill propagation for sunlight and block
//! light.
//!
//! Each voxel stores two 4-bit light levels packed into one byte: the high
//! nibble for sunlight and the low nibble for block (emissive) light. Light
//! spreads breadth-first, losing 1 per step through fully transparent voxels
//! and 2 through semi-transparent ones; opaque voxels stop it.

use vstd::prelude::*;
use std::collections::VecDeque;
use crate::voxel::types::VoxelTypeId;
use crate::voxel::chunk::{ChunkData, in_chunk, voxel_index};
use crate::voxel::registry::{
    VoxelTypeRegistry, Transparency, TypeTraits, traits_at, is_transparent_spec,
};

verus! {

/// Packed light value: high nibble = sunlight, low nibble = block light.
#[derive(Clone, Copy, Debug, PartialEq, Eq, Structural)]
pub struct VoxelLight(pub u8);

/// The sunlight level held by `l`.
pub open spec fn sun_of(l: VoxelLight) -> int {
    (l.0 / 16) as int
}

/// The block light level held by `l`.
pub open spec fn block_of(l: VoxelLight) -> int {
    (l.0 % 16) as int
}

/// The level of one channel of `l`: sunlight when `sun`, block light otherwise.
pub open spec fn channel(l: VoxelLight, sun: bool) -> int {
    if sun {
        sun_of(l)
    } else {
        block_of(l)
    }
}

/// The level of the channel of `l` that is not the one `sun` selects.
pub open spec fn other_channel(l: VoxelLight, sun: bool) -> int {
    channel(l, !sun)
}

/// `l` with the level of one channel replaced by `level`.
pub open spec fn with_channel(l: VoxelLight, sun: bool, level: int) -> VoxelLight {
    if sun {
        VoxelLight((l.0 % 16 + level * 16) as u8)
    } else {
        VoxelLight(((l.0 / 16) * 16 + level) as u8)
    }
}

impl Default for VoxelLight {
    fn default() -> (r: Self)
        ensures
            r.0 == 0,
    {
        VoxelLight(0)
    }
}

impl VoxelLight {
    /// Maximum light level of either channel.
    pub const MAX_LEVEL: u8 = 15;

    /// The sunlight level (0–15).
    pub fn sunlight(self) -> (r: u8)
        ensures
            r == sun_of(self),
            r <= 15,
    {
        let v = self.0;
        assert(((v >> 4u8) & 0xFu8) == v / 16) by (bit_vector);
        (v >> 4u8) & 0xFu8
    }

    /// The block light level (0–15).
    pub fn block_light(self) -> (r: u8)
        ensures
            r == block_of(self),
            r <= 15,
    {
        let v = self.0;
        assert((v & 0xFu8) == v % 16) by (bit_vector);
        v & 0xFu8
    }

    /// Sets the sunlight level, keeping the block light.
    pub fn set_sunlight(&mut self, level: u8)
        requires
            level <= 15,
        ensures
            *final(self) == with_channel(*old(self), true, level as int),
            sun_of(*final(self)) == level,
            block_of(*final(self)) == block_of(*old(self)),
    {
        let v = self.0;
        assert(((v & 0x0Fu8) | (level << 4u8)) == v % 16 + level * 16) by (bit_vector)
            requires
                level <= 15,
        ;
        self.0 = (v & 0x0Fu8) | (level << 4u8);
    }

    /// Sets the block light level, keeping the sunlight.
    pub fn set_block_light(&mut self, level: u8)
        requires
            level <= 15,
        ensures
            *final(self) == with_channel(*old(self), false, level as int),
            block_of(*final(self)) == level,
            sun_of(*final(self)) == sun_of(*old(self)),
    {
        let v = self.0;
        assert(((v & 0xF0u8) | (level & 0x0Fu8)) == (v / 16) * 16 + level) by (bit_vector)
            requires
                level <= 15,
        ;
        self.0 = (v & 0xF0u8) | (level & 0x0Fu8);
    }
}

/// Reads one channel of `l`.
fn channel_level(l: VoxelLight, sun: bool) -> (r: u8)
    ensures
        r == channel(l, sun),
        r <= 15,
{
    if sun {
        l.sunlight()
    } else {
        l.block_light()
    }
}

/// Writes one channel of `l`.
fn set_channel(l: &mut VoxelLight, sun: bool, level: u8)
    requires
        level <= 15,
    ensures
        *final(l) == with_channel(*old(l), sun, level as int),
        channel(*final(l), sun) == level,
        other_channel(*final(l), sun) == other_channel(*old(l), sun),
{
    if sun {
        l.set_sunlight(level);
    } else {
        l.set_block_light(level);
    }
}

/// Index of `(x, y, z)` in a light map: x varies fastest, then z, then y.
pub open spec fn light_index(x: int, y: int, z: int) -> int {
    y * 1024 + z * 32 + x
}

/// Per-voxel light data of a 32×32×32 chunk.
pub struct ChunkLightMap {
    data: Vec<VoxelLight>,
}

impl View for ChunkLightMap {
    type V = Seq<VoxelLight>;

    closed spec fn view(&self) -> Seq<VoxelLight> {
        self.data@
    }
}

impl ChunkLightMap {
    /// A light map always holds one value per voxel.
    #[verifier::type_invariant]
    spec fn well_formed(&self) -> bool {
        self.data@.len() == 32768
    }

    /// A fully dark light map.
    pub fn new_dark() -> (r: Self)
        ensures
            r@ == Seq::new(32768, |i: int| VoxelLight(0)),
    {
        let mut data: Vec<VoxelLight> = Vec::new();
        let mut i: usize = 0;
        while i < 32768
            invariant
                i <= 32768,
                data@ == Seq::new(i as nat, |j: int| VoxelLight(0)),
            decreases 32768 - i,
        {
            data.push(VoxelLight(0));
            i = i + 1;
            assert(data@ =~= Seq::new(i as nat, |j: int| VoxelLight(0)));
        }
        ChunkLightMap { data }
    }

    /// The number of stored values, always 32768.
    pub fn len(&self) -> (r: usize)
        ensures
            r == self@.len(),
            r == 32768,
    {
        proof {
            use_type_invariant(self);
        }
        self.data.len()
    }

    /// The light value at `(x, y, z)`.
    pub fn get(&self, x: u32, y: u32, z: u32) -> (r: VoxelLight)
        requires
            in_chunk(x as int, y as int, z as int),
        ensures
            r == self@[light_index(x as int, y as int, z as int)],
            self@.len() == 32768,
    {
        proof {
            use_type_invariant(self);
        }
        self.data[(y * 1024 + z * 32 + x) as usize]
    }

    /// Sets the light value at `(x, y, z)`.
    pub fn set(&mut self, x: u32, y: u32, z: u32, light: VoxelLight)
        requires
            in_chunk(x as int, y as int, z as int),
        ensures
            final(self)@ == old(self)@.update(light_index(x as int, y as int, z as int), light),
            final(self)@.len() == 32768,
    {
        proof {
            use_type_invariant(&*self);
        }
        let i = (y * 1024 + z * 32 + x) as usize;
        self.data[i] = light;
    }
}

/// Whether the voxel at `(x, y, z)` stops light.
pub open spec fn opaque_at(vox: Seq<VoxelTypeId>, types: Seq<TypeTraits>, x: int, y: int, z: int) -> bool {
    !is_transparent_spec(types, vox[voxel_index(x, y, z)])
}

/// The light lost on entering the voxel at `(x, y, z)`: 2 for a
/// semi-transparent voxel, 1 otherwise.
pub open spec fn decay_at(vox: Seq<VoxelTypeId>, types: Seq<TypeTraits>, x: int, y: int, z: int) -> int {
    if traits_at(types, vox[voxel_index(x, y, z)]).transparency == Transparency::SemiTransparent {
        2
    } else {
        1
    }
}

/// The level of one channel at `(x, y, z)` in the light values `m`.
pub open spec fn level_at(m: Seq<VoxelLight>, sun: bool, x: int, y: int, z: int) -> int {
    channel(m[light_index(x, y, z)], sun)
}

/// The light at `(x, y, z)` has reached its neighbour `(nx, ny, nz)`: where
/// the neighbour is inside the chunk, lets light in and the light is strong
/// enough to enter it, the neighbour is at least as bright as the light that
/// arrives.
pub open spec fn covers(
    m: Seq<VoxelLight>,
    sun: bool,
    vox: Seq<VoxelTypeId>,
    types: Seq<TypeTraits>,
    x: int,
    y: int,
    z: int,
    nx: int,
    ny: int,
    nz: int,
) -> bool {
    (in_chunk(nx, ny, nz) && !opaque_at(vox, types, nx, ny, nz) && level_at(m, sun, x, y, z)
        > decay_at(vox, types, nx, ny, nz)) ==> level_at(m, sun, nx, ny, nz) >= level_at(m, sun, x, y, z)
        - decay_at(vox, types, nx, ny, nz)
}

/// The light at `(x, y, z)` has reached all six neighbours.
pub open spec fn settled(
    m: Seq<VoxelLight>,
    sun: bool,
    vox: Seq<VoxelTypeId>,
    types: Seq<TypeTraits>,
    x: int,
    y: int,
    z: int,
) -> bool {
    &&& covers(m, sun, vox, types, x, y, z, x + 1, y, z)
    &&& covers(m, sun, vox, types, x, y, z, x - 1, y, z)
    &&& covers(m, sun, vox, types, x, y, z, x, y + 1, z)
    &&& covers(m, sun, vox, types, x, y, z, x, y - 1, z)
    &&& covers(m, sun, vox, types, x, y, z, x, y, z + 1)
    &&& covers(m, sun, vox, types, x, y, z, x, y, z - 1)
}

/// The level at `(x, y, z)` rose above its starting value `m0`.
pub open spec fn raised(m0: Seq<VoxelLight>, m: Seq<VoxelLight>, sun: bool, x: int, y: int, z: int) -> bool {
    level_at(m, sun, x, y, z) > level_at(m0, sun, x, y, z)
}

/// The voxel spreads its light: it is a source or was lit by the flood.
pub open spec fn active(
    m0: Seq<VoxelLight>,
    m: Seq<VoxelLight>,
    sun: bool,
    src: Set<(int, int, int)>,
    x: int,
    y: int,
    z: int,
) -> bool {
    src.contains((x, y, z)) || raised(m0, m, sun, x, y, z)
}

/// The active voxel `(px, py, pz)` is bright enough to have lit `(x, y, z)`
/// to its level.
pub open spec fn feeds(
    m0: Seq<VoxelLight>,
    m: Seq<VoxelLight>,
    sun: bool,
    src: Set<(int, int, int)>,
    vox: Seq<VoxelTypeId>,
    types: Seq<TypeTraits>,
    px: int,
    py: int,
    pz: int,
    x: int,
    y: int,
    z: int,
) -> bool {
    &&& in_chunk(px, py, pz)
    &&& active(m0, m, sun, src, px, py, pz)
    &&& level_at(m, sun, px, py, pz) >= level_at(m, sun, x, y, z) + decay_at(vox, types, x, y, z)
}

/// The level of `(x, y, z)` is owed to light: the voxel lets light in and a
/// neighbour fed it.
pub open spec fn supported(
    m0: Seq<VoxelLight>,
    m: Seq<VoxelLight>,
    sun: bool,
    src: Set<(int, int, int)>,
    vox: Seq<VoxelTypeId>,
    types: Seq<TypeTraits>,
    x: int,
    y: int,
    z: int,
) -> bool {
    &&& !opaque_at(vox, types, x, y, z)
    &&& {
        ||| feeds(m0, m, sun, src, vox, types, x + 1, y, z, x, y, z)
        ||| feeds(m0, m, sun, src, vox, types, x - 1, y, z, x, y, z)
        ||| feeds(m0, m, sun, src, vox, types, x, y + 1, z, x, y, z)
        ||| feeds(m0, m, sun, src, vox, types, x, y - 1, z, x, y, z)
        ||| feeds(m0, m, sun, src, vox, types, x, y, z + 1, x, y, z)
        ||| feeds(m0, m, sun, src, vox, types, x, y, z - 1, x, y, z)
    }
}

/// `m` is what flooding one channel of `m0` from the voxels `src` gives:
/// the other channel is kept, no level falls, every source and every voxel
/// that was lit has passed its light on to its neighbours, and every voxel
/// that was lit owes its level to a neighbour that spreads light.
pub open spec fn flood_result(
    m0: Seq<VoxelLight>,
    m: Seq<VoxelLight>,
    sun: bool,
    src: Set<(int, int, int)>,
    vox: Seq<VoxelTypeId>,
    types: Seq<TypeTraits>,
) -> bool {
    &&& m.len() == 32768
    &&& forall|i: int| 0 <= i < 32768 ==> #[trigger] other_channel(m[i], sun) == other_channel(m0[i], sun)
    &&& forall|i: int| 0 <= i < 32768 ==> #[trigger] channel(m[i], sun) >= channel(m0[i], sun)
    &&& forall|x: int, y: int, z: int|
        in_chunk(x, y, z) && #[trigger] active(m0, m, sun, src, x, y, z) ==> settled(m, sun, vox, types, x, y, z)
    &&& forall|x: int, y: int, z: int|
        in_chunk(x, y, z) && #[trigger] raised(m0, m, sun, x, y, z) ==> supported(m0, m, sun, src, vox, types, x, y, z)
}

/// Sum over all voxels of how far one channel is below 15.
pub open spec fn deficit(m: Seq<VoxelLight>, sun: bool) -> int
    decreases m.len(),
{
    if m.len() == 0 {
        0
    } else {
        deficit(m.drop_last(), sun) + (15 - channel(m.last(), sun))
    }
}

pub(crate) proof fn lemma_deficit_nonneg(m: Seq<VoxelLight>, sun: bool)
    ensures
        deficit(m, sun) >= 0,
    decreases m.len(),
{
    if m.len() > 0 {
        lemma_deficit_nonneg(m.drop_last(), sun);
    }
}

pub(crate) proof fn lemma_deficit_update(m: Seq<VoxelLight>, sun: bool, i: int, v: VoxelLight)
    requires
        0 <= i < m.len(),
    ensures
        deficit(m.update(i, v), sun) == deficit(m, sun) + channel(m[i], sun) - channel(v, sun),
    decreases m.len(),
{
    if i == m.len() - 1 {
        assert(m.update(i, v).drop_last() =~= m.drop_last());
    } else {
        lemma_deficit_update(m.drop_last(), sun, i, v);
        assert(m.update(i, v).drop_last() =~= m.drop_last().update(i, v));
    }
}

/// Distinct voxels of a chunk have distinct light indices.
pub(crate) proof fn lemma_light_index(x: int, y: int, z: int)
    requires
        in_chunk(x, y, z),
    ensures
        0 <= light_index(x, y, z) < 32768,
        forall|a: int, b: int, c: int|
            in_chunk(a, b, c) && #[trigger] light_index(a, b, c) == light_index(x, y, z) ==> a == x && b == y
                && c == z,
{
}

/// Whether `(x, y, z)` waits in the queue `q`.
pub open spec fn pending(q: Seq<(u32, u32, u32)>, x: int, y: int, z: int) -> bool {
    q.contains((x as u32, y as u32, z as u32))
}

/// What holds between flood steps; `(ex, ey, ez)` is the voxel being
/// processed, which need not be settled yet.
spec fn flood_inv(
    m0: Seq<VoxelLight>,
    m: Seq<VoxelLight>,
    q: Seq<(u32, u32, u32)>,
    sun: bool,
    src: Set<(int, int, int)>,
    vox: Seq<VoxelTypeId>,
    types: Seq<TypeTraits>,
    ex: int,
    ey: int,
    ez: int,
) -> bool {
    &&& m.len() == 32768
    &&& m0.len() == 32768
    &&& forall|i: int| 0 <= i < 32768 ==> #[trigger] other_channel(m[i], sun) == other_channel(m0[i], sun)
    &&& forall|i: int| 0 <= i < 32768 ==> #[trigger] channel(m[i], sun) >= channel(m0[i], sun)
    &&& forall|k: int|
        0 <= k < q.len() ==> in_chunk(#[trigger] q[k].0 as int, q[k].1 as int, q[k].2 as int) && active(
            m0,
            m,
            sun,
            src,
            q[k].0 as int,
            q[k].1 as int,
            q[k].2 as int,
        )
    &&& forall|x: int, y: int, z: int|
        in_chunk(x, y, z) && #[trigger] active(m0, m, sun, src, x, y, z) ==> pending(q, x, y, z) || settled(
            m,
            sun,
            vox,
            types,
            x,
            y,
            z,
        ) || (x == ex && y == ey && z == ez)
    &&& forall|x: int, y: int, z: int|
        in_chunk(x, y, z) && #[trigger] raised(m0, m, sun, x, y, z) ==> supported(m0, m, sun, src, vox, types, x, y, z)
}

/// Every level of one channel of `mp` is at least that of `m`.
pub open spec fn no_lower(m: Seq<VoxelLight>, mp: Seq<VoxelLight>, sun: bool) -> bool {
    forall|i: int| 0 <= i < 32768 ==> #[trigger] channel(mp[i], sun) >= channel(m[i], sun)
}

proof fn lemma_active_mono(
    m0: Seq<VoxelLight>,
    m: Seq<VoxelLight>,
    mp: Seq<VoxelLight>,
    sun: bool,
    src: Set<(int, int, int)>,
    x: int,
    y: int,
    z: int,
)
    requires
        in_chunk(x, y, z),
        no_lower(m, mp, sun),
        active(m0, m, sun, src, x, y, z),
    ensures
        active(m0, mp, sun, src, x, y, z),
{
    lemma_light_index(x, y, z);
}

pub(crate) proof fn lemma_settled_mono(
    m: Seq<VoxelLight>,
    mp: Seq<VoxelLight>,
    sun: bool,
    vox: Seq<VoxelTypeId>,
    types: Seq<TypeTraits>,
    x: int,
    y: int,
    z: int,
)
    requires
        no_lower(m, mp, sun),
        level_at(mp, sun, x, y, z) == level_at(m, sun, x, y, z),
        settled(m, sun, vox, types, x, y, z),
    ensures
        settled(mp, sun, vox, types, x, y, z),
{
    assert(in_chunk(x + 1, y, z) ==> level_at(mp, sun, x + 1, y, z) >= level_at(m, sun, x + 1, y, z));
    assert(in_chunk(x - 1, y, z) ==> level_at(mp, sun, x - 1, y, z) >= level_at(m, sun, x - 1, y, z));
    assert(in_chunk(x, y + 1, z) ==> level_at(mp, sun, x, y + 1, z) >= level_at(m, sun, x, y + 1, z));
    assert(in_chunk(x, y - 1, z) ==> level_at(mp, sun, x, y - 1, z) >= level_at(m, sun, x, y - 1, z));
    assert(in_chunk(x, y, z + 1) ==> level_at(mp, sun, x, y, z + 1) >= level_at(m, sun, x, y, z + 1));
    assert(in_chunk(x, y, z - 1) ==> level_at(mp, sun, x, y, z - 1) >= level_at(m, sun, x, y, z - 1));
}

proof fn lemma_feeds_mono(
    m0: Seq<VoxelLight>,
    m: Seq<VoxelLight>,
    mp: Seq<VoxelLight>,
    sun: bool,
    src: Set<(int, int, int)>,
    vox: Seq<VoxelTypeId>,
    types: Seq<TypeTraits>,
    px: int,
    py: int,
    pz: int,
    x: int,
    y: int,
    z: int,
)
    requires
        no_lower(m, mp, sun),
        level_at(mp, sun, x, y, z) == level_at(m, sun, x, y, z),
        feeds(m0, m, sun, src, vox, types, px, py, pz, x, y, z),
    ensures
        feeds(m0, mp, sun, src, vox, types, px, py, pz, x, y, z),
{
    lemma_active_mono(m0, m, mp, sun, src, px, py, pz);
    lemma_light_index(px, py, pz);
}

proof fn lemma_supported_mono(
    m0: Seq<VoxelLight>,
    m: Seq<VoxelLight>,
    mp: Seq<VoxelLight>,
    sun: bool,
    src: Set<(int, int, int)>,
    vox: Seq<VoxelTypeId>,
    types: Seq<TypeTraits>,
    x: int,
    y: int,
    z: int,
)
    requires
        no_lower(m, mp, sun),
        level_at(mp, sun, x, y, z) == level_at(m, sun, x, y, z),
        supported(m0, m, sun, src, vox, types, x, y, z),
    ensures
        supported(m0, mp, sun, src, vox, types, x, y, z),
{
    if feeds(m0, m, sun, src, vox, types, x + 1, y, z, x, y, z) {
        lemma_feeds_mono(m0, m, mp, sun, src, vox, types, x + 1, y, z, x, y, z);
    } else if feeds(m0, m, sun, src, vox, types, x - 1, y, z, x, y, z) {
        lemma_feeds_mono(m0, m, mp, sun, src, vox, types, x - 1, y, z, x, y, z);
    } else if feeds(m0, m, sun, src, vox, types, x, y + 1, z, x, y, z) {
        lemma_feeds_mono(m0, m, mp, sun, src, vox, types, x, y + 1, z, x, y, z);
    } else if feeds(m0, m, sun, src, vox, types, x, y - 1, z, x, y, z) {
        lemma_feeds_mono(m0, m, mp, sun, src, vox, types, x, y - 1, z, x, y, z);
    } else if feeds(m0, m, sun, src, vox, types, x, y, z + 1, x, y, z) {
        lemma_feeds_mono(m0, m, mp, sun, src, vox, types, x, y, z + 1, x, y, z);
    } else {
        lemma_feeds_mono(m0, m, mp, sun, src, vox, types, x, y, z - 1, x, y, z);
    }
}

/// Whether `(dx, dy, dz)` is one of the six unit steps along an axis.
pub open spec fn unit_step(dx: i64, dy: i64, dz: i64) -> bool {
    ||| (dx == 1 && dy == 0 && dz == 0)
    ||| (dx == -1 && dy == 0 && dz == 0)
    ||| (dx == 0 && dy == 1 && dz == 0)
    ||| (dx == 0 && dy == -1 && dz == 0)
    ||| (dx == 0 && dy == 0 && dz == 1)
    ||| (dx == 0 && dy == 0 && dz == -1)
}

/// The light that leaves a voxel at `level` and enters a voxel with the given
/// transparency.
pub(crate) fn decay_into(t: TypeTraits) -> (r: u8)
    ensures
        r == (if t.transparency == Transparency::SemiTransparent { 2int } else { 1int }),
{
    match t.transparency {
        Transparency::SemiTransparent => 2,
        _ => 1,
    }
}

/// Passes the light of `(x, y, z)` on to its neighbour one unit step
/// `(dx, dy, dz)` away, queueing the neighbour if it got brighter.
fn relax(
    chunk: &mut ChunkLightMap,
    queue: &mut VecDeque<(u32, u32, u32)>,
    voxels: &ChunkData,
    registry: &VoxelTypeRegistry,
    sun: bool,
    x: u32,
    y: u32,
    z: u32,
    dx: i64,
    dy: i64,
    dz: i64,
    Ghost(m0): Ghost<Seq<VoxelLight>>,
    Ghost(src): Ghost<Set<(int, int, int)>>,
)
    requires
        in_chunk(x as int, y as int, z as int),
        unit_step(dx, dy, dz),
        flood_inv(m0, old(chunk)@, old(queue)@, sun, src, voxels@, registry@, x as int, y as int, z as int),
        active(m0, old(chunk)@, sun, src, x as int, y as int, z as int),
    ensures
        flood_inv(m0, final(chunk)@, final(queue)@, sun, src, voxels@, registry@, x as int, y as int, z as int),
        level_at(final(chunk)@, sun, x as int, y as int, z as int) == level_at(old(chunk)@, sun, x as int, y as int, z as int),
        no_lower(old(chunk)@, final(chunk)@, sun),
        covers(final(chunk)@, sun, voxels@, registry@, x as int, y as int, z as int, x + dx, y + dy, z + dz),
        final(queue)@.len() + 2 * deficit(final(chunk)@, sun) < old(queue)@.len() + 2 * deficit(old(chunk)@, sun) + 1,
{
    let nx = x as i64 + dx;
    let ny = y as i64 + dy;
    let nz = z as i64 + dz;
    if nx < 0 || nx >= 32 || ny < 0 || ny >= 32 || nz < 0 || nz >= 32 {
        return;
    }
    let ux = nx as u32;
    let uy = ny as u32;
    let uz = nz as u32;
    let id = voxels.get(ux as usize, uy as usize, uz as usize);
    if !registry.is_transparent(id) {
        return;
    }
    let decay = decay_into(registry.traits(id));
    let cur = channel_level(chunk.get(x, y, z), sun);
    if cur <= decay {
        return;
    }
    let new_level = cur - decay;
    let mut l = chunk.get(ux, uy, uz);
    if channel_level(l, sun) >= new_level {
        return;
    }
    let ghost m = chunk@;
    let ghost q = queue@;
    set_channel(&mut l, sun, new_level);
    chunk.set(ux, uy, uz, l);
    queue.push_back((ux, uy, uz));
    proof {
        let mp = chunk@;
        let qp = queue@;
        let (ix, iy, iz) = (x as int, y as int, z as int);
        let (jx, jy, jz) = (nx as int, ny as int, nz as int);
        let idx = light_index(jx, jy, jz);
        lemma_light_index(jx, jy, jz);
        lemma_light_index(ix, iy, iz);
        lemma_deficit_update(m, sun, idx, l);
        assert(mp == m.update(idx, l));
        assert(no_lower(m, mp, sun)) by {
            assert forall|i: int| 0 <= i < 32768 implies #[trigger] channel(mp[i], sun) >= channel(m[i], sun) by {
                if i == idx {
                } else {
                }
            }
        }
        assert forall|i: int| 0 <= i < 32768 implies #[trigger] other_channel(mp[i], sun) == other_channel(m0[i], sun) by {
            if i == idx {
            } else {
            }
        }
        assert forall|i: int| 0 <= i < 32768 implies #[trigger] channel(mp[i], sun) >= channel(m0[i], sun) by {
            assert(channel(mp[i], sun) >= channel(m[i], sun));
        }
        assert(raised(m0, mp, sun, jx, jy, jz));
        assert forall|k: int| 0 <= k < qp.len() implies in_chunk(#[trigger] qp[k].0 as int, qp[k].1 as int, qp[k].2 as int)
            && active(m0, mp, sun, src, qp[k].0 as int, qp[k].1 as int, qp[k].2 as int) by {
            if k < q.len() {
                assert(qp[k] == q[k]);
                lemma_active_mono(m0, m, mp, sun, src, q[k].0 as int, q[k].1 as int, q[k].2 as int);
            } else {
                assert(qp[k] == (ux, uy, uz));
            }
        }
        assert forall|a: int, b: int, c: int| in_chunk(a, b, c) && #[trigger] active(m0, mp, sun, src, a, b, c)
            implies pending(qp, a, b, c) || settled(mp, sun, voxels@, registry@, a, b, c) || (a == ix && b == iy
            && c == iz) by {
            if a == jx && b == jy && c == jz {
                assert(qp[q.len() as int] == (ux, uy, uz));
            } else {
                lemma_light_index(a, b, c);
                assert(level_at(mp, sun, a, b, c) == level_at(m, sun, a, b, c));
                assert(active(m0, m, sun, src, a, b, c));
                if pending(q, a, b, c) {
                    let k = choose|k: int| 0 <= k < q.len() && q[k] == (a as u32, b as u32, c as u32);
                    assert(qp[k] == q[k]);
                } else if settled(m, sun, voxels@, registry@, a, b, c) {
                    lemma_settled_mono(m, mp, sun, voxels@, registry@, a, b, c);
                }
            }
        }
        assert forall|a: int, b: int, c: int| in_chunk(a, b, c) && #[trigger] raised(m0, mp, sun, a, b, c)
            implies supported(m0, mp, sun, src, voxels@, registry@, a, b, c) by {
            if a == jx && b == jy && c == jz {
                lemma_active_mono(m0, m, mp, sun, src, ix, iy, iz);
                assert(feeds(m0, mp, sun, src, voxels@, registry@, ix, iy, iz, a, b, c));
            } else {
                lemma_light_index(a, b, c);
                assert(level_at(mp, sun, a, b, c) == level_at(m, sun, a, b, c));
                assert(raised(m0, m, sun, a, b, c));
                lemma_supported_mono(m0, m, mp, sun, src, voxels@, registry@, a, b, c);
            }
        }
    }
}

/// Breadth-first flood of one channel: takes voxels from the front of
/// `queue` and passes their light to their neighbours until none is left.
fn flood(
    chunk: &mut ChunkLightMap,
    queue: VecDeque<(u32, u32, u32)>,
    voxels: &ChunkData,
    registry: &VoxelTypeRegistry,
    sun: bool,
    Ghost(m0): Ghost<Seq<VoxelLight>>,
    Ghost(src): Ghost<Set<(int, int, int)>>,
)
    requires
        flood_inv(m0, old(chunk)@, queue@, sun, src, voxels@, registry@, -1, -1, -1),
    ensures
        flood_result(m0, final(chunk)@, sun, src, voxels@, registry@),
{
    let mut queue = queue;
    proof {
        lemma_deficit_nonneg(chunk@, sun);
    }
    while queue.len() > 0
        invariant
            flood_inv(m0, chunk@, queue@, sun, src, voxels@, registry@, -1, -1, -1),
        decreases queue@.len() + 2 * deficit(chunk@, sun),
    {
        proof {
            lemma_deficit_nonneg(chunk@, sun);
        }
        let ghost m_start = chunk@;
        let ghost q_start = queue@;
        let (x, y, z) = queue.pop_front().unwrap();
        let ghost (ix, iy, iz) = (x as int, y as int, z as int);
        proof {
            let q = queue@;
            assert(q_start[0] == (x, y, z));
            assert(in_chunk(ix, iy, iz) && active(m0, chunk@, sun, src, ix, iy, iz));
            assert forall|k: int| 0 <= k < q.len() implies in_chunk(#[trigger] q[k].0 as int, q[k].1 as int, q[k].2 as int)
                && active(m0, chunk@, sun, src, q[k].0 as int, q[k].1 as int, q[k].2 as int) by {
                assert(q[k] == q_start[k + 1]);
            }
            assert forall|a: int, b: int, c: int| in_chunk(a, b, c) && #[trigger] active(m0, chunk@, sun, src, a, b, c)
                implies pending(q, a, b, c) || settled(chunk@, sun, voxels@, registry@, a, b, c) || (a == ix && b
                == iy && c == iz) by {
                if pending(q_start, a, b, c) {
                    let k = choose|k: int| 0 <= k < q_start.len() && q_start[k] == (a as u32, b as u32, c as u32);
                    if k > 0 {
                        assert(q[k - 1] == q_start[k]);
                    }
                }
            }
            assert(flood_inv(m0, chunk@, q, sun, src, voxels@, registry@, ix, iy, iz));
        }
        let cur = channel_level(chunk.get(x, y, z), sun);
        if cur > 1 {
            relax(chunk, &mut queue, voxels, registry, sun, x, y, z, 1, 0, 0, Ghost(m0), Ghost(src));
            let ghost m1 = chunk@;
            relax(chunk, &mut queue, voxels, registry, sun, x, y, z, -1, 0, 0, Ghost(m0), Ghost(src));
            let ghost m2 = chunk@;
            relax(chunk, &mut queue, voxels, registry, sun, x, y, z, 0, 1, 0, Ghost(m0), Ghost(src));
            let ghost m3 = chunk@;
            relax(chunk, &mut queue, voxels, registry, sun, x, y, z, 0, -1, 0, Ghost(m0), Ghost(src));
            let ghost m4 = chunk@;
            relax(chunk, &mut queue, voxels, registry, sun, x, y, z, 0, 0, 1, Ghost(m0), Ghost(src));
            let ghost m5 = chunk@;
            relax(chunk, &mut queue, voxels, registry, sun, x, y, z, 0, 0, -1, Ghost(m0), Ghost(src));
            proof {
                let m6 = chunk@;
                assert(settled(m6, sun, voxels@, registry@, ix, iy, iz)) by {
                    lemma_covers_kept(m1, m6, sun, voxels@, registry@, ix, iy, iz, ix + 1, iy, iz);
                    lemma_covers_kept(m2, m6, sun, voxels@, registry@, ix, iy, iz, ix - 1, iy, iz);
                    lemma_covers_kept(m3, m6, sun, voxels@, registry@, ix, iy, iz, ix, iy + 1, iz);
                    lemma_covers_kept(m4, m6, sun, voxels@, registry@, ix, iy, iz, ix, iy - 1, iz);
                    lemma_covers_kept(m5, m6, sun, voxels@, registry@, ix, iy, iz, ix, iy, iz + 1);
                }
            }
        }
        proof {
            let m = chunk@;
            lemma_deficit_nonneg(m, sun);
            assert(queue@.len() + 2 * deficit(m, sun) < q_start.len() + 2 * deficit(m_start, sun));
            assert(settled(m, sun, voxels@, registry@, ix, iy, iz));
            assert forall|a: int, b: int, c: int| in_chunk(a, b, c) && #[trigger] active(m0, m, sun, src, a, b, c)
                implies pending(queue@, a, b, c) || settled(m, sun, voxels@, registry@, a, b, c) || (a == -1 && b
                == -1 && c == -1) by {
            }
        }
    }
    proof {
        let m = chunk@;
        assert forall|a: int, b: int, c: int| in_chunk(a, b, c) && #[trigger] active(m0, m, sun, src, a, b, c)
            implies settled(m, sun, voxels@, registry@, a, b, c) by {
            if pending(queue@, a, b, c) {
                let k = choose|k: int| 0 <= k < queue@.len() && queue@[k] == (a as u32, b as u32, c as u32);
            }
        }
    }
}

/// A neighbour the light of `(x, y, z)` has reached stays reached while the
/// level at `(x, y, z)` holds and no level falls.
pub(crate) proof fn lemma_covers_kept(
    m: Seq<VoxelLight>,
    mp: Seq<VoxelLight>,
    sun: bool,
    vox: Seq<VoxelTypeId>,
    types: Seq<TypeTraits>,
    x: int,
    y: int,
    z: int,
    nx: int,
    ny: int,
    nz: int,
)
    requires
        m.len() == 32768,
        covers(m, sun, vox, types, x, y, z, nx, ny, nz),
        no_lower(m, mp, sun),
        level_at(mp, sun, x, y, z) == level_at(m, sun, x, y, z),
    ensures
        covers(mp, sun, vox, types, x, y, z, nx, ny, nz),
{
    if in_chunk(nx, ny, nz) {
        lemma_light_index(nx, ny, nz);
    }
}

/// The light values `m` after setting the block light of each source in turn
/// to its level; a voxel listed twice keeps the later level.
pub open spec fn seed_all(m: Seq<VoxelLight>, sources: Seq<(u32, u32, u32, u8)>) -> Seq<VoxelLight>
    decreases sources.len(),
{
    if sources.len() == 0 {
        m
    } else {
        let prev = seed_all(m, sources.drop_last());
        let s = sources.last();
        let i = light_index(s.0 as int, s.1 as int, s.2 as int);
        prev.update(i, with_channel(prev[i], false, s.3 as int))
    }
}

/// The voxels named by `sources`.
pub open spec fn source_cells(sources: Seq<(u32, u32, u32, u8)>) -> Set<(int, int, int)> {
    Set::new(
        |c: (int, int, int)|
            exists|k: int|
                0 <= k < sources.len() && c == (#[trigger] sources[k].0 as int, sources[k].1 as int, sources[k].2 as int),
    )
}

/// Whether every source lies in the chunk with a level of at most 15.
pub open spec fn sources_valid(sources: Seq<(u32, u32, u32, u8)>) -> bool {
    forall|k: int|
        0 <= k < sources.len() ==> in_chunk(#[trigger] sources[k].0 as int, sources[k].1 as int, sources[k].2 as int)
            && sources[k].3 <= 15
}

proof fn lemma_seed_all_len(m: Seq<VoxelLight>, sources: Seq<(u32, u32, u32, u8)>)
    requires
        m.len() == 32768,
        sources_valid(sources),
    ensures
        seed_all(m, sources).len() == 32768,
    decreases sources.len(),
{
    if sources.len() > 0 {
        lemma_seed_all_len(m, sources.drop_last());
        let s = sources.last();
        assert(sources[sources.len() - 1] == s);
        lemma_light_index(s.0 as int, s.1 as int, s.2 as int);
    }
}

/// Propagates block light from `sources` by breadth-first flood fill.
///
/// Each source `(x, y, z, level)` first has its block light set to `level`;
/// light then loses 1 per step through fully transparent voxels and 2 through
/// semi-transparent ones, and opaque voxels stop it. Sunlight is untouched.
pub fn propagate_block_light(
    chunk: &mut ChunkLightMap,
    voxels: &ChunkData,
    registry: &VoxelTypeRegistry,
    sources: &[(u32, u32, u32, u8)],
)
    requires
        sources_valid(sources@),
    ensures
        flood_result(
            seed_all(old(chunk)@, sources@),
            final(chunk)@,
            false,
            source_cells(sources@),
            voxels@,
            registry@,
        ),
{
    proof {
        use_type_invariant(&*chunk);
    }
    let ghost m_init = chunk@;
    let mut queue: VecDeque<(u32, u32, u32)> = VecDeque::new();
    let mut i: usize = 0;
    while i < sources.len()
        invariant
            i <= sources@.len(),
            sources_valid(sources@),
            m_init.len() == 32768,
            chunk@ == seed_all(m_init, sources@.take(i as int)),
            queue@.len() == i,
            forall|k: int|
                0 <= k < i ==> #[trigger] queue@[k] == (sources@[k].0, sources@[k].1, sources@[k].2),
        decreases sources@.len() - i,
    {
        let (x, y, z, level) = sources[i];
        assert(in_chunk(sources@[i as int].0 as int, sources@[i as int].1 as int, sources@[i as int].2 as int));
        let mut l = chunk.get(x, y, z);
        l.set_block_light(level);
        chunk.set(x, y, z, l);
        queue.push_back((x, y, z));
        proof {
            assert(sources@.take(i + 1).drop_last() =~= sources@.take(i as int));
            assert(sources@.take(i + 1).last() == sources@[i as int]);
        }
        i = i + 1;
    }
    let ghost m0 = chunk@;
    let ghost src = source_cells(sources@);
    proof {
        assert(sources@.take(sources@.len() as int) =~= sources@);
        lemma_seed_all_len(m_init, sources@);
        let q = queue@;
        assert forall|k: int| 0 <= k < q.len() implies in_chunk(#[trigger] q[k].0 as int, q[k].1 as int, q[k].2 as int)
            && active(m0, m0, false, src, q[k].0 as int, q[k].1 as int, q[k].2 as int) by {
            assert(q[k] == (sources@[k].0, sources@[k].1, sources@[k].2));
            assert(src.contains((q[k].0 as int, q[k].1 as int, q[k].2 as int)));
        }
        assert forall|a: int, b: int, c: int| in_chunk(a, b, c) && #[trigger] active(m0, m0, false, src, a, b, c)
            implies pending(q, a, b, c) || settled(m0, false, voxels@, registry@, a, b, c) || (a == -1 && b == -1
            && c == -1) by {
            assert(src.contains((a, b, c)));
            let k = choose|k: int|
                0 <= k < sources@.len() && (a, b, c) == (#[trigger] sources@[k].0 as int, sources@[k].1 as int,
                sources@[k].2 as int);
            assert(q[k] == (a as u32, b as u32, c as u32));
        }
    }
    flood(chunk, queue, voxels, registry, false, Ghost(m0), Ghost(src));
}

/// No voxel above `(x, y, z)` in its column stops light.
pub open spec fn clear_above(vox: Seq<VoxelTypeId>, types: Seq<TypeTraits>, x: int, y: int, z: int) -> bool {
    forall|h: int| y < h < 32 ==> !#[trigger] opaque_at(vox, types, x, h, z)
}

/// The light value at `(x, y, z)` once sunlight has fallen straight down
/// every column: full where the sky is clear above, none below an opaque
/// voxel; opaque voxels keep their value.
pub open spec fn sky_value(
    m: Seq<VoxelLight>,
    vox: Seq<VoxelTypeId>,
    types: Seq<TypeTraits>,
    x: int,
    y: int,
    z: int,
) -> VoxelLight {
    let l = m[light_index(x, y, z)];
    if opaque_at(vox, types, x, y, z) {
        l
    } else {
        with_channel(l, true, if clear_above(vox, types, x, y, z) { 15 } else { 0 })
    }
}

/// All light values once sunlight has fallen straight down every column.
pub open spec fn sky_light(m: Seq<VoxelLight>, vox: Seq<VoxelTypeId>, types: Seq<TypeTraits>) -> Seq<VoxelLight> {
    Seq::new(32768, |i: int| sky_value(m, vox, types, i % 32, i / 1024, (i / 32) % 32))
}

/// The voxels whose sunlight in `m` is above 1, the ones that spread it.
pub open spec fn sky_sources(m: Seq<VoxelLight>) -> Set<(int, int, int)> {
    Set::new(|c: (int, int, int)| in_chunk(c.0, c.1, c.2) && level_at(m, true, c.0, c.1, c.2) > 1)
}

/// The coordinates of light index `i`.
pub(crate) proof fn lemma_light_index_decode(i: int)
    requires
        0 <= i < 32768,
    ensures
        in_chunk(i % 32, i / 1024, (i / 32) % 32),
        light_index(i % 32, i / 1024, (i / 32) % 32) == i,
{
    assert(0 <= i % 32 < 32 && 0 <= i / 1024 < 32 && 0 <= (i / 32) % 32 < 32) by (nonlinear_arith)
        requires
            0 <= i < 32768,
    ;
    assert((i / 1024) * 1024 + ((i / 32) % 32) * 32 + i % 32 == i) by (nonlinear_arith)
        requires
            0 <= i < 32768,
    ;
}

/// Light index `light_index(x, y, z)` decodes to `(x, y, z)`.
pub(crate) proof fn lemma_light_index_encode(x: int, y: int, z: int)
    requires
        in_chunk(x, y, z),
    ensures
        light_index(x, y, z) % 32 == x,
        light_index(x, y, z) / 1024 == y,
        (light_index(x, y, z) / 32) % 32 == z,
{
    assert((y * 1024 + z * 32 + x) % 32 == x && (y * 1024 + z * 32 + x) / 1024 == y && ((y * 1024 + z * 32 + x)
        / 32) % 32 == z) by (nonlinear_arith)
        requires
            0 <= x < 32 && 0 <= y < 32 && 0 <= z < 32,
    ;
}

/// Which voxels the column pass has written, when it is at column `(x, z)`
/// and has written that column from the top down to height `y`.
spec fn sky_done(a: int, b: int, c: int, x: int, z: int, y: int) -> bool {
    a < x || (a == x && c < z) || (a == x && c == z && b >= y)
}

/// The light values `m` part way through the column pass over `m_init`.
spec fn sky_partial(
    m_init: Seq<VoxelLight>,
    m: Seq<VoxelLight>,
    vox: Seq<VoxelTypeId>,
    types: Seq<TypeTraits>,
    x: int,
    z: int,
    y: int,
) -> bool {
    &&& m.len() == 32768
    &&& m_init.len() == 32768
    &&& forall|a: int, b: int, c: int|
        in_chunk(a, b, c) ==> #[trigger] m[light_index(a, b, c)] == if sky_done(a, b, c, x, z, y) {
            sky_value(m_init, vox, types, a, b, c)
        } else {
            m_init[light_index(a, b, c)]
        }
}

/// Lets sunlight fall straight down every column: 15 from the top through
/// transparent voxels, 0 below the first opaque one.
fn sky_columns(chunk: &mut ChunkLightMap, voxels: &ChunkData, registry: &VoxelTypeRegistry)
    ensures
        final(chunk)@ == sky_light(old(chunk)@, voxels@, registry@),
{
    proof {
        use_type_invariant(&*chunk);
    }
    let ghost m_init = chunk@;
    let mut x: u32 = 0;
    while x < 32
        invariant
            x <= 32,
            sky_partial(m_init, chunk@, voxels@, registry@, x as int, 0, 32),
        decreases 32 - x,
    {
        let mut z: u32 = 0;
        while z < 32
            invariant
                x < 32,
                z <= 32,
                sky_partial(m_init, chunk@, voxels@, registry@, x as int, z as int, 32),
            decreases 32 - z,
        {
            let mut sun_level: u8 = 15;
            let mut yy: u32 = 32;
            while yy > 0
                invariant
                    x < 32,
                    z < 32,
                    yy <= 32,
                    sky_partial(m_init, chunk@, voxels@, registry@, x as int, z as int, yy as int),
                    sun_level == (if clear_above(voxels@, registry@, x as int, yy - 1, z as int) { 15int } else { 0int }),
                decreases yy,
            {
                yy = yy - 1;
                let y = yy;
                let id = voxels.get(x as usize, y as usize, z as usize);
                let ghost m = chunk@;
                if !registry.is_transparent(id) {
                    sun_level = 0;
                    proof {
                        assert(opaque_at(voxels@, registry@, x as int, y as int, z as int));
                        assert(!clear_above(voxels@, registry@, x as int, y - 1, z as int));
                        assert forall|a: int, b: int, c: int| in_chunk(a, b, c) implies #[trigger] m[light_index(a, b, c)]
                            == if sky_done(a, b, c, x as int, z as int, y as int) {
                            sky_value(m_init, voxels@, registry@, a, b, c)
                        } else {
                            m_init[light_index(a, b, c)]
                        } by {
                            if a == x && b == y && c == z {
                            }
                        }
                    }
                } else {
                    let mut l = chunk.get(x, y, z);
                    l.set_sunlight(sun_level);
                    chunk.set(x, y, z, l);
                    proof {
                        let mp = chunk@;
                        lemma_light_index(x as int, y as int, z as int);
                        assert(!opaque_at(voxels@, registry@, x as int, y as int, z as int));
                        assert(clear_above(voxels@, registry@, x as int, y - 1, z as int) == clear_above(
                            voxels@,
                            registry@,
                            x as int,
                            y as int,
                            z as int,
                        )) by {
                            if clear_above(voxels@, registry@, x as int, y as int, z as int) {
                                assert forall|h: int| y - 1 < h < 32 implies !#[trigger] opaque_at(
                                    voxels@,
                                    registry@,
                                    x as int,
                                    h,
                                    z as int,
                                ) by {
                                    if h == y {
                                    }
                                }
                            }
                        }
                        assert forall|a: int, b: int, c: int| in_chunk(a, b, c) implies #[trigger] mp[light_index(a, b, c)]
                            == if sky_done(a, b, c, x as int, z as int, y as int) {
                            sky_value(m_init, voxels@, registry@, a, b, c)
                        } else {
                            m_init[light_index(a, b, c)]
                        } by {
                            if a == x && b == y && c == z {
                            } else {
                                assert(mp[light_index(a, b, c)] == m[light_index(a, b, c)]);
                            }
                        }
                    }
                }
            }
            z = z + 1;
        }
        x = x + 1;
    }
    proof {
        let m = chunk@;
        assert forall|i: int| 0 <= i < 32768 implies #[trigger] m[i] == sky_light(m_init, voxels@, registry@)[i] by {
            lemma_light_index_decode(i);
        }
        assert(m =~= sky_light(m_init, voxels@, registry@));
    }
}

/// Whether `(a, b, c)` comes before `(x, y, z)` in a scan that runs over y,
/// then z, then x.
spec fn scanned_before(a: int, b: int, c: int, x: int, y: int, z: int) -> bool {
    b < y || (b == y && c < z) || (b == y && c == z && a < x)
}

/// What the scan for sunlit voxels has gathered in `q` so far.
spec fn scan_inv(m: Seq<VoxelLight>, q: Seq<(u32, u32, u32)>, x: int, y: int, z: int) -> bool {
    &&& m.len() == 32768
    &&& forall|k: int|
        0 <= k < q.len() ==> in_chunk(#[trigger] q[k].0 as int, q[k].1 as int, q[k].2 as int) && sky_sources(
            m,
        ).contains((q[k].0 as int, q[k].1 as int, q[k].2 as int))
    &&& forall|a: int, b: int, c: int|
        in_chunk(a, b, c) && #[trigger] sky_sources(m).contains((a, b, c)) && scanned_before(a, b, c, x, y, z)
            ==> pending(q, a, b, c)
}

/// Propagates sunlight: it falls from the top of the chunk straight down
/// through transparent voxels at level 15 without loss, stops at the first
/// opaque voxel, and then spreads to the sides breadth-first, losing 1 per
/// step (2 through semi-transparent voxels). Block light is untouched.
pub fn propagate_sunlight(chunk: &mut ChunkLightMap, voxels: &ChunkData, registry: &VoxelTypeRegistry)
    ensures
        flood_result(
            sky_light(old(chunk)@, voxels@, registry@),
            final(chunk)@,
            true,
            sky_sources(sky_light(old(chunk)@, voxels@, registry@)),
            voxels@,
            registry@,
        ),
{
    sky_columns(chunk, voxels, registry);
    proof {
        use_type_invariant(&*chunk);
    }
    let ghost m1 = chunk@;
    let mut queue: VecDeque<(u32, u32, u32)> = VecDeque::new();
    let mut y: u32 = 0;
    while y < 32
        invariant
            y <= 32,
            chunk@ == m1,
            scan_inv(m1, queue@, 0, y as int, 0),
        decreases 32 - y,
    {
        let mut z: u32 = 0;
        while z < 32
            invariant
                y < 32,
                z <= 32,
                chunk@ == m1,
                scan_inv(m1, queue@, 0, y as int, z as int),
            decreases 32 - z,
        {
            let mut x: u32 = 0;
            while x < 32
                invariant
                    y < 32,
                    z < 32,
                    x <= 32,
                    chunk@ == m1,
                    scan_inv(m1, queue@, x as int, y as int, z as int),
                decreases 32 - x,
            {
                let ghost q = queue@;
                if chunk.get(x, y, z).sunlight() > 1 {
                    queue.push_back((x, y, z));
                    proof {
                        let qp = queue@;
                        assert(sky_sources(m1).contains((x as int, y as int, z as int)));
                        assert forall|k: int| 0 <= k < qp.len() implies in_chunk(
                            #[trigger] qp[k].0 as int,
                            qp[k].1 as int,
                            qp[k].2 as int,
                        ) && sky_sources(m1).contains((qp[k].0 as int, qp[k].1 as int, qp[k].2 as int)) by {
                            if k < q.len() {
                                assert(qp[k] == q[k]);
                            }
                        }
                        assert forall|a: int, b: int, c: int| in_chunk(a, b, c) && #[trigger] sky_sources(m1).contains(
                            (a, b, c),
                        ) && scanned_before(a, b, c, x + 1, y as int, z as int) implies pending(qp, a, b, c) by {
                            if a == x && b == y && c == z {
                                assert(qp[q.len() as int] == (x, y, z));
                            } else {
                                let k = choose|k: int| 0 <= k < q.len() && q[k] == (a as u32, b as u32, c as u32);
                                assert(qp[k] == q[k]);
                            }
                        }
                    }
                } else {
                    proof {
                        assert forall|a: int, b: int, c: int| in_chunk(a, b, c) && #[trigger] sky_sources(m1).contains(
                            (a, b, c),
                        ) && scanned_before(a, b, c, x + 1, y as int, z as int) implies pending(q, a, b, c) by {
                            if a == x && b == y && c == z {
                                assert(level_at(m1, true, a, b, c) <= 1);
                            }
                        }
                    }
                }
                x = x + 1;
            }
            z = z + 1;
        }
        y = y + 1;
    }
    let ghost src = sky_sources(m1);
    proof {
        let q = queue@;
        assert forall|a: int, b: int, c: int| in_chunk(a, b, c) && #[trigger] active(m1, m1, true, src, a, b, c)
            implies pending(q, a, b, c) || settled(m1, true, voxels@, registry@, a, b, c) || (a == -1 && b == -1 && c
            == -1) by {
            assert(src.contains((a, b, c)));
            assert(scanned_before(a, b, c, 0, 32, 0));
        }
        assert forall|k: int| 0 <= k < q.len() implies in_chunk(#[trigger] q[k].0 as int, q[k].1 as int, q[k].2 as int)
            && active(m1, m1, true, src, q[k].0 as int, q[k].1 as int, q[k].2 as int) by {
        }
    }
    flood(chunk, queue, voxels, registry, true, Ghost(m1), Ghost(src));
}

/// The block light at `(x, y, z)` was cleared: lit in `m`, dark in `m1`.
pub open spec fn cleared(m: Seq<VoxelLight>, m1: Seq<VoxelLight>, x: int, y: int, z: int) -> bool {
    level_at(m, false, x, y, z) > 0 && level_at(m1, false, x, y, z) == 0
}

/// `r` holds the voxel `(x, y, z)` with block level `v`.
pub open spec fn relit(r: Seq<(u32, u32, u32, u8)>, x: int, y: int, z: int, v: int) -> bool {
    exists|k: int| 0 <= k < r.len() && #[trigger] r[k] == (x as u32, y as u32, z as u32, v as u8)
}

/// What clearing the voxel `(px, py, pz)` did to its neighbour
/// `(nx, ny, nz)`: a dimmer lit neighbour was cleared too, and a neighbour at
/// least as bright that stayed lit was kept to light the cleared region again.
pub open spec fn clear_step(
    m: Seq<VoxelLight>,
    m1: Seq<VoxelLight>,
    r: Seq<(u32, u32, u32, u8)>,
    px: int,
    py: int,
    pz: int,
    nx: int,
    ny: int,
    nz: int,
) -> bool {
    in_chunk(nx, ny, nz) ==> {
        &&& (0 < level_at(m, false, nx, ny, nz) < level_at(m, false, px, py, pz) ==> cleared(m, m1, nx, ny, nz))
        &&& (level_at(m, false, nx, ny, nz) >= level_at(m, false, px, py, pz) && !cleared(m, m1, nx, ny, nz)
            ==> relit(r, nx, ny, nz, level_at(m, false, nx, ny, nz)))
    }
}

/// Clearing `(x, y, z)` was passed on to all six neighbours.
#[verifier::opaque]
pub open spec fn clear_spread(
    m: Seq<VoxelLight>,
    m1: Seq<VoxelLight>,
    r: Seq<(u32, u32, u32, u8)>,
    x: int,
    y: int,
    z: int,
) -> bool {
    &&& clear_step(m, m1, r, x, y, z, x + 1, y, z)
    &&& clear_step(m, m1, r, x, y, z, x - 1, y, z)
    &&& clear_step(m, m1, r, x, y, z, x, y + 1, z)
    &&& clear_step(m, m1, r, x, y, z, x, y - 1, z)
    &&& clear_step(m, m1, r, x, y, z, x, y, z + 1)
    &&& clear_step(m, m1, r, x, y, z, x, y, z - 1)
}

/// `(px, py, pz)` is a cleared voxel in the chunk whose old block level
/// relates to `v` by `brighter`: above `v` when `brighter`, at most `v`
/// otherwise.
pub open spec fn cleared_next(
    m: Seq<VoxelLight>,
    m1: Seq<VoxelLight>,
    px: int,
    py: int,
    pz: int,
    v: int,
    brighter: bool,
) -> bool {
    &&& in_chunk(px, py, pz)
    &&& cleared(m, m1, px, py, pz)
    &&& if brighter {
        level_at(m, false, px, py, pz) > v
    } else {
        level_at(m, false, px, py, pz) <= v
    }
}

/// A neighbour of `(x, y, z)` is cleared and relates to `v` by `brighter`.
#[verifier::opaque]
pub open spec fn cleared_beside(
    m: Seq<VoxelLight>,
    m1: Seq<VoxelLight>,
    x: int,
    y: int,
    z: int,
    v: int,
    brighter: bool,
) -> bool {
    ||| cleared_next(m, m1, x + 1, y, z, v, brighter)
    ||| cleared_next(m, m1, x - 1, y, z, v, brighter)
    ||| cleared_next(m, m1, x, y + 1, z, v, brighter)
    ||| cleared_next(m, m1, x, y - 1, z, v, brighter)
    ||| cleared_next(m, m1, x, y, z + 1, v, brighter)
    ||| cleared_next(m, m1, x, y, z - 1, v, brighter)
}

/// The entry `e` of a relight list is a lit voxel of the chunk, with its
/// block level in `m`, beside a cleared voxel that was not brighter.
#[verifier::opaque]
pub open spec fn relight_entry(m: Seq<VoxelLight>, m1: Seq<VoxelLight>, e: (u32, u32, u32, u8)) -> bool {
    &&& in_chunk(e.0 as int, e.1 as int, e.2 as int)
    &&& e.3 as int == level_at(m, false, e.0 as int, e.1 as int, e.2 as int)
    &&& e.3 > 0
    &&& cleared_beside(m, m1, e.0 as int, e.1 as int, e.2 as int, e.3 as int, false)
}

/// `m1` is `m` with the block light that `(x, y, z)` spread cleared, and `r`
/// lists the still-lit voxels at the border of the cleared region: the voxel
/// itself is cleared; a voxel is only ever cleared, never changed otherwise;
/// every cleared voxel has passed the clearing on to its neighbours; every
/// cleared voxel but the first is beside a brighter cleared voxel; and every
/// entry of `r` is a lit voxel beside a cleared one that was not brighter.
pub open spec fn darkened(
    m: Seq<VoxelLight>,
    x: int,
    y: int,
    z: int,
    m1: Seq<VoxelLight>,
    r: Seq<(u32, u32, u32, u8)>,
) -> bool {
    &&& m1.len() == 32768
    &&& forall|i: int| 0 <= i < 32768 ==> #[trigger] sun_of(m1[i]) == sun_of(m[i])
    &&& forall|a: int, b: int, c: int|
        in_chunk(a, b, c) ==> #[trigger] level_at(m1, false, a, b, c) == level_at(m, false, a, b, c) || cleared(
            m,
            m1,
            a,
            b,
            c,
        )
    &&& cleared(m, m1, x, y, z)
    &&& forall|a: int, b: int, c: int|
        in_chunk(a, b, c) && #[trigger] cleared(m, m1, a, b, c) ==> clear_spread(m, m1, r, a, b, c)
    &&& forall|a: int, b: int, c: int|
        in_chunk(a, b, c) && #[trigger] cleared(m, m1, a, b, c) && !(a == x && b == y && c == z) ==> cleared_beside(
            m,
            m1,
            a,
            b,
            c,
            level_at(m, false, a, b, c),
            true,
        )
    &&& forall|k: int| 0 <= k < r.len() ==> #[trigger] relight_entry(m, m1, r[k])
}

/// Whether the clearing-queue entry `e` names `(x, y, z)`.
spec fn names(e: (u32, u32, u32, u8), x: int, y: int, z: int) -> bool {
    e.0 == x as u32 && e.1 == y as u32 && e.2 == z as u32
}

/// Whether `(x, y, z)` waits, with some level, in the clearing queue `q`.
spec fn queued(q: Seq<(u32, u32, u32, u8)>, x: int, y: int, z: int) -> bool {
    exists|k: int| 0 <= k < q.len() && names(#[trigger] q[k], x, y, z)
}

/// Whether `(jx, jy, jz)` is one unit step from `(ix, iy, iz)`.
spec fn adjacent(ix: int, iy: int, iz: int, jx: int, jy: int, jz: int) -> bool {
    ||| (jx == ix + 1 && jy == iy && jz == iz)
    ||| (jx == ix - 1 && jy == iy && jz == iz)
    ||| (jx == ix && jy == iy + 1 && jz == iz)
    ||| (jx == ix && jy == iy - 1 && jz == iz)
    ||| (jx == ix && jy == iy && jz == iz + 1)
    ||| (jx == ix && jy == iy && jz == iz - 1)
}

/// What holds between clearing steps that start from `(sx, sy, sz)`;
/// `(ex, ey, ez)` is the voxel being processed.
spec fn dark_inv(
    m: Seq<VoxelLight>,
    cur: Seq<VoxelLight>,
    q: Seq<(u32, u32, u32, u8)>,
    r: Seq<(u32, u32, u32, u8)>,
    sx: int,
    sy: int,
    sz: int,
    ex: int,
    ey: int,
    ez: int,
) -> bool {
    &&& m.len() == 32768
    &&& cur.len() == 32768
    &&& forall|i: int| 0 <= i < 32768 ==> #[trigger] sun_of(cur[i]) == sun_of(m[i])
    &&& forall|a: int, b: int, c: int|
        in_chunk(a, b, c) ==> #[trigger] level_at(cur, false, a, b, c) == level_at(m, false, a, b, c) || cleared(
            m,
            cur,
            a,
            b,
            c,
        )
    &&& in_chunk(sx, sy, sz)
    &&& cleared(m, cur, sx, sy, sz)
    &&& forall|a: int, b: int, c: int|
        in_chunk(a, b, c) && #[trigger] cleared(m, cur, a, b, c) && !(a == sx && b == sy && c == sz) ==> cleared_beside(
            m,
            cur,
            a,
            b,
            c,
            level_at(m, false, a, b, c),
            true,
        )
    &&& forall|k: int|
        0 <= k < q.len() ==> in_chunk(#[trigger] q[k].0 as int, q[k].1 as int, q[k].2 as int) && cleared(
            m,
            cur,
            q[k].0 as int,
            q[k].1 as int,
            q[k].2 as int,
        ) && q[k].3 as int == level_at(m, false, q[k].0 as int, q[k].1 as int, q[k].2 as int)
    &&& forall|a: int, b: int, c: int|
        in_chunk(a, b, c) && #[trigger] cleared(m, cur, a, b, c) ==> queued(q, a, b, c) || clear_spread(
            m,
            cur,
            r,
            a,
            b,
            c,
        ) || (a == ex && b == ey && c == ez)
    &&& forall|k: int| 0 <= k < r.len() ==> #[trigger] relight_entry(m, cur, r[k])
}

/// `cur1` and `r1` only add to what `cur` cleared and `r` listed.
spec fn dark_grows(
    m: Seq<VoxelLight>,
    cur: Seq<VoxelLight>,
    r: Seq<(u32, u32, u32, u8)>,
    cur1: Seq<VoxelLight>,
    r1: Seq<(u32, u32, u32, u8)>,
) -> bool {
    &&& forall|a: int, b: int, c: int|
        in_chunk(a, b, c) && #[trigger] cleared(m, cur, a, b, c) ==> cleared(m, cur1, a, b, c)
    &&& r.len() <= r1.len()
    &&& forall|k: int| 0 <= k < r.len() ==> #[trigger] r1[k] == r[k]
}

proof fn lemma_cleared_next_grows(
    m: Seq<VoxelLight>,
    cur: Seq<VoxelLight>,
    r: Seq<(u32, u32, u32, u8)>,
    cur1: Seq<VoxelLight>,
    r1: Seq<(u32, u32, u32, u8)>,
    x: int,
    y: int,
    z: int,
    v: int,
    brighter: bool,
)
    requires
        dark_grows(m, cur, r, cur1, r1),
        cleared_beside(m, cur, x, y, z, v, brighter),
    ensures
        cleared_beside(m, cur1, x, y, z, v, brighter),
{
    reveal(cleared_beside);
    if cleared_next(m, cur, x + 1, y, z, v, brighter) {
        assert(cleared(m, cur1, x + 1, y, z));
    } else if cleared_next(m, cur, x - 1, y, z, v, brighter) {
        assert(cleared(m, cur1, x - 1, y, z));
    } else if cleared_next(m, cur, x, y + 1, z, v, brighter) {
        assert(cleared(m, cur1, x, y + 1, z));
    } else if cleared_next(m, cur, x, y - 1, z, v, brighter) {
        assert(cleared(m, cur1, x, y - 1, z));
    } else if cleared_next(m, cur, x, y, z + 1, v, brighter) {
        assert(cleared(m, cur1, x, y, z + 1));
    } else {
        assert(cleared(m, cur1, x, y, z - 1));
    }
}

proof fn lemma_clear_step_grows(
    m: Seq<VoxelLight>,
    cur: Seq<VoxelLight>,
    r: Seq<(u32, u32, u32, u8)>,
    cur1: Seq<VoxelLight>,
    r1: Seq<(u32, u32, u32, u8)>,
    px: int,
    py: int,
    pz: int,
    nx: int,
    ny: int,
    nz: int,
)
    requires
        dark_grows(m, cur, r, cur1, r1),
        clear_step(m, cur, r, px, py, pz, nx, ny, nz),
    ensures
        clear_step(m, cur1, r1, px, py, pz, nx, ny, nz),
{
    if in_chunk(nx, ny, nz) {
        if cleared(m, cur, nx, ny, nz) {
            assert(cleared(m, cur1, nx, ny, nz));
        }
        let v = level_at(m, false, nx, ny, nz);
        if relit(r, nx, ny, nz, v) {
            let k = choose|k: int| 0 <= k < r.len() && #[trigger] r[k] == (nx as u32, ny as u32, nz as u32, v as u8);
            assert(r1[k] == r[k]);
        }
    }
}

proof fn lemma_clear_spread_grows(
    m: Seq<VoxelLight>,
    cur: Seq<VoxelLight>,
    r: Seq<(u32, u32, u32, u8)>,
    cur1: Seq<VoxelLight>,
    r1: Seq<(u32, u32, u32, u8)>,
    x: int,
    y: int,
    z: int,
)
    requires
        dark_grows(m, cur, r, cur1, r1),
        clear_spread(m, cur, r, x, y, z),
    ensures
        clear_spread(m, cur1, r1, x, y, z),
{
    reveal(clear_spread);
    lemma_clear_step_grows(m, cur, r, cur1, r1, x, y, z, x + 1, y, z);
    lemma_clear_step_grows(m, cur, r, cur1, r1, x, y, z, x - 1, y, z);
    lemma_clear_step_grows(m, cur, r, cur1, r1, x, y, z, x, y + 1, z);
    lemma_clear_step_grows(m, cur, r, cur1, r1, x, y, z, x, y - 1, z);
    lemma_clear_step_grows(m, cur, r, cur1, r1, x, y, z, x, y, z + 1);
    lemma_clear_step_grows(m, cur, r, cur1, r1, x, y, z, x, y, z - 1);
}

pub(crate) proof fn lemma_deficit_at_most(m: Seq<VoxelLight>, sun: bool)
    ensures
        deficit(m, sun) <= 15 * m.len(),
    decreases m.len(),
{
    if m.len() > 0 {
        lemma_deficit_at_most(m.drop_last(), sun);
    }
}

/// Passes the clearing of `(x, y, z)`, whose old block level was `level`, on
/// to its neighbour one unit step `(dx, dy, dz)` away.
fn dim(
    chunk: &mut ChunkLightMap,
    queue: &mut VecDeque<(u32, u32, u32, u8)>,
    relight: &mut Vec<(u32, u32, u32, u8)>,
    x: u32,
    y: u32,
    z: u32,
    level: u8,
    dx: i64,
    dy: i64,
    dz: i64,
    Ghost(m): Ghost<Seq<VoxelLight>>,
    Ghost(sx): Ghost<int>,
    Ghost(sy): Ghost<int>,
    Ghost(sz): Ghost<int>,
)
    requires
        in_chunk(x as int, y as int, z as int),
        unit_step(dx, dy, dz),
        dark_inv(m, old(chunk)@, old(queue)@, old(relight)@, sx, sy, sz, x as int, y as int, z as int),
        cleared(m, old(chunk)@, x as int, y as int, z as int),
        level as int == level_at(m, false, x as int, y as int, z as int),
    ensures
        dark_inv(m, final(chunk)@, final(queue)@, final(relight)@, sx, sy, sz, x as int, y as int, z as int),
        clear_step(m, final(chunk)@, final(relight)@, x as int, y as int, z as int, x + dx, y + dy, z + dz),
        dark_grows(m, old(chunk)@, old(relight)@, final(chunk)@, final(relight)@),
        final(queue)@.len() + 2 * (491520 - deficit(final(chunk)@, false)) <= old(queue)@.len() + 2 * (491520
            - deficit(old(chunk)@, false)),
{
    let nx = x as i64 + dx;
    let ny = y as i64 + dy;
    let nz = z as i64 + dz;
    if nx < 0 || nx >= 32 || ny < 0 || ny >= 32 || nz < 0 || nz >= 32 {
        return;
    }
    let ux = nx as u32;
    let uy = ny as u32;
    let uz = nz as u32;
    let ghost cur = chunk@;
    let ghost q = queue@;
    let ghost r = relight@;
    let ghost (ix, iy, iz) = (x as int, y as int, z as int);
    let ghost (jx, jy, jz) = (nx as int, ny as int, nz as int);
    proof {
        lemma_light_index(jx, jy, jz);
        lemma_light_index(ix, iy, iz);
    }
    let neighbor_level = chunk.get(ux, uy, uz).block_light();
    if neighbor_level == 0 {
        return;
    }
    if neighbor_level < level {
        let mut nl = chunk.get(ux, uy, uz);
        nl.set_block_light(0);
        chunk.set(ux, uy, uz, nl);
        queue.push_back((ux, uy, uz, neighbor_level));
        proof {
            lemma_dim_clear(m, cur, q, r, chunk@, queue@, sx, sy, sz, ix, iy, iz, jx, jy, jz, nl, neighbor_level);
        }
    } else {
        relight.push((ux, uy, uz, neighbor_level));
        proof {
            lemma_dim_relight(m, cur, q, r, relight@, sx, sy, sz, ix, iy, iz, jx, jy, jz, neighbor_level);
        }
    }
}

/// Clearing the lit neighbour `(jx, jy, jz)` of the cleared voxel
/// `(ix, iy, iz)` keeps the clearing invariant.
proof fn lemma_dim_clear(
    m: Seq<VoxelLight>,
    cur: Seq<VoxelLight>,
    q: Seq<(u32, u32, u32, u8)>,
    r: Seq<(u32, u32, u32, u8)>,
    cur1: Seq<VoxelLight>,
    q1: Seq<(u32, u32, u32, u8)>,
    sx: int,
    sy: int,
    sz: int,
    ix: int,
    iy: int,
    iz: int,
    jx: int,
    jy: int,
    jz: int,
    nl: VoxelLight,
    v: u8,
)
    requires
        in_chunk(ix, iy, iz),
        in_chunk(jx, jy, jz),
        adjacent(ix, iy, iz, jx, jy, jz),
        dark_inv(m, cur, q, r, sx, sy, sz, ix, iy, iz),
        cleared(m, cur, ix, iy, iz),
        v as int == level_at(cur, false, jx, jy, jz),
        0 < v < level_at(m, false, ix, iy, iz),
        block_of(nl) == 0,
        sun_of(nl) == sun_of(cur[light_index(jx, jy, jz)]),
        cur1 == cur.update(light_index(jx, jy, jz), nl),
        q1 == q.push((jx as u32, jy as u32, jz as u32, v)),
    ensures
        dark_inv(m, cur1, q1, r, sx, sy, sz, ix, iy, iz),
        cleared(m, cur1, jx, jy, jz),
        dark_grows(m, cur, r, cur1, r),
        q1.len() + 2 * (491520 - deficit(cur1, false)) <= q.len() + 2 * (491520 - deficit(cur, false)),
{
    let idx = light_index(jx, jy, jz);
    lemma_light_index(jx, jy, jz);
    lemma_light_index(ix, iy, iz);
    lemma_deficit_update(cur, false, idx, nl);
    assert(level_at(cur, false, jx, jy, jz) == level_at(m, false, jx, jy, jz));
    assert(cleared(m, cur1, jx, jy, jz));
    assert forall|a: int, b: int, c: int| in_chunk(a, b, c) implies #[trigger] level_at(cur1, false, a, b, c) == (if a
        == jx && b == jy && c == jz {
        0
    } else {
        level_at(cur, false, a, b, c)
    }) by {
        lemma_light_index(a, b, c);
    }
    assert(dark_grows(m, cur, r, cur1, r));
    assert forall|i: int| 0 <= i < 32768 implies #[trigger] sun_of(cur1[i]) == sun_of(m[i]) by {
        if i == idx {
        } else {
        }
    }
    assert forall|a: int, b: int, c: int| in_chunk(a, b, c) && #[trigger] cleared(m, cur1, a, b, c) && !(a == sx && b
        == sy && c == sz) implies cleared_beside(m, cur1, a, b, c, level_at(m, false, a, b, c), true) by {
        if a == jx && b == jy && c == jz {
            reveal(cleared_beside);
            assert(cleared_next(m, cur1, ix, iy, iz, level_at(m, false, a, b, c), true));
        } else {
            assert(cleared(m, cur, a, b, c));
            lemma_cleared_next_grows(m, cur, r, cur1, r, a, b, c, level_at(m, false, a, b, c), true);
        }
    }
    assert forall|k: int| 0 <= k < q1.len() implies in_chunk(#[trigger] q1[k].0 as int, q1[k].1 as int, q1[k].2 as int)
        && cleared(m, cur1, q1[k].0 as int, q1[k].1 as int, q1[k].2 as int) && q1[k].3 as int == level_at(
        m,
        false,
        q1[k].0 as int,
        q1[k].1 as int,
        q1[k].2 as int,
    ) by {
        if k < q.len() {
            assert(q1[k] == q[k]);
        } else {
            assert(q1[k] == (jx as u32, jy as u32, jz as u32, v));
        }
    }
    assert forall|a: int, b: int, c: int| in_chunk(a, b, c) && #[trigger] cleared(m, cur1, a, b, c) implies queued(
        q1,
        a,
        b,
        c,
    ) || clear_spread(m, cur1, r, a, b, c) || (a == ix && b == iy && c == iz) by {
        if a == jx && b == jy && c == jz {
            assert(q1[q.len() as int] == (jx as u32, jy as u32, jz as u32, v));
        } else {
            assert(cleared(m, cur, a, b, c));
            if queued(q, a, b, c) {
                let k = choose|k: int| 0 <= k < q.len() && names(#[trigger] q[k], a, b, c);
                assert(q1[k] == q[k]);
            } else if clear_spread(m, cur, r, a, b, c) {
                lemma_clear_spread_grows(m, cur, r, cur1, r, a, b, c);
            }
        }
    }
    assert forall|k: int| 0 <= k < r.len() implies #[trigger] relight_entry(m, cur1, r[k]) by {
        reveal(relight_entry);
        assert(relight_entry(m, cur, r[k]));
        lemma_cleared_next_grows(m, cur, r, cur1, r, r[k].0 as int, r[k].1 as int, r[k].2 as int, r[k].3 as int, false);
    }
}

/// Listing the neighbour `(jx, jy, jz)`, at least as bright as the cleared
/// voxel `(ix, iy, iz)`, for relighting keeps the clearing invariant.
proof fn lemma_dim_relight(
    m: Seq<VoxelLight>,
    cur: Seq<VoxelLight>,
    q: Seq<(u32, u32, u32, u8)>,
    r: Seq<(u32, u32, u32, u8)>,
    r1: Seq<(u32, u32, u32, u8)>,
    sx: int,
    sy: int,
    sz: int,
    ix: int,
    iy: int,
    iz: int,
    jx: int,
    jy: int,
    jz: int,
    v: u8,
)
    requires
        in_chunk(ix, iy, iz),
        in_chunk(jx, jy, jz),
        adjacent(ix, iy, iz, jx, jy, jz),
        dark_inv(m, cur, q, r, sx, sy, sz, ix, iy, iz),
        cleared(m, cur, ix, iy, iz),
        v as int == level_at(cur, false, jx, jy, jz),
        0 < v,
        v >= level_at(m, false, ix, iy, iz),
        r1 == r.push((jx as u32, jy as u32, jz as u32, v)),
    ensures
        dark_inv(m, cur, q, r1, sx, sy, sz, ix, iy, iz),
        relit(r1, jx, jy, jz, level_at(m, false, jx, jy, jz)),
        dark_grows(m, cur, r, cur, r1),
{
    lemma_light_index(jx, jy, jz);
    lemma_light_index(ix, iy, iz);
    assert(level_at(cur, false, jx, jy, jz) == level_at(m, false, jx, jy, jz));
    assert(dark_grows(m, cur, r, cur, r1));
    assert(r1[r.len() as int] == (jx as u32, jy as u32, jz as u32, v));
    assert(cleared_next(m, cur, ix, iy, iz, v as int, false));
    assert(relight_entry(m, cur, r1[r.len() as int])) by {
        reveal(relight_entry);
        reveal(cleared_beside);
    }
    assert forall|k: int| 0 <= k < r1.len() implies #[trigger] relight_entry(m, cur, r1[k]) by {
        if k < r.len() {
            assert(r1[k] == r[k]);
        }
    }
    assert forall|a: int, b: int, c: int| in_chunk(a, b, c) && #[trigger] cleared(m, cur, a, b, c) implies queued(
        q,
        a,
        b,
        c,
    ) || clear_spread(m, cur, r1, a, b, c) || (a == ix && b == iy && c == iz) by {
        if clear_spread(m, cur, r, a, b, c) {
            lemma_clear_spread_grows(m, cur, r, cur, r1, a, b, c);
        }
    }
}

proof fn lemma_dark_grows_trans(
    m: Seq<VoxelLight>,
    c0: Seq<VoxelLight>,
    r0: Seq<(u32, u32, u32, u8)>,
    c1: Seq<VoxelLight>,
    r1: Seq<(u32, u32, u32, u8)>,
    c2: Seq<VoxelLight>,
    r2: Seq<(u32, u32, u32, u8)>,
)
    requires
        dark_grows(m, c0, r0, c1, r1),
        dark_grows(m, c1, r1, c2, r2),
    ensures
        dark_grows(m, c0, r0, c2, r2),
{
    assert forall|k: int| 0 <= k < r0.len() implies #[trigger] r2[k] == r0[k] by {
        assert(r1[k] == r0[k]);
    }
}

/// Removes the block light that spread from `(x, y, z)`, then lights the
/// cleared region again from the lit voxels at its border.
///
/// Clearing runs breadth-first from `(x, y, z)`: a lit neighbour dimmer than
/// the cleared voxel it borders is cleared too, and one at least as bright is
/// kept and listed. The listed voxels are then used as sources for
/// [`propagate_block_light`]. Nothing changes when `(x, y, z)` has no block
/// light.
pub fn remove_block_light(
    chunk: &mut ChunkLightMap,
    voxels: &ChunkData,
    registry: &VoxelTypeRegistry,
    x: u32,
    y: u32,
    z: u32,
)
    requires
        in_chunk(x as int, y as int, z as int),
    ensures
        level_at(old(chunk)@, false, x as int, y as int, z as int) == 0 ==> final(chunk)@ == old(chunk)@,
        level_at(old(chunk)@, false, x as int, y as int, z as int) > 0 ==> exists|
            m1: Seq<VoxelLight>,
            r: Seq<(u32, u32, u32, u8)>,
        |
            #[trigger] darkened(old(chunk)@, x as int, y as int, z as int, m1, r) && flood_result(
                seed_all(m1, r),
                final(chunk)@,
                false,
                source_cells(r),
                voxels@,
                registry@,
            ),
{
    proof {
        use_type_invariant(&*chunk);
    }
    let ghost m = chunk@;
    let ghost (sx, sy, sz) = (x as int, y as int, z as int);
    let old_level = chunk.get(x, y, z).block_light();
    if old_level == 0 {
        return;
    }
    let mut remove_queue: VecDeque<(u32, u32, u32, u8)> = VecDeque::new();
    let mut relight_queue: Vec<(u32, u32, u32, u8)> = Vec::new();
    let mut l = chunk.get(x, y, z);
    l.set_block_light(0);
    chunk.set(x, y, z, l);
    remove_queue.push_back((x, y, z, old_level));
    proof {
        let cur = chunk@;
        let q = remove_queue@;
        let idx = light_index(sx, sy, sz);
        lemma_light_index(sx, sy, sz);
        assert forall|i: int| 0 <= i < 32768 implies #[trigger] sun_of(cur[i]) == sun_of(m[i]) by {
            if i == idx {
            } else {
            }
        }
        assert forall|a: int, b: int, c: int| in_chunk(a, b, c) implies #[trigger] level_at(cur, false, a, b, c)
            == level_at(m, false, a, b, c) || cleared(m, cur, a, b, c) by {
            lemma_light_index(a, b, c);
        }
        assert forall|a: int, b: int, c: int| in_chunk(a, b, c) && #[trigger] cleared(m, cur, a, b, c) implies a == sx
            && b == sy && c == sz by {
            lemma_light_index(a, b, c);
        }
        assert(q[0] == (x, y, z, old_level));
        assert(names(q[0], sx, sy, sz));
        assert(dark_inv(m, cur, q, relight_queue@, sx, sy, sz, -1, -1, -1));
    }
    while remove_queue.len() > 0
        invariant
            dark_inv(m, chunk@, remove_queue@, relight_queue@, sx, sy, sz, -1, -1, -1),
        decreases remove_queue@.len() + 2 * (491520 - deficit(chunk@, false)),
    {
        proof {
            lemma_deficit_at_most(chunk@, false);
        }
        let ghost q_start = remove_queue@;
        let ghost c0 = chunk@;
        let ghost r0 = relight_queue@;
        let (rx, ry, rz, level) = remove_queue.pop_front().unwrap();
        let ghost (ix, iy, iz) = (rx as int, ry as int, rz as int);
        proof {
            let q = remove_queue@;
            assert(q_start[0] == (rx, ry, rz, level));
            assert forall|k: int| 0 <= k < q.len() implies in_chunk(#[trigger] q[k].0 as int, q[k].1 as int, q[k].2 as int)
                && cleared(m, c0, q[k].0 as int, q[k].1 as int, q[k].2 as int) && q[k].3 as int == level_at(
                m,
                false,
                q[k].0 as int,
                q[k].1 as int,
                q[k].2 as int,
            ) by {
                assert(q[k] == q_start[k + 1]);
            }
            assert forall|a: int, b: int, c: int| in_chunk(a, b, c) && #[trigger] cleared(m, c0, a, b, c) implies queued(
                q,
                a,
                b,
                c,
            ) || clear_spread(m, c0, r0, a, b, c) || (a == ix && b == iy && c == iz) by {
                if queued(q_start, a, b, c) {
                    let k = choose|k: int| 0 <= k < q_start.len() && names(#[trigger] q_start[k], a, b, c);
                    if k > 0 {
                        assert(q[k - 1] == q_start[k]);
                    }
                }
            }
            assert(dark_inv(m, c0, q, r0, sx, sy, sz, ix, iy, iz));
        }
        dim(chunk, &mut remove_queue, &mut relight_queue, rx, ry, rz, level, 1, 0, 0, Ghost(m), Ghost(sx), Ghost(sy), Ghost(sz));
        let ghost c1 = chunk@;
        let ghost r1 = relight_queue@;
        dim(chunk, &mut remove_queue, &mut relight_queue, rx, ry, rz, level, -1, 0, 0, Ghost(m), Ghost(sx), Ghost(sy), Ghost(sz));
        let ghost c2 = chunk@;
        let ghost r2 = relight_queue@;
        dim(chunk, &mut remove_queue, &mut relight_queue, rx, ry, rz, level, 0, 1, 0, Ghost(m), Ghost(sx), Ghost(sy), Ghost(sz));
        let ghost c3 = chunk@;
        let ghost r3 = relight_queue@;
        dim(chunk, &mut remove_queue, &mut relight_queue, rx, ry, rz, level, 0, -1, 0, Ghost(m), Ghost(sx), Ghost(sy), Ghost(sz));
        let ghost c4 = chunk@;
        let ghost r4 = relight_queue@;
        dim(chunk, &mut remove_queue, &mut relight_queue, rx, ry, rz, level, 0, 0, 1, Ghost(m), Ghost(sx), Ghost(sy), Ghost(sz));
        let ghost c5 = chunk@;
        let ghost r5 = relight_queue@;
        dim(chunk, &mut remove_queue, &mut relight_queue, rx, ry, rz, level, 0, 0, -1, Ghost(m), Ghost(sx), Ghost(sy), Ghost(sz));
        proof {
            let c6 = chunk@;
            let r6 = relight_queue@;
            lemma_dark_grows_trans(m, c4, r4, c5, r5, c6, r6);
            lemma_dark_grows_trans(m, c3, r3, c4, r4, c6, r6);
            lemma_dark_grows_trans(m, c2, r2, c3, r3, c6, r6);
            lemma_dark_grows_trans(m, c1, r1, c2, r2, c6, r6);
            lemma_clear_step_grows(m, c1, r1, c6, r6, ix, iy, iz, ix + 1, iy, iz);
            lemma_clear_step_grows(m, c2, r2, c6, r6, ix, iy, iz, ix - 1, iy, iz);
            lemma_clear_step_grows(m, c3, r3, c6, r6, ix, iy, iz, ix, iy + 1, iz);
            lemma_clear_step_grows(m, c4, r4, c6, r6, ix, iy, iz, ix, iy - 1, iz);
            lemma_clear_step_grows(m, c5, r5, c6, r6, ix, iy, iz, ix, iy, iz + 1);
            assert(clear_spread(m, c6, r6, ix, iy, iz)) by {
                reveal(clear_spread);
            }
            lemma_deficit_at_most(c6, false);
            assert forall|a: int, b: int, c: int| in_chunk(a, b, c) && #[trigger] cleared(m, c6, a, b, c) implies queued(
                remove_queue@,
                a,
                b,
                c,
            ) || clear_spread(m, c6, r6, a, b, c) || (a == -1 && b == -1 && c == -1) by {
            }
        }
    }
    let ghost m1 = chunk@;
    let ghost r = relight_queue@;
    proof {
        assert forall|a: int, b: int, c: int| in_chunk(a, b, c) && #[trigger] cleared(m, m1, a, b, c) implies clear_spread(
            m,
            m1,
            r,
            a,
            b,
            c,
        ) by {
            if queued(remove_queue@, a, b, c) {
                let k = choose|k: int| 0 <= k < remove_queue@.len() && names(#[trigger] remove_queue@[k], a, b, c);
            }
        }
        assert(darkened(m, sx, sy, sz, m1, r));
        assert forall|k: int| 0 <= k < r.len() implies in_chunk(#[trigger] r[k].0 as int, r[k].1 as int, r[k].2 as int)
            && r[k].3 <= 15 by {
            reveal(relight_entry);
            assert(relight_entry(m, m1, r[k]));
        }
    }
    if relight_queue.len() > 0 {
        propagate_block_light(chunk, voxels, registry, relight_queue.as_slice());
    } else {
        proof {
            assert(seed_all(m1, r) == m1);
            assert forall|a: int, b: int, c: int| in_chunk(a, b, c) && #[trigger] active(m1, m1, false, source_cells(r), a, b, c)
                implies settled(m1, false, voxels@, registry@, a, b, c) by {
                assert(!source_cells(r).contains((a, b, c)));
            }
        }
    }
    proof {
        assert(darkened(m, sx, sy, sz, m1, r) && flood_result(
            seed_all(m1, r),
            chunk@,
            false,
            source_cells(r),
            voxels@,
            registry@,
        ));
    }
}

/// One step of the proof that flooding has one result: where `mp` rose
/// above `m0` at `(px, py, pz)`, `m` did too and is as bright there.
proof fn lemma_flood_step(
    m0: Seq<VoxelLight>,
    m: Seq<VoxelLight>,
    mp: Seq<VoxelLight>,
    sun: bool,
    src: Set<(int, int, int)>,
    vox: Seq<VoxelTypeId>,
    types: Seq<TypeTraits>,
    px: int,
    py: int,
    pz: int,
    x: int,
    y: int,
    z: int,
)
    requires
        m0.len() == 32768,
        flood_result(m0, m, sun, src, vox, types),
        flood_result(m0, mp, sun, src, vox, types),
        in_chunk(x, y, z),
        raised(m0, mp, sun, x, y, z),
        !opaque_at(vox, types, x, y, z),
        feeds(m0, mp, sun, src, vox, types, px, py, pz, x, y, z),
        adjacent_cells(px, py, pz, x, y, z),
    ensures
        level_at(m, sun, x, y, z) >= level_at(mp, sun, x, y, z),
        raised(m0, m, sun, x, y, z),
    decreases 16 - level_at(mp, sun, x, y, z), 0int,
{
    lemma_light_index(px, py, pz);
    lemma_light_index(x, y, z);
    if raised(m0, mp, sun, px, py, pz) {
        lemma_flood_dominates(m0, m, mp, sun, src, vox, types, px, py, pz);
    }
    assert(active(m0, m, sun, src, px, py, pz));
    assert(settled(m, sun, vox, types, px, py, pz));
}

/// Where flooding gave `mp`, flooding gave an `m` at least as bright at
/// `(x, y, z)`, and raised it wherever `mp` was raised.
proof fn lemma_flood_dominates(
    m0: Seq<VoxelLight>,
    m: Seq<VoxelLight>,
    mp: Seq<VoxelLight>,
    sun: bool,
    src: Set<(int, int, int)>,
    vox: Seq<VoxelTypeId>,
    types: Seq<TypeTraits>,
    x: int,
    y: int,
    z: int,
)
    requires
        m0.len() == 32768,
        flood_result(m0, m, sun, src, vox, types),
        flood_result(m0, mp, sun, src, vox, types),
        in_chunk(x, y, z),
    ensures
        level_at(m, sun, x, y, z) >= level_at(mp, sun, x, y, z),
        raised(m0, mp, sun, x, y, z) ==> raised(m0, m, sun, x, y, z),
    decreases 16 - level_at(mp, sun, x, y, z), 1int,
{
    lemma_light_index(x, y, z);
    if raised(m0, mp, sun, x, y, z) {
        assert(supported(m0, mp, sun, src, vox, types, x, y, z));
        if feeds(m0, mp, sun, src, vox, types, x + 1, y, z, x, y, z) {
            lemma_flood_step(m0, m, mp, sun, src, vox, types, x + 1, y, z, x, y, z);
        } else if feeds(m0, mp, sun, src, vox, types, x - 1, y, z, x, y, z) {
            lemma_flood_step(m0, m, mp, sun, src, vox, types, x - 1, y, z, x, y, z);
        } else if feeds(m0, mp, sun, src, vox, types, x, y + 1, z, x, y, z) {
            lemma_flood_step(m0, m, mp, sun, src, vox, types, x, y + 1, z, x, y, z);
        } else if feeds(m0, mp, sun, src, vox, types, x, y - 1, z, x, y, z) {
            lemma_flood_step(m0, m, mp, sun, src, vox, types, x, y - 1, z, x, y, z);
        } else if feeds(m0, mp, sun, src, vox, types, x, y, z + 1, x, y, z) {
            lemma_flood_step(m0, m, mp, sun, src, vox, types, x, y, z + 1, x, y, z);
        } else {
            lemma_flood_step(m0, m, mp, sun, src, vox, types, x, y, z - 1, x, y, z);
        }
    }
}

/// Whether `(x, y, z)` is one unit step from `(px, py, pz)`.
pub open spec fn adjacent_cells(px: int, py: int, pz: int, x: int, y: int, z: int) -> bool {
    ||| (x == px + 1 && y == py && z == pz)
    ||| (x == px - 1 && y == py && z == pz)
    ||| (x == px && y == py + 1 && z == pz)
    ||| (x == px && y == py - 1 && z == pz)
    ||| (x == px && y == py && z == pz + 1)
    ||| (x == px && y == py && z == pz - 1)
}

/// Flooding has one result: the contract of a flood pins the light map down,
/// whatever order the voxels were taken in.
pub proof fn lemma_flood_result_unique(
    m0: Seq<VoxelLight>,
    m: Seq<VoxelLight>,
    mp: Seq<VoxelLight>,
    sun: bool,
    src: Set<(int, int, int)>,
    vox: Seq<VoxelTypeId>,
    types: Seq<TypeTraits>,
)
    requires
        m0.len() == 32768,
        flood_result(m0, m, sun, src, vox, types),
        flood_result(m0, mp, sun, src, vox, types),
    ensures
        m == mp,
{
    assert forall|i: int| 0 <= i < 32768 implies #[trigger] m[i] == mp[i] by {
        lemma_light_index_decode(i);
        let (x, y, z) = (i % 32, i / 1024, (i / 32) % 32);
        lemma_flood_dominates(m0, m, mp, sun, src, vox, types, x, y, z);
        lemma_flood_dominates(m0, mp, m, sun, src, vox, types, x, y, z);
        assert(channel(m[i], sun) == channel(mp[i], sun));
        assert(other_channel(m[i], sun) == other_channel(mp[i], sun));
        assert(m[i].0 == mp[i].0);
    }
    assert(m =~= mp);
}

} // verus!
