//! Bitmask for tracking which of a voxel's six faces are visible.

use vstd::prelude::*;
use crate::mesh::face_direction::{FaceDirection, face_index};

verus! {

/// Whether bit `i` of `v` is set.
pub open spec fn bit_set(v: u8, i: nat) -> bool {
    (v as nat / pow2_nat(i)) % 2 == 1
}

/// `2^i`.
pub open spec fn pow2_nat(i: nat) -> nat
    decreases i,
{
    if i == 0 { 1 } else { 2 * pow2_nat((i - 1) as nat) }
}

/// Number of set bits among the lowest `n` bits of `v`.
pub open spec fn ones_below(v: u8, n: nat) -> nat
    decreases n,
{
    if n == 0 {
        0
    } else {
        ones_below(v, (n - 1) as nat) + if bit_set(v, (n - 1) as nat) { 1nat } else { 0nat }
    }
}

/// Bitmask indicating which of a voxel's 6 faces are visible.
///
/// `VisibleFaces(0)` has no face visible and `VisibleFaces(0b0011_1111)` all six.
///
/// Bit 0 = +X, Bit 1 = −X, Bit 2 = +Y, Bit 3 = −Y, Bit 4 = +Z, Bit 5 = −Z.
#[derive(Clone, Copy, Debug, Default, PartialEq, Eq, Structural)]
pub struct VisibleFaces(pub u8);

/// `1 << i` for a bit index below 8, as a byte.
fn bit_mask(i: u8) -> (m: u8)
    requires
        i < 8,
    ensures
        m == pow2_nat(i as nat),
        forall|v: u8| #![trigger v & m] (v & m != 0) == bit_set(v, i as nat),
        forall|v: u8, j: nat| #![trigger bit_set(v | m, j)] j < 8 ==> bit_set(v | m, j) == (bit_set(v, j) || j == i),
{
    let m: u8 = 1u8 << i;
    proof {
        lemma_pow2_small();
        lemma_bit_set_and(m, i);
    }
    m
}

/// The first eight powers of two.
proof fn lemma_pow2_small()
    ensures
        pow2_nat(0) == 1, pow2_nat(1) == 2, pow2_nat(2) == 4, pow2_nat(3) == 8,
        pow2_nat(4) == 16, pow2_nat(5) == 32, pow2_nat(6) == 64, pow2_nat(7) == 128,
{
    reveal_with_fuel(pow2_nat, 8);
}

/// Bit tests through a one-bit mask agree with `bit_set`.
proof fn lemma_bit_set_and(m: u8, i: u8)
    requires
        i < 8,
        m == 1u8 << i,
    ensures
        m == pow2_nat(i as nat),
        forall|v: u8| #![trigger v & m] (v & m != 0) == bit_set(v, i as nat),
        forall|v: u8, j: nat| #![trigger bit_set(v | m, j)] j < 8 ==> bit_set(v | m, j) == (bit_set(v, j) || j == i),
{
    lemma_pow2_small();
    assert(m == pow2_nat(i as nat)) by {
        assert(i == 0 ==> 1u8 << i == 1) by (bit_vector);
        assert(i == 1 ==> 1u8 << i == 2) by (bit_vector);
        assert(i == 2 ==> 1u8 << i == 4) by (bit_vector);
        assert(i == 3 ==> 1u8 << i == 8) by (bit_vector);
        assert(i == 4 ==> 1u8 << i == 16) by (bit_vector);
        assert(i == 5 ==> 1u8 << i == 32) by (bit_vector);
        assert(i == 6 ==> 1u8 << i == 64) by (bit_vector);
        assert(i == 7 ==> 1u8 << i == 128) by (bit_vector);
    }
    assert forall|v: u8| #![trigger v & m] (v & m != 0) == bit_set(v, i as nat) by {
        assert(((v & (1u8 << i)) != 0) == ((v >> i) & 1 == 1)) by (bit_vector) requires i < 8;
        lemma_shr_is_div(v, i);
    }
    assert forall|v: u8, j: nat| #![trigger bit_set(v | m, j)] j < 8 implies bit_set(v | m, j) == (bit_set(v, j) || j == i) by {
        let jj = j as u8;
        assert((((v | (1u8 << i)) >> jj) & 1 == 1) == (((v >> jj) & 1 == 1) || jj == i)) by (bit_vector)
            requires i < 8, jj < 8;
        lemma_shr_is_div(v | m, jj);
        lemma_shr_is_div(v, jj);
    }
}

/// A right shift followed by a low-bit test is `bit_set`.
proof fn lemma_shr_is_div(v: u8, i: u8)
    requires
        i < 8,
    ensures
        ((v >> i) & 1 == 1) == bit_set(v, i as nat),
{
    lemma_pow2_small();
    assert(i == 0 ==> ((v >> i) & 1 == 1) == ((v as nat / 1) % 2 == 1)) by (bit_vector);
    assert(i == 1 ==> ((v >> i) & 1 == 1) == ((v as nat / 2) % 2 == 1)) by (bit_vector);
    assert(i == 2 ==> ((v >> i) & 1 == 1) == ((v as nat / 4) % 2 == 1)) by (bit_vector);
    assert(i == 3 ==> ((v >> i) & 1 == 1) == ((v as nat / 8) % 2 == 1)) by (bit_vector);
    assert(i == 4 ==> ((v >> i) & 1 == 1) == ((v as nat / 16) % 2 == 1)) by (bit_vector);
    assert(i == 5 ==> ((v >> i) & 1 == 1) == ((v as nat / 32) % 2 == 1)) by (bit_vector);
    assert(i == 6 ==> ((v >> i) & 1 == 1) == ((v as nat / 64) % 2 == 1)) by (bit_vector);
    assert(i == 7 ==> ((v >> i) & 1 == 1) == ((v as nat / 128) % 2 == 1)) by (bit_vector);
}

impl VisibleFaces {
    /// No face visible.
    pub fn none() -> (r: VisibleFaces)
        ensures
            r.0 == 0,
    {
        VisibleFaces(0)
    }

    /// All six faces visible.
    pub fn all() -> (r: VisibleFaces)
        ensures
            r.0 == 0b0011_1111,
    {
        VisibleFaces(0b0011_1111)
    }

    /// Returns `true` if the face in the given direction is visible.
    pub fn is_visible(self, direction: FaceDirection) -> (r: bool)
        ensures
            r == bit_set(self.0, face_index(direction)),
    {
        let m = bit_mask(direction.index() as u8);
        self.0 & m != 0
    }

    /// Marks the face in the given direction as visible.
    pub fn set_visible(&mut self, direction: FaceDirection)
        ensures
            forall|j: nat| j < 8 ==> bit_set(final(self).0, j) == (bit_set(old(self).0, j) || j == face_index(direction)),
    {
        let m = bit_mask(direction.index() as u8);
        self.0 = self.0 | m;
    }

    /// Returns the number of visible faces (set bits, 0–8).
    pub fn count(self) -> (r: u32)
        ensures
            r == ones_below(self.0, 8),
    {
        let mut n: u32 = 0;
        let mut i: u8 = 0;
        while i < 8
            invariant
                i <= 8,
                n == ones_below(self.0, i as nat),
                n <= i,
            decreases 8 - i,
        {
            let m = bit_mask(i);
            if self.0 & m != 0 {
                n = n + 1;
            }
            i = i + 1;
        }
        n
    }
}

} // verus!
