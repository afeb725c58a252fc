//! Single-precision values carried as bit patterns.

use vstd::prelude::*;

verus! {

/// An IEEE-754 single-precision number, held as its 32-bit pattern.
///
/// Positions, offsets and authored sizes pass through the library unchanged;
/// the only operation it performs on them is the sign flip.
#[derive(Clone, Copy, Debug, PartialEq, Eq, Structural)]
pub struct FloatBits {
    pub bits: u32,
}

/// The sign bit of a single-precision pattern.
pub const SIGN_BIT: u32 = 0x8000_0000;

/// The pattern of the uniform world scale, `2.0`.
pub const MAP_SCALE_BITS: u32 = 0x4000_0000;

impl FloatBits {
    /// The same magnitude with the opposite sign: the sign bit is flipped and
    /// every other bit is kept.
    pub open spec fn spec_negated(self) -> FloatBits {
        FloatBits { bits: self.bits ^ SIGN_BIT }
    }

    /// Negates the value.
    pub fn negated(self) -> (r: FloatBits)
        ensures
            r == self.spec_negated(),
    {
        FloatBits { bits: self.bits ^ SIGN_BIT }
    }
}

/// Negating twice gives the value back.
pub proof fn lemma_negated_twice(v: FloatBits)
    ensures
        v.spec_negated().spec_negated() == v,
{
    let b = v.bits;
    assert((b ^ 0x8000_0000u32) ^ 0x8000_0000u32 == b) by (bit_vector);
}

} // verus!
