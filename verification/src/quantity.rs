use vstd::prelude::*;

verus! {

/// Mask that clears the sign bit of a binary64 encoding.
pub const MAGNITUDE_MASK: u64 = 0x7fff_ffff_ffff_ffff;

/// Encoding of positive infinity; magnitudes above it are NaN encodings.
pub const INFINITY_BITS: u64 = 0x7ff0_0000_0000_0000;

/// Encoding of 60.0, the default system frequency in hertz.
pub const DEFAULT_FREQUENCY_BITS: u64 = 0x404e_0000_0000_0000;

/// Encoding of 1.0, the default prefault voltage in per-unit.
pub const DEFAULT_PREFAULT_BITS: u64 = 0x3ff0_0000_0000_0000;

/// Encoding of 0.5, the default number of duty cycles.
pub const DEFAULT_DUTY_CYCLES_BITS: u64 = 0x3fe0_0000_0000_0000;

/// Encoding of 0.6, the default secondary line-to-line voltage in kV.
pub const DEFAULT_SECONDARY_KV_LL_BITS: u64 = 0x3fe3_3333_3333_3333;

/// Encoding of 12.470765814495916 (7200 * sqrt(3) / 1000), the default utility voltage in kV.
pub const DEFAULT_UTILITY_KV_LL_BITS: u64 = 0x4028_f108_3782_ab66;

/// Encoding of 30.0, the vector shift of a wye-delta transformer in degrees.
pub const PLUS_THIRTY_BITS: u64 = 0x403e_0000_0000_0000;

/// Encoding of -30.0, the vector shift of a delta-wye transformer in degrees.
pub const MINUS_THIRTY_BITS: u64 = 0xc03e_0000_0000_0000;

/// A physical quantity (kV, MVA, hertz, per-unit, ...) carried through the case model.
///
/// The value is held as the bit pattern of its IEEE-754 binary64 encoding. The model
/// does no arithmetic on it: it passes values through and classifies them against zero,
/// which the encoding decides exactly.
#[derive(Clone, Copy, Debug)]
pub struct Quantity {
    pub bits: u64,
}

/// The encoding is a NaN: all exponent bits set and a non-zero fraction.
pub open spec fn bits_are_nan(b: u64) -> bool {
    b & MAGNITUDE_MASK > INFINITY_BITS
}

/// The encoding is +0.0 or -0.0.
pub open spec fn bits_are_zero(b: u64) -> bool {
    b & MAGNITUDE_MASK == 0
}

/// The sign bit of the encoding is set.
pub open spec fn bits_sign_set(b: u64) -> bool {
    b >= 0x8000_0000_0000_0000
}

impl Quantity {
    /// The value equals zero (`x == 0.0`).
    pub open spec fn spec_is_zero(self) -> bool {
        bits_are_zero(self.bits)
    }

    /// The value is at most zero (`x <= 0.0`); false for NaN.
    pub open spec fn spec_le_zero(self) -> bool {
        !bits_are_nan(self.bits) && (bits_are_zero(self.bits) || bits_sign_set(self.bits))
    }

    /// The value is above zero (`x > 0.0`); false for NaN.
    pub open spec fn spec_gt_zero(self) -> bool {
        !bits_are_nan(self.bits) && !bits_are_zero(self.bits) && !bits_sign_set(self.bits)
    }

    /// Wraps an encoding.
    pub fn from_bits(bits: u64) -> (q: Self)
        ensures
            q.bits == bits,
    {
        Quantity { bits }
    }

    /// The zero quantity (+0.0).
    pub fn zero() -> (q: Self)
        ensures
            q.bits == 0,
            q.spec_is_zero(),
    {
        assert(0u64 & MAGNITUDE_MASK == 0) by (bit_vector);
        Quantity { bits: 0 }
    }

    /// Whether the value equals zero.
    pub fn is_zero(&self) -> (r: bool)
        ensures
            r == self.spec_is_zero(),
    {
        self.bits & MAGNITUDE_MASK == 0
    }

    /// Whether the value is at most zero.
    pub fn le_zero(&self) -> (r: bool)
        ensures
            r == self.spec_le_zero(),
    {
        let magnitude = self.bits & MAGNITUDE_MASK;
        magnitude <= INFINITY_BITS && (magnitude == 0 || self.bits >= 0x8000_0000_0000_0000)
    }

    /// Whether the value is above zero.
    pub fn gt_zero(&self) -> (r: bool)
        ensures
            r == self.spec_gt_zero(),
    {
        let magnitude = self.bits & MAGNITUDE_MASK;
        magnitude <= INFINITY_BITS && magnitude != 0 && self.bits < 0x8000_0000_0000_0000
    }
}

/// Nothing is both at most zero and above zero, and zero is at most zero.
pub proof fn lemma_sign_classes(q: Quantity)
    ensures
        !(q.spec_le_zero() && q.spec_gt_zero()),
        q.spec_is_zero() ==> q.spec_le_zero(),
{
    let b = q.bits;
    assert(b & 0x7fff_ffff_ffff_ffff == 0 ==> !(b & 0x7fff_ffff_ffff_ffff > 0x7ff0_0000_0000_0000)) by (bit_vector);
}

} // verus!
