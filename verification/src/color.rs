//! Colours and the perceptual distance between them.
//!
//! The distance is measured in CIE L\*a\*b\* space by the `lab` crate, which
//! works in single-precision floating point.  Its result crosses into this
//! crate as an IEEE-754 bit pattern and is reduced to a whole number of
//! sample units here.

use lab::Lab;
use vstd::arithmetic::power2::{lemma2_to64, pow2};
use vstd::bits::{lemma_u32_shl_is_mul, lemma_u32_shr_is_div};
use vstd::prelude::*;

verus! {

#[verifier::external_type_specification]
#[verifier::external_body]
pub struct ExLab(Lab);

/// A colour with 8-bit red, green and blue channels.
#[derive(Clone, Copy, Debug, PartialEq, Eq, Structural)]
pub struct Rgb {
    pub r: u8,
    pub g: u8,
    pub b: u8,
}

impl Rgb {
    /// The colour as one number, `0xRRGGBB`.
    pub open spec fn spec_packed(self) -> u32 {
        (self.r * 0x1_0000 + self.g * 0x100 + self.b) as u32
    }

    /// The colour that the low 24 bits of `v` spell as `0xRRGGBB`.
    pub open spec fn spec_unpacked(v: u32) -> Rgb {
        Rgb { r: (v / 0x1_0000 % 0x100) as u8, g: (v / 0x100 % 0x100) as u8, b: (v % 0x100) as u8 }
    }

    /// Packs the three channels into one number, `0xRRGGBB`.
    pub fn packed(self) -> (v: u32)
        ensures
            v == self.spec_packed(),
            v < 0x100_0000,
            Rgb::spec_unpacked(v) == self,
    {
        (self.r as u32) * 0x1_0000 + (self.g as u32) * 0x100 + (self.b as u32)
    }

    /// Reads the three channels back from the low 24 bits of `v`.
    pub fn unpacked(v: u32) -> (p: Rgb)
        ensures
            p == Rgb::spec_unpacked(v),
    {
        Rgb { r: (v / 0x1_0000 % 0x100) as u8, g: (v / 0x100 % 0x100) as u8, b: (v % 0x100) as u8 }
    }
}

/// `Lab::from_rgb`: converts an RGB triple to L\*a\*b\* coordinates.  Nothing
/// is claimed of the coordinates; the conversion accepts every triple.
#[verifier::external_body]
fn lab_from_rgb(r: u8, g: u8, b: u8) -> (c: Lab) {
    Lab::from_rgb(&[r, g, b])
}

/// `Lab::squared_distance`: the squared Euclidean distance between two
/// L\*a\*b\* coordinates, handed over as the bit pattern of the
/// single-precision number that the call returns.  Nothing is claimed of
/// the number.
#[verifier::external_body]
fn lab_squared_distance_bits(a: &Lab, b: &Lab) -> (bits: u32) {
    a.squared_distance(b).to_bits()
}

/// `bits` is the bit pattern of a squared distance that `Lab::squared_distance`
/// may return for the coordinates that `Lab::from_rgb` may return for `a` and
/// for `b`, taken in this order.
pub closed spec fn lab_measures(a: Rgb, b: Rgb, bits: u32) -> bool {
    exists|lab_a: Lab, lab_b: Lab|
        #![trigger call_ensures(lab_squared_distance_bits, (&lab_a, &lab_b), bits)]
        call_ensures(lab_from_rgb, (a.r, a.g, a.b), lab_a) && call_ensures(
            lab_from_rgb,
            (b.r, b.g, b.b),
            lab_b,
        ) && call_ensures(lab_squared_distance_bits, (&lab_a, &lab_b), bits)
}

/// The whole part of the single-precision number with bit pattern `bits`,
/// kept within `u32`: a number of at least one is `significand * 2^(exponent
/// - 150)` rounded down, where the exponent is the 8 bits below the sign and
/// the significand the low 23 bits with the implicit leading one.  Numbers
/// below one, negative numbers and NaN give zero; numbers of `2^32` or more
/// and positive infinity give `u32::MAX`.
pub open spec fn float_whole_part(bits: u32) -> int {
    let exponent = bits as int / 0x80_0000;
    let significand = 0x80_0000 + bits as int % 0x80_0000;
    if bits >= 0x7F80_0000 {
        if bits == 0x7F80_0000 {
            u32::MAX as int
        } else {
            0
        }
    } else if exponent < 127 {
        0
    } else if exponent <= 150 {
        significand / pow2((150 - exponent) as nat) as int
    } else if exponent <= 158 {
        significand * pow2((exponent - 150) as nat)
    } else {
        u32::MAX as int
    }
}

/// Rounds the single-precision number with bit pattern `bits` down to a
/// whole number of sample units.
pub fn whole_part(bits: u32) -> (v: u32)
    ensures
        v == float_whole_part(bits),
{
    if bits >= 0x7F80_0000 {
        return if bits == 0x7F80_0000 {
            u32::MAX
        } else {
            0
        };
    }
    let exponent: u32 = bits / 0x80_0000;
    let significand: u32 = 0x80_0000 + bits % 0x80_0000;
    if exponent < 127 {
        0
    } else if exponent <= 150 {
        let shift: u32 = 150 - exponent;
        proof {
            lemma_u32_shr_is_div(significand, shift);
        }
        significand >> shift
    } else if exponent <= 158 {
        let shift: u32 = exponent - 150;
        proof {
            lemma2_to64();
            assert(pow2(shift as nat) <= 0x100);
            assert(significand * pow2(shift as nat) <= u32::MAX) by (nonlinear_arith)
                requires
                    significand < 0x100_0000,
                    pow2(shift as nat) <= 0x100,
            ;
            lemma_u32_shl_is_mul(significand, shift);
        }
        significand << shift
    } else {
        u32::MAX
    }
}

/// The perceptual difference between two colours as a sample: the squared
/// distance between their L\*a\*b\* coordinates, rounded down to a whole
/// number.  A sample `v` stands for `v / NORMALIZER`, so this is the squared
/// distance divided by the normalising constant.
pub fn perceptual_distance(a: Rgb, b: Rgb) -> (d: u32)
    ensures
        exists|bits: u32| #[trigger] lab_measures(a, b, bits) && d == float_whole_part(bits),
{
    let lab_a = lab_from_rgb(a.r, a.g, a.b);
    let lab_b = lab_from_rgb(b.r, b.g, b.b);
    let bits = lab_squared_distance_bits(&lab_a, &lab_b);
    assert(lab_measures(a, b, bits));
    whole_part(bits)
}

} // verus!
