//! A stand-in for a random fraction: one byte spread evenly over the
//! fractions from 0 up to, but not including, 1.
//!
//! The byte is placed in the top eight bits of the mantissa of a
//! single-precision number whose sign and exponent say "between one half and
//! one". This module builds that bit pattern; turning the pattern into a
//! floating-point number and stretching it to start at 0 is left to the
//! caller.

use vstd::prelude::*;

verus! {

/// The bit pattern of one half: sign clear, exponent field 126, mantissa 0.
pub const HALF_BITS: u32 = 0x3f00_0000;

/// How far left the byte is moved to fill the top of the 23-bit mantissa.
pub const MANTISSA_SHIFT: u32 = 15;

/// The bit pattern for `n`: that of one half with `n` written into the top
/// eight bits of the mantissa. As a number it is `1/2 + n/512`.
pub open spec fn fraction_bits(n: u8) -> u32 {
    (HALF_BITS + n * 0x8000) as u32
}

/// Builds the bit pattern for `n`.
pub fn mock_rand_bits(n: u8) -> (bits: u32)
    ensures
        bits == fraction_bits(n),
        bits >> 31 == 0,
        (bits >> 23) & 0xff == 126,
        bits & 0x7f_ffff == n * 0x8000,
{
    let base: u32 = HALF_BITS;
    let wide: u32 = n as u32;
    let large_n: u32 = wide << MANTISSA_SHIFT;
    let bits: u32 = base | large_n;
    assert(wide < 256 ==> 0x3f00_0000u32 | (wide << 15u32) == 0x3f00_0000u32 + wide * 0x8000)
        by (bit_vector);
    assert(wide < 256 ==> (0x3f00_0000u32 | (wide << 15u32)) >> 31u32 == 0) by (bit_vector);
    assert(wide < 256 ==> ((0x3f00_0000u32 | (wide << 15u32)) >> 23u32) & 0xff == 126)
        by (bit_vector);
    assert(wide < 256 ==> (0x3f00_0000u32 | (wide << 15u32)) & 0x7f_ffff == wide * 0x8000)
        by (bit_vector);
    bits
}

} // verus!
