//! Bit-level view of IEEE-754 double-precision values.
//!
//! Every double is carried as its 64-bit pattern.  The predicates here read
//! the pattern directly: classification (NaN, finite, zero), negation, value
//! equality, and the value ordering of non-NaN doubles via an integer rank.

use vstd::prelude::*;

verus! {

/// Sign bit of a double's bit pattern.
pub const SIGN_MASK: u64 = 0x8000_0000_0000_0000;

/// Magnitude (exponent and fraction) of a double's bit pattern.
pub const MAG_MASK: u64 = 0x7FFF_FFFF_FFFF_FFFF;

/// Exponent field of a double's bit pattern.
pub const EXP_MASK: u64 = 0x7FF0_0000_0000_0000;

/// Fraction field of a double's bit pattern.
pub const FRAC_MASK: u64 = 0x000F_FFFF_FFFF_FFFF;

/// The pattern encodes a NaN: exponent all ones, fraction non-zero.
pub open spec fn is_nan64(b: u64) -> bool {
    b & EXP_MASK == EXP_MASK && b & FRAC_MASK != 0
}

/// The pattern encodes a finite value: exponent not all ones.
pub open spec fn is_finite64(b: u64) -> bool {
    b & EXP_MASK != EXP_MASK
}

/// The pattern encodes a zero (of either sign).
pub open spec fn is_zero64(b: u64) -> bool {
    b & MAG_MASK == 0
}

/// The pattern of the negated value: the sign bit flipped.
pub open spec fn neg64(b: u64) -> u64 {
    b ^ SIGN_MASK
}

/// An integer that orders bit patterns exactly as the encoded values are
/// ordered, for non-NaN patterns.  Non-negative patterns keep their bit
/// value; negative ones count downward by their magnitude, so that the two
/// zeroes share rank 0.
pub open spec fn rank64(b: u64) -> int {
    if b & SIGN_MASK == 0 {
        b as int
    } else {
        -((b & MAG_MASK) as int)
    }
}

/// The encoded value of `a` is less than or equal to that of `b`.
/// Meaningful only when neither pattern is a NaN.
pub open spec fn float_le64(a: u64, b: u64) -> bool {
    rank64(a) <= rank64(b)
}

/// The encoded value of `a` is strictly less than that of `b`.
/// Meaningful only when neither pattern is a NaN.
pub open spec fn float_lt64(a: u64, b: u64) -> bool {
    rank64(a) < rank64(b)
}

/// IEEE-754 equality of the encoded values: equal patterns that are not NaN,
/// or the two zeroes.
pub open spec fn float_eq64(a: u64, b: u64) -> bool {
    !is_nan64(a) && !is_nan64(b) && (a == b || (is_zero64(a) && is_zero64(b)))
}

/// Negation is an involution on bit patterns.
pub proof fn lemma_neg64_involution(b: u64)
    ensures
        neg64(neg64(b)) == b,
{
    assert((b ^ 0x8000_0000_0000_0000u64) ^ 0x8000_0000_0000_0000u64 == b) by (bit_vector);
}

/// Runtime test for [`is_nan64`].
pub fn nan_check(b: u64) -> (r: bool)
    ensures
        r == is_nan64(b),
{
    b & EXP_MASK == EXP_MASK && b & FRAC_MASK != 0
}

/// Runtime test for [`float_le64`].
pub fn le_check(a: u64, b: u64) -> (r: bool)
    ensures
        r == float_le64(a, b),
{
    let sa = a & SIGN_MASK;
    let sb = b & SIGN_MASK;
    if sa == 0 && sb == 0 {
        a <= b
    } else if sa != 0 && sb != 0 {
        b & MAG_MASK <= a & MAG_MASK
    } else if sa != 0 {
        true
    } else {
        proof {
            assert(a & 0x8000_0000_0000_0000u64 == 0 ==> a & 0x7FFF_FFFF_FFFF_FFFFu64 == a)
                by (bit_vector);
            assert((b & 0x8000_0000_0000_0000u64 != 0 && b & 0x7FFF_FFFF_FFFF_FFFFu64 == 0) ==> b
                == 0x8000_0000_0000_0000u64) by (bit_vector);
            assert(b == 0x8000_0000_0000_0000u64 ==> (b & 0x8000_0000_0000_0000u64 != 0 && b
                & 0x7FFF_FFFF_FFFF_FFFFu64 == 0)) by (bit_vector);
        }
        a == 0 && b == SIGN_MASK
    }
}

/// Runtime test for [`float_lt64`].
pub fn lt_check(a: u64, b: u64) -> (r: bool)
    ensures
        r == float_lt64(a, b),
{
    let le = le_check(b, a);
    !le
}

/// Runtime test for [`float_eq64`].
pub fn eq_check(a: u64, b: u64) -> (r: bool)
    ensures
        r == float_eq64(a, b),
{
    !nan_check(a) && !nan_check(b) && (a == b || (a & MAG_MASK == 0 && b & MAG_MASK == 0))
}

} // verus!
