//! Trusted access to software IEEE-754 double-precision arithmetic.
//!
//! Each operation takes and returns 64-bit patterns.  What a correctly
//! rounded operation returns on given patterns is not restated here; the
//! result of each operation is given a name (`add_bits`, `sub_bits`,
//! `mul_bits`, `sqrt_bits`), and beside each name stand only the few
//! IEEE-754 facts that the library's proofs need.  All operations round to
//! nearest, ties to even.

use vstd::prelude::*;

use crate::float_bits::{is_finite64, is_nan64, neg64};

verus! {

/// What `const_soft_float::soft_f64::SoftF64::add` returns for the given
/// operand patterns.
pub uninterp spec fn add_bits(a: u64, b: u64) -> u64;

/// What `const_soft_float::soft_f64::SoftF64::sub` returns for the given
/// operand patterns.
pub uninterp spec fn sub_bits(a: u64, b: u64) -> u64;

/// What `const_soft_float::soft_f64::SoftF64::mul` returns for the given
/// operand patterns.
pub uninterp spec fn mul_bits(a: u64, b: u64) -> u64;

/// What `const_soft_float::soft_f64::SoftF64::sqrt` returns for the given
/// operand pattern.
pub uninterp spec fn sqrt_bits(a: u64) -> u64;

/// Relies on `const_soft_float::soft_f64::SoftF64::add`, IEEE-754 addition
/// rounded to nearest, ties to even: the sum of the doubles encoded by `a`
/// and `b`, as a bit pattern.  The sum of two positive zeroes is a positive
/// zero.
#[verifier::external_body]
pub(crate) fn f64_add(a: u64, b: u64) -> (r: u64)
    ensures
        r == add_bits(a, b),
        a == 0 && b == 0 ==> r == 0,
{
    let x = const_soft_float::soft_f64::SoftF64::from_bits(a);
    let y = const_soft_float::soft_f64::SoftF64::from_bits(b);
    x.add(y).to_bits()
}

/// Relies on `const_soft_float::soft_f64::SoftF64::sub`, IEEE-754
/// subtraction rounded to nearest, ties to even: the difference of the
/// doubles encoded by `a` and `b`, as a bit pattern.  A finite value minus
/// itself is a positive zero; and for non-NaN operands with distinct
/// patterns the difference is not a NaN and negates exactly when the
/// operands swap.
#[verifier::external_body]
pub(crate) fn f64_sub(a: u64, b: u64) -> (r: u64)
    ensures
        r == sub_bits(a, b),
        is_finite64(a) && a == b ==> r == 0,
        !is_nan64(a) && !is_nan64(b) && a != b ==> !is_nan64(r) && r == neg64(sub_bits(b, a)),
{
    let x = const_soft_float::soft_f64::SoftF64::from_bits(a);
    let y = const_soft_float::soft_f64::SoftF64::from_bits(b);
    x.sub(y).to_bits()
}

/// Relies on `const_soft_float::soft_f64::SoftF64::mul`, IEEE-754
/// multiplication rounded to nearest, ties to even: the product of the
/// doubles encoded by `a` and `b`, as a bit pattern.  The product of two
/// positive zeroes is a positive zero; and negating both non-NaN operands
/// leaves the product unchanged.
#[verifier::external_body]
pub(crate) fn f64_mul(a: u64, b: u64) -> (r: u64)
    ensures
        r == mul_bits(a, b),
        a == 0 && b == 0 ==> r == 0,
        !is_nan64(a) && !is_nan64(b) ==> r == mul_bits(neg64(a), neg64(b)),
{
    let x = const_soft_float::soft_f64::SoftF64::from_bits(a);
    let y = const_soft_float::soft_f64::SoftF64::from_bits(b);
    x.mul(y).to_bits()
}

/// Relies on `const_soft_float::soft_f64::SoftF64::sqrt`, the correctly
/// rounded IEEE-754 square root: the square root of the double encoded by
/// `a`, as a bit pattern.  The square root of a positive zero is a positive
/// zero.
#[verifier::external_body]
pub(crate) fn f64_sqrt(a: u64) -> (r: u64)
    ensures
        r == sqrt_bits(a),
        a == 0 ==> r == 0,
{
    let x = const_soft_float::soft_f64::SoftF64::from_bits(a);
    x.sqrt().to_bits()
}

} // verus!
