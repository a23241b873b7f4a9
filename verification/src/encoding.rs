//! The fixed-dimension feature vector and its Euclidean distance.

use vstd::prelude::*;

use crate::arith::{add_bits, f64_add, f64_mul, f64_sqrt, f64_sub, mul_bits, sqrt_bits, sub_bits};
use crate::float_bits::{eq_check, float_eq64, is_finite64, is_nan64, lemma_neg64_involution, neg64};

verus! {

/// Number of values in a feature vector.
pub const DIM: usize = 128;

/// Rejection of a raw value sequence that does not hold exactly [`DIM`] values.
#[derive(Clone, Copy, Debug, PartialEq, Eq, Structural)]
pub enum EncodingError {
    InvalidLength,
}

/// A fixed-dimension (128) ordered sequence of double-precision values, each
/// carried as its IEEE-754 bit pattern.  Immutable once built.
#[derive(Debug)]
pub struct FaceEncoding {
    bits: Vec<u64>,
}

impl View for FaceEncoding {
    type V = Seq<u64>;

    closed spec fn view(&self) -> Seq<u64> {
        self.bits@
    }
}

/// Every pattern in the sequence encodes a finite value.
pub open spec fn all_finite(s: Seq<u64>) -> bool {
    forall|i: int| 0 <= i < s.len() ==> is_finite64(#[trigger] s[i])
}

/// No pattern in the sequence encodes a NaN.
pub open spec fn all_not_nan(s: Seq<u64>) -> bool {
    forall|i: int| 0 <= i < s.len() ==> !is_nan64(#[trigger] s[i])
}

/// The two sequences encode IEEE-equal values position by position.
pub open spec fn seq_float_eq(a: Seq<u64>, b: Seq<u64>) -> bool {
    a.len() == b.len() && forall|i: int| 0 <= i < a.len() ==> float_eq64(
        #[trigger] a[i],
        #[trigger] b[i],
    )
}

/// Bit pattern of the sum of squared differences over the first `n`
/// positions, accumulated left to right as the distance loop computes it.
pub open spec fn sum_sq_bits(a: Seq<u64>, b: Seq<u64>, n: int) -> u64
    decreases n,
{
    if n <= 0 {
        0
    } else {
        let d = sub_bits(a[n - 1], b[n - 1]);
        add_bits(sum_sq_bits(a, b, n - 1), mul_bits(d, d))
    }
}

/// Bit pattern of the Euclidean distance between the encoded vectors.
pub open spec fn dist_bits(a: Seq<u64>, b: Seq<u64>) -> u64 {
    sqrt_bits(sum_sq_bits(a, b, 128))
}

impl FaceEncoding {
    /// The vector holds exactly [`DIM`] values.
    pub open spec fn wf(&self) -> bool {
        self@.len() == 128
    }

    /// The all-zero vector.
    pub fn new() -> (r: Self)
        ensures
            r.wf(),
            forall|i: int| 0 <= i < 128 ==> r@[i] == 0,
    {
        Self::new_from_scalar(0)
    }

    /// A vector with the value encoded by `scalar` at every position.
    pub fn new_from_scalar(scalar: u64) -> (r: Self)
        ensures
            r.wf(),
            forall|i: int| 0 <= i < 128 ==> r@[i] == scalar,
    {
        let mut bits: Vec<u64> = Vec::new();
        let mut i: usize = 0;
        while i < DIM
            invariant
                i <= 128,
                bits@.len() == i,
                forall|j: int| 0 <= j < i ==> bits@[j] == scalar,
            decreases 128 - i,
        {
            bits.push(scalar);
            i = i + 1;
        }
        FaceEncoding { bits }
    }

    /// Builds a vector from raw value patterns; the validation boundary for
    /// external input.  Accepts exactly [`DIM`] values, never padding or
    /// truncating.
    pub fn from_vec(values: Vec<u64>) -> (r: Result<Self, EncodingError>)
        ensures
            r is Ok <==> values@.len() == 128,
            r matches Ok(e) ==> e.wf() && e@ == values@,
            r matches Err(err) ==> err == EncodingError::InvalidLength,
    {
        if values.len() == DIM {
            Ok(FaceEncoding { bits: values })
        } else {
            Err(EncodingError::InvalidLength)
        }
    }

    /// Number of stored values.
    pub fn len(&self) -> (r: usize)
        ensures
            r == self@.len(),
    {
        self.bits.len()
    }

    /// Read-only view: the stored value patterns, in order.
    pub fn values(&self) -> (r: Vec<u64>)
        ensures
            r@ == self@,
    {
        let mut out: Vec<u64> = Vec::new();
        let mut i: usize = 0;
        while i < self.bits.len()
            invariant
                i <= self.bits@.len(),
                out@.len() == i,
                forall|j: int| 0 <= j < i ==> out@[j] == self.bits@[j],
            decreases self.bits@.len() - i,
        {
            out.push(self.bits[i]);
            i = i + 1;
        }
        proof {
            assert(out@ =~= self@);
        }
        out
    }

    /// The stored value pattern at position `i`.
    pub fn get(&self, i: usize) -> (r: u64)
        requires
            i < self@.len(),
        ensures
            r == self@[i as int],
    {
        self.bits[i]
    }

    /// Euclidean distance between the encoded vectors, as a bit pattern:
    /// the square root of the sum of squared position-wise differences,
    /// accumulated in full double precision.
    ///
    /// Two laws are part of the contract: the distance of a finite vector to
    /// itself is zero, and on vectors free of NaN values the distance is
    /// symmetric in its two operands.
    pub fn distance(&self, other: &Self) -> (r: u64)
        requires
            self.wf(),
            other.wf(),
        ensures
            r == dist_bits(self@, other@),
            all_not_nan(self@) && all_not_nan(other@) ==> r == dist_bits(other@, self@),
            self@ == other@ && all_finite(self@) ==> r == 0,
    {
        let mut acc: u64 = 0;
        let mut i: usize = 0;
        while i < DIM
            invariant
                self.wf(),
                other.wf(),
                i <= 128,
                acc == sum_sq_bits(self@, other@, i as int),
                all_not_nan(self@) && all_not_nan(other@) ==> acc == sum_sq_bits(
                    other@,
                    self@,
                    i as int,
                ),
                self@ == other@ && all_finite(self@) ==> acc == 0,
            decreases 128 - i,
        {
            let a = self.bits[i];
            let b = other.bits[i];
            let d = f64_sub(a, b);
            let sq = f64_mul(d, d);
            proof {
                if !is_nan64(a) && !is_nan64(b) && a != b {
                    lemma_neg64_involution(sub_bits(b, a));
                    assert(sub_bits(b, a) == neg64(d));
                }
            }
            acc = f64_add(acc, sq);
            i = i + 1;
        }
        f64_sqrt(acc)
    }

    /// Position-wise IEEE equality of the encoded values.  NaN-sensitive: a
    /// NaN value is unequal even to itself.
    pub fn equals(&self, other: &Self) -> (r: bool)
        ensures
            r == seq_float_eq(self@, other@),
    {
        if self.bits.len() != other.bits.len() {
            return false;
        }
        let n = self.bits.len();
        let mut i: usize = 0;
        while i < n
            invariant
                n == self.bits@.len(),
                n == other.bits@.len(),
                i <= n,
                forall|j: int| 0 <= j < i ==> float_eq64(
                    #[trigger] self.bits@[j],
                    #[trigger] other.bits@[j],
                ),
            decreases n - i,
        {
            if !eq_check(self.bits[i], other.bits[i]) {
                return false;
            }
            i = i + 1;
        }
        true
    }
}

impl Clone for FaceEncoding {
    /// A clone stores the same value patterns.
    fn clone(&self) -> (r: Self)
        ensures
            r@ == self@,
    {
        FaceEncoding { bits: self.values() }
    }
}

impl PartialEq for FaceEncoding {
    fn eq(&self, other: &Self) -> (r: bool) {
        self.equals(other)
    }
}

impl vstd::std_specs::cmp::PartialEqSpecImpl for FaceEncoding {
    open spec fn obeys_eq_spec() -> bool {
        true
    }

    open spec fn eq_spec(&self, other: &Self) -> bool {
        seq_float_eq(self@, other@)
    }
}

/// Law: rebuilding a vector from its exposed values yields a vector that
/// stores the same patterns, hence encodes the same values.
pub proof fn lemma_round_trip(e: FaceEncoding, raw: Seq<u64>, rebuilt: FaceEncoding)
    requires
        e.wf(),
        raw == e@,
        rebuilt@ == raw,
    ensures
        rebuilt@ == e@,
{
}

} // verus!
