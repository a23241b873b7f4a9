//! An in-memory registry that maps human-readable identities to fixed-length
//! feature vectors and answers nearest-neighbor identity queries within a
//! distance tolerance.
//!
//! A feature vector holds 128 IEEE-754 double-precision values; throughout the
//! library each value is carried as its 64-bit pattern (`u64`), so that the
//! registry's logic can be stated and proved over plain integers.  The four
//! floating-point operations that the distance computation needs are performed
//! by a software implementation of IEEE-754 arithmetic behind narrow trusted
//! wrappers.

pub mod arith;
pub mod comparer;
pub mod encoding;
pub mod float_bits;

pub use comparer::FaceComparer;
pub use encoding::FaceEncoding;
