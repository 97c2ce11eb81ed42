//! Cryptographic proofs which demonstrate that the amount committed to in a
//! Pedersen commitment lies in the valid range.

use vstd::prelude::*;

pub mod borromean;
pub mod bulletplus;

pub use borromean::BorromeanRangeProof;
pub use bulletplus::BulletPlusRangeProof;

verus! {

/// Commitment values (in atomic units) are allowed to be between 0 and
/// 2^`BIT_RANGE` - 1.
pub const BIT_RANGE: usize = 64;

/// Maximum commitment value (in atomic units) allowed for a rangeproof:
/// 2^`BIT_RANGE` - 1.
pub const MAX_VALUE: u64 = 0xffff_ffff_ffff_ffff;

/// Maximum number of values allowed in an aggregated Bulletproofs+ proof.
pub const MAX_AGGREGATION_SIZE: usize = 256;

} // verus!
