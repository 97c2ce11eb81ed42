//! Error taxonomy: every failure path of the library returns one of these
//! typed errors; no function panics on user input.

use vstd::prelude::*;

verus! {

/// Encoding/serialization errors.
#[derive(Debug, Clone)]
pub enum SerializationError {
    /// Failure to serialize.
    EncodingError,
    /// Failure to deserialize.
    DecodingError,
}

/// Rangeproof errors.
#[derive(Debug, Clone)]
pub enum RangeProofError {
    /// The rangeproof is invalid.
    Invalid,
    /// The given rangeproof is malformed in some way,
    /// or the parameters are incorrect/inconsistent.
    Malformed,
    /// Aggregation size was too large, see `MAX_AGGREGATION_SIZE`.
    /// This is only relevant for Bulletproofs+.
    TooLargeAggregationSize,
    /// A given value is not in the valid range (0 <= `x` < 2^`BIT_RANGE`).
    OutOfRange,
    /// Miscellaneous/unspecified error.
    Unspecified(String),
}

/// Ring signature errors.
#[derive(Debug, Clone)]
pub enum SignatureError {
    /// The signature is invalid.
    Invalid,
    /// The given signature is malformed in some way,
    /// or the parameters are incorrect/inconsistent.
    Malformed,
    /// The enote which is being signed for is not in the ring.
    EnoteNotInRing,
    /// The ring is required to be sorted, but it is not.
    UnsortedRing,
    /// Miscellaneous/unspecified error.
    Unspecified(String),
}

/// Subaddress errors.
#[derive(Debug, Clone)]
pub enum SubaddressError {
    /// The lookup table is not initialized.
    UninitializedTable,
    /// The coordinates are not initialized within the lookup table.
    UninitializedCoordinates,
    /// The extracted public spend key was not found in the lookup table.
    KeyNotFound,
    /// Miscellaneous/unspecified error.
    Unspecified(String),
}

} // verus!
