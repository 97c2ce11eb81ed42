//! RingCT confidential-transaction primitives over the Ristretto group:
//! Pedersen commitments, Borromean and Bulletproofs+ range proofs, and
//! CLSAG / MLSAG linkable ring signatures, together with the stealth-address
//! key flows built on them.

pub mod address;
pub mod byteops;
pub mod curve;
pub mod domains;
pub mod errors;
pub mod hashes;
pub mod laws;
pub mod modmath;
pub mod pedersen;
pub mod rangeproof;
pub mod signature;
pub mod tobytes;
pub mod types;
