//! RingCT-related ring signatures.
//!
//! Given an enote, its private keys, and a ring containing that enote (along
//! with decoys), a ring signature proves that the enote's owner authorizes
//! the signature without revealing which enote is being spent, that the key
//! image is correct, and that the pseudo-output commits to the same value as
//! the spent enote.

pub mod clsag;
pub mod mlsag;
pub mod signature_utils;

pub use clsag::CLSAGSignature;
pub use mlsag::MLSAGSignature;

