//! Digest functions: hash to bytes, to a curve point and to a scalar, each
//! with a domain-separated variant that appends a fixed tag to the message.
//!
//! All three rest on the Blake2b digests of the `blake2` crate, reached
//! through two trusted wrappers.

use vstd::prelude::*;

use crate::byteops::append_bytes;
use crate::curve::{group_order, le_val, uniform_point, GroupPoint, GroupScalar};

verus! {

/// The 32-byte Blake2b-256 digest of a message.
pub uninterp spec fn blake256(msg: Seq<u8>) -> Seq<u8>;

/// The 64-byte Blake2b-512 digest of a message.
pub uninterp spec fn blake512(msg: Seq<u8>) -> Seq<u8>;

/// Relies on `blake2::Blake2b` with 32-byte output: a deterministic 32-byte
/// digest of the message.
#[verifier::external_body]
fn blake2b256_digest(msg: &[u8]) -> (r: Vec<u8>)
    ensures
        r@ == blake256(msg@),
        r@.len() == 32,
{
    let mut hasher = <blake2::Blake2b<blake2::digest::consts::U32> as blake2::Digest>::new();
    blake2::Digest::update(&mut hasher, msg);
    blake2::Digest::finalize(hasher).to_vec()
}

/// Relies on `blake2::Blake2b` with 64-byte output: a deterministic 64-byte
/// digest of the message.
#[verifier::external_body]
fn blake2b512_digest(msg: &[u8]) -> (r: Vec<u8>)
    ensures
        r@ == blake512(msg@),
        r@.len() == 64,
{
    let mut hasher = <blake2::Blake2b<blake2::digest::consts::U64> as blake2::Digest>::new();
    blake2::Digest::update(&mut hasher, msg);
    blake2::Digest::finalize(hasher).to_vec()
}

/// What `h_bytes` returns: the Blake2b-256 digest.
pub open spec fn h_bytes_spec(msg: Seq<u8>) -> Seq<u8> {
    blake256(msg)
}

/// What `h_scalar` returns: the 32-byte digest read little-endian and
/// reduced modulo the group order.
pub open spec fn h_scalar_spec(msg: Seq<u8>) -> nat {
    le_val(blake256(msg)) % group_order()
}

/// What `h_point` returns: the uniform-bytes map applied to the 64-byte
/// digest.
pub open spec fn h_point_spec(msg: Seq<u8>) -> nat {
    uniform_point(blake512(msg))
}

/// Hash bytes to bytes.
pub fn h_bytes(msg: &[u8]) -> (r: Vec<u8>)
    ensures
        r@ == h_bytes_spec(msg@),
        r@.len() == 32,
{
    blake2b256_digest(msg)
}

/// Hash bytes to an elliptic curve point.
pub fn h_point(msg: &[u8]) -> (r: GroupPoint)
    ensures
        r@ == h_point_spec(msg@),
{
    let digest = blake2b512_digest(msg);
    GroupPoint::from_uniform_bytes(digest.as_slice())
}

/// Hash bytes to a scalar.
pub fn h_scalar(msg: &[u8]) -> (r: GroupScalar)
    ensures
        r@ == h_scalar_spec(msg@),
{
    let digest = blake2b256_digest(msg);
    GroupScalar::from_bytes_mod_order(digest.as_slice())
}

/// Hash bytes to bytes, domain separated.
pub fn domain_h_bytes(msg: &[u8], domain: &[u8]) -> (r: Vec<u8>)
    ensures
        r@ == h_bytes_spec(msg@ + domain@),
        r@.len() == 32,
{
    let mut buf = vstd::slice::slice_to_vec(msg);
    append_bytes(&mut buf, domain);
    h_bytes(buf.as_slice())
}

/// Hash bytes to an elliptic curve point, domain separated.
pub fn domain_h_point(msg: &[u8], domain: &[u8]) -> (r: GroupPoint)
    ensures
        r@ == h_point_spec(msg@ + domain@),
{
    let mut buf = vstd::slice::slice_to_vec(msg);
    append_bytes(&mut buf, domain);
    h_point(buf.as_slice())
}

/// Hash bytes to a scalar, domain separated.
pub fn domain_h_scalar(msg: &[u8], domain: &[u8]) -> (r: GroupScalar)
    ensures
        r@ == h_scalar_spec(msg@ + domain@),
{
    let mut buf = vstd::slice::slice_to_vec(msg);
    append_bytes(&mut buf, domain);
    h_scalar(buf.as_slice())
}

} // verus!
