//! Elliptic-curve Diffie-Hellman shared secrets, and the view tags, amount
//! encryption and key derivation built on them.

use vstd::prelude::*;

use crate::byteops::u64_from_be;
use crate::curve::{
    group_order, le_val, point_repr, random_scalar, sadd, smul, GroupPoint, GroupScalar,
};
use crate::domains::{
    ecdh_encryption_key, ecdh_private_key, ecdh_view_tag, spec_ecdh_encryption_key,
    spec_ecdh_private_key, spec_ecdh_view_tag,
};
use crate::errors::SerializationError;
use crate::hashes::{domain_h_bytes, domain_h_scalar, h_bytes_spec};
use crate::types::ViewTag;

verus! {

/// The shared secret of a private key `sk` and a public key with discrete
/// logarithm `pk`: the single-point encoding of `sk * P`.
pub open spec fn shared_secret_spec(sk: nat, pk: nat) -> Seq<u8> {
    point_repr(smul(pk, sk))
}

/// The scalar a shared secret converts to: its bytes read little-endian and
/// reduced.
pub open spec fn ss_scalar(ss: Seq<u8>) -> nat {
    le_val(ss) % group_order()
}

/// The view tag of a shared secret: the first byte of its tag-domain hash.
pub open spec fn ss_view_tag(ss: Seq<u8>) -> u8 {
    h_bytes_spec(ss + spec_ecdh_view_tag())[0]
}

/// The amount-encryption pad of a shared secret: the first eight bytes of
/// its encryption-domain hash, read big-endian.
pub open spec fn ss_amount_key(ss: Seq<u8>) -> u64 {
    vstd::bytes::spec_u64_from_le_bytes(
        h_bytes_spec(ss + spec_ecdh_encryption_key()).subrange(0, 8).reverse(),
    )
}

/// A shared secret between two keys `A` and `B`: computable from the
/// private key of either together with the public key of the other, and
/// from nothing less.  **This should not be publicly shared.**
pub struct SharedSecret {
    bytes: Vec<u8>,
}

impl View for SharedSecret {
    type V = Seq<u8>;

    closed spec fn view(&self) -> Seq<u8> {
        self.bytes@
    }
}

impl Clone for SharedSecret {
    fn clone(&self) -> (r: SharedSecret)
        ensures
            r@ == self@,
    {
        proof {
            use_type_invariant(self);
        }
        SharedSecret { bytes: vstd::slice::slice_to_vec(self.bytes.as_slice()) }
    }
}

impl PartialEq for SharedSecret {
    fn eq(&self, other: &SharedSecret) -> (r: bool) {
        crate::byteops::bytes_eq(self.bytes.as_slice(), other.bytes.as_slice())
    }
}

impl Eq for SharedSecret {

}

impl vstd::std_specs::cmp::PartialEqSpecImpl for SharedSecret {
    open spec fn obeys_eq_spec() -> bool {
        true
    }

    open spec fn eq_spec(&self, other: &SharedSecret) -> bool {
        self@ == other@
    }
}

impl SharedSecret {
    #[verifier::type_invariant]
    pub open spec fn type_inv(self) -> bool {
        self@.len() == 32
    }

    /// Import a point as a shared secret: its single-point encoding.
    pub(crate) fn from_point(point: &GroupPoint) -> (r: SharedSecret)
        ensures
            r@ == point_repr(point@),
    {
        SharedSecret { bytes: point.encode() }
    }

    /// Given one user's private key and another user's public key, create
    /// the one-time shared secret only those two users know.
    pub(crate) fn get(my_private: GroupScalar, other_public: &GroupPoint) -> (r: SharedSecret)
        ensures
            r@ == shared_secret_spec(my_private@, other_public@),
    {
        SharedSecret::from_point(&other_public.mul(my_private))
    }

    /// Calculate the view tag associated with this shared secret.
    pub fn get_view_tag(&self) -> (r: ViewTag)
        ensures
            r == ss_view_tag(self@),
    {
        let tag = ecdh_view_tag();
        let digest = domain_h_bytes(self.bytes.as_slice(), tag.as_slice());
        digest[0]
    }

    /// Convert this shared secret to a scalar.
    pub fn as_scalar(&self) -> (r: GroupScalar)
        ensures
            r@ == ss_scalar(self@),
    {
        proof {
            use_type_invariant(self);
        }
        GroupScalar::from_bytes_mod_order(self.bytes.as_slice())
    }

    /// Encrypt a 64-bit amount with this shared secret, by xor against the
    /// secret's encryption pad.
    pub fn encrypt_amount(&self, amount: u64) -> (r: u64)
        ensures
            r == amount ^ ss_amount_key(self@),
    {
        let tag = ecdh_encryption_key();
        let digest = domain_h_bytes(self.bytes.as_slice(), tag.as_slice());
        let key = u64_from_be(vstd::slice::slice_subrange(digest.as_slice(), 0, 8));
        amount ^ key
    }

    /// Decrypt a 64-bit amount with this shared secret.
    pub fn decrypt_amount(&self, encrypted_amount: u64) -> (r: u64)
        ensures
            r == encrypted_amount ^ ss_amount_key(self@),
    {
        self.encrypt_amount(encrypted_amount)
    }

    /// Serialize the shared secret: its raw 32 bytes.
    pub fn to_bytes(&self) -> (r: Result<Vec<u8>, SerializationError>)
        ensures
            r matches Ok(b) ==> b@ == self@,
            r is Ok,
    {
        Ok(vstd::slice::slice_to_vec(self.bytes.as_slice()))
    }

    /// Deserialize a shared secret from exactly 32 raw bytes.
    pub fn from_bytes(bytes: &[u8]) -> (r: Result<SharedSecret, SerializationError>)
        ensures
            r is Ok <==> bytes@.len() == 32,
            r matches Ok(s) ==> s@ == bytes@,
            r matches Err(e) ==> e is DecodingError,
    {
        if bytes.len() != 32 {
            return Err(SerializationError::DecodingError);
        }
        Ok(SharedSecret { bytes: vstd::slice::slice_to_vec(bytes) })
    }
}

/// Encrypting and then decrypting an amount under the same pad returns the
/// amount: the xor cipher is an involution.
pub proof fn lemma_amount_cipher_involution(amount: u64, key: u64)
    ensures
        (amount ^ key) ^ key == amount,
{
    assert((amount ^ key) ^ key == amount) by (bit_vector);
}

/// ECDH private-key operations, implemented for scalars.
pub trait ECDHPrivateKey: Sized {
    /// Convert this private key into a public key with a custom basepoint.
    /// **These keys should never be reused.**
    fn to_public_with_base(&self, base: GroupPoint) -> GroupPoint;

    /// Convert this private key into a public key.
    fn to_public(&self) -> GroupPoint;

    /// Given a public key, calculate the shared secret of these keys.
    fn shared_secret(&self, other_public: &GroupPoint) -> SharedSecret;

    /// Deterministically derive a unique ephemeral private key from a shared
    /// secret; the basepoint is accepted only for interface consistency.
    fn derive_key_with_base(&self, shared_secret: SharedSecret, base: GroupPoint) -> Self;

    /// Deterministically derive a unique ephemeral private key from a shared
    /// secret.  **These keys should never be reused.**
    fn derive_key(&self, shared_secret: SharedSecret) -> Self;

    /// Deterministically convert a seed into a private key.
    fn from_seed(bytes: &[u8]) -> Self;

    /// Generate a random new private key.
    fn generate() -> Self;
}

impl ECDHPrivateKey for GroupScalar {
    fn to_public_with_base(&self, base: GroupPoint) -> GroupPoint {
        base.mul(*self)
    }

    fn to_public(&self) -> GroupPoint {
        GroupPoint::basepoint().mul(*self)
    }

    fn shared_secret(&self, other_public: &GroupPoint) -> SharedSecret {
        SharedSecret::get(*self, other_public)
    }

    fn derive_key_with_base(&self, shared_secret: SharedSecret, base: GroupPoint) -> GroupScalar {
        self.derive_key(shared_secret)
    }

    fn derive_key(&self, shared_secret: SharedSecret) -> GroupScalar {
        self.add(shared_secret.as_scalar())
    }

    fn from_seed(bytes: &[u8]) -> GroupScalar {
        let tag = ecdh_private_key();
        domain_h_scalar(bytes, tag.as_slice())
    }

    fn generate() -> GroupScalar {
        random_scalar()
    }
}

/// ECDH public-key operations, implemented for curve points.
pub trait ECDHPublicKey: Sized {
    /// Given a private key, calculate the shared secret of these keys.
    fn shared_secret(&self, other_private: GroupScalar) -> SharedSecret;

    /// Deterministically derive a unique ephemeral public key from a shared
    /// secret and a custom basepoint.  **These keys should never be reused.**
    fn derive_key_with_base(&self, shared_secret: SharedSecret, base: GroupPoint) -> Self;

    /// Derive the unique ephemeral public key from a shared secret.
    /// **These keys should never be reused.**
    fn derive_key(&self, shared_secret: SharedSecret) -> Self;
}

impl ECDHPublicKey for GroupPoint {
    fn shared_secret(&self, other_private: GroupScalar) -> SharedSecret {
        SharedSecret::get(other_private, self)
    }

    fn derive_key_with_base(&self, shared_secret: SharedSecret, base: GroupPoint) -> GroupPoint {
        self.add(base.mul(shared_secret.as_scalar()))
    }

    fn derive_key(&self, shared_secret: SharedSecret) -> GroupPoint {
        self.add(GroupPoint::basepoint().mul(shared_secret.as_scalar()))
    }
}

} // verus!
