//! The public side of stealth subaddressing: a per-subaddress (view, spend)
//! public keypair and the send flow against it.  **By default this protocol
//! is vulnerable to the Janus attack.**

use vstd::prelude::*;

use crate::address::ecdh::{
    shared_secret_spec, ss_amount_key, ss_scalar, ss_view_tag, SharedSecret,
};
use crate::address::Recipient;
use crate::byteops::append_bytes;
use crate::curve::{
    batch_encode_points, group_order, point_repr, random_scalar, sadd, smul, GroupPoint,
    GroupScalar,
};
use crate::errors::SerializationError;
use crate::hashes::h_scalar;
use crate::modmath::lemma_mod_small;

verus! {

/// The relation a produced recipient record bears to a subaddress, the
/// amount, and the transaction secret key: under subaddressing, the
/// transaction key is the spend key raised to the secret, and the shared
/// secret is taken against the view key.
pub open spec fn subaddress_send_relation(
    view_pk: nat,
    spend_pk: nat,
    amount: u64,
    tsk: nat,
    blinding: nat,
    rec: Recipient,
) -> bool {
    let ss = shared_secret_spec(tsk, view_pk);
    &&& blinding == ss_scalar(ss)
    &&& rec.view_tag == ss_view_tag(ss)
    &&& rec.encrypted_amount == (amount ^ ss_amount_key(ss))
    &&& rec.public_key@ == sadd(spend_pk, ss_scalar(ss))
    &&& rec.transaction_key matches Some(k) && k@ == smul(spend_pk, tsk)
}

/// Public keys of a subaddress.
#[derive(Clone, Copy)]
pub struct SubaddressPublic {
    pub view: GroupPoint,
    pub spend: GroupPoint,
}

impl SubaddressPublic {
    /// Given a private key, calculate the shared secret of these keys and
    /// the public transaction key the recipient needs to recreate it.
    /// **The private key and transaction key should not be reused.**
    pub fn shared_secret(&self, other_private: GroupScalar) -> (r: (SharedSecret, GroupPoint))
        ensures
            r.0@ == shared_secret_spec(other_private@, self.view@),
            r.1@ == smul(self.spend@, other_private@),
    {
        (SharedSecret::get(other_private, &self.view), self.spend.mul(other_private))
    }

    /// Derive the unique ephemeral public key from a shared secret.
    /// **These keys should never be reused.**
    pub fn derive_key(&self, shared_secret: SharedSecret) -> (r: GroupPoint)
        ensures
            r@ == sadd(self.spend@, ss_scalar(shared_secret@)),
    {
        proof {
            use_type_invariant(&self.spend);
        }
        let ssc = shared_secret.as_scalar();
        proof {
            use_type_invariant(&ssc);
            lemma_mod_small(ssc@ as int);
        }
        self.spend.add(GroupPoint::basepoint().mul(ssc))
    }

    /// Send to this subaddress with an automatically generated transaction
    /// key.  Returns the blinding factor of the Pedersen commitment and the
    /// public recipient record.
    pub fn send(&self, amount: u64) -> (r: (GroupScalar, Recipient))
        ensures
            exists|tsk: nat|
                tsk < group_order() && #[trigger] subaddress_send_relation(
                    self.view@,
                    self.spend@,
                    amount,
                    tsk,
                    r.0@,
                    r.1,
                ),
    {
        let mut pts: Vec<GroupPoint> = Vec::new();
        pts.push(self.view);
        pts.push(self.spend);
        let encoded = batch_encode_points(&pts);
        let mut buf = vstd::slice::slice_to_vec(encoded[0].as_slice());
        append_bytes(&mut buf, encoded[1].as_slice());
        let amount_bytes = crate::byteops::u64_to_le(amount);
        append_bytes(&mut buf, amount_bytes.as_slice());
        let seed = h_scalar(buf.as_slice());
        let transaction_sk = seed.add(random_scalar());

        let (shared_secret, transaction_key) = self.shared_secret(transaction_sk);
        let view_tag = shared_secret.get_view_tag();
        let encrypted_amount = shared_secret.encrypt_amount(amount);
        let blinding = shared_secret.as_scalar();
        let public_key = self.derive_key(shared_secret);
        let rec = Recipient {
            public_key,
            transaction_key: Some(transaction_key),
            view_tag,
            encrypted_amount,
        };
        let result = (blinding, rec);
        proof {
            use_type_invariant(&transaction_sk);
            assert(transaction_sk@ < group_order() && subaddress_send_relation(
                self.view@,
                self.spend@,
                amount,
                transaction_sk@,
                result.0@,
                result.1,
            ));
        }
        result
    }

    /// Serialize the keys: view point then spend point, 64 bytes.
    pub fn to_bytes(&self) -> (r: Result<Vec<u8>, SerializationError>)
        ensures
            r matches Ok(b) ==> b@ == point_repr(self.view@) + point_repr(self.spend@),
            r is Ok,
    {
        let mut out = self.view.encode();
        let spend = self.spend.encode();
        append_bytes(&mut out, spend.as_slice());
        Ok(out)
    }

    /// Deserialize keys from 64 bytes; invalid point encodings are rejected.
    pub fn from_bytes(bytes: &[u8]) -> (r: Result<SubaddressPublic, SerializationError>)
        ensures
            r matches Ok(k) ==> bytes@.len() == 64 && point_repr(k.view@) == bytes@.subrange(
                0,
                32,
            ) && point_repr(k.spend@) == bytes@.subrange(32, 64),
            r matches Err(e) ==> e is DecodingError,
    {
        if bytes.len() != 64 {
            return Err(SerializationError::DecodingError);
        }
        let view = match GroupPoint::decode(vstd::slice::slice_subrange(bytes, 0, 32)) {
            Some(p) => p,
            None => {
                return Err(SerializationError::DecodingError);
            },
        };
        let spend = match GroupPoint::decode(vstd::slice::slice_subrange(bytes, 32, 64)) {
            Some(p) => p,
            None => {
                return Err(SerializationError::DecodingError);
            },
        };
        Ok(SubaddressPublic { view, spend })
    }
}

} // verus!
