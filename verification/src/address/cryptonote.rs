//! CryptoNote-style stealth addresses: a view/spend keypair, one-time
//! payment detection through shared secrets and view tags, and amount
//! encryption.

use vstd::prelude::*;

use crate::address::ecdh::{
    shared_secret_spec, ss_amount_key, ss_scalar, ss_view_tag, SharedSecret,
};
use crate::address::Recipient;
use crate::byteops::append_bytes;
use crate::curve::{
    batch_encode_points, batch_repr, group_order, le_bytes, le_val, point_repr, random_scalar,
    sadd, GroupPoint, GroupScalar,
};
use crate::domains::{
    cryptonote_private_spend, cryptonote_private_view, spec_cryptonote_private_spend,
    spec_cryptonote_private_view,
};
use crate::errors::SerializationError;
use crate::hashes::{h_scalar, h_scalar_spec};
use crate::modmath::lemma_mod_small;
use crate::pedersen::commit_spec;
use crate::types::{Commitment, EnoteKeys};

verus! {

/// The value recovered from an encrypted amount under a shared secret.
pub open spec fn cn_receive_value(ss: Seq<u8>, encrypted_amount: u64) -> u64 {
    encrypted_amount ^ ss_amount_key(ss)
}

/// Whether a recipient record is accepted by keys (`view`, `spend`) with
/// commitment `com` under transaction key `txk`: the view tag, the derived
/// public key, and the commitment must all match.
pub open spec fn cn_accepts(view: nat, spend: nat, r: Recipient, com: nat, txk: nat) -> bool {
    let ss = shared_secret_spec(view, txk);
    &&& ss_view_tag(ss) == r.view_tag
    &&& r.public_key@ == sadd(spend, ss_scalar(ss))
    &&& com == commit_spec(cn_receive_value(ss, r.encrypted_amount) as nat, ss_scalar(ss))
}

/// The relation a produced recipient record bears to the address keys, the
/// amount, the transaction secret key and the returned blinding factor.
pub open spec fn cn_send_relation(
    view_pk: nat,
    spend_pk: nat,
    amount: u64,
    tsk: nat,
    blinding: nat,
    rec: Recipient,
    include_txn_key: bool,
) -> bool {
    let ss = shared_secret_spec(tsk, view_pk);
    &&& blinding == ss_scalar(ss)
    &&& rec.view_tag == ss_view_tag(ss)
    &&& rec.encrypted_amount == (amount ^ ss_amount_key(ss))
    &&& rec.public_key@ == sadd(spend_pk, ss_scalar(ss))
    &&& if include_txn_key {
        rec.transaction_key matches Some(k) && k@ == tsk
    } else {
        rec.transaction_key is None
    }
}

/// Private keys of a CryptoNote address.  These keys can view *and* spend
/// funds sent to this wallet.
#[derive(Clone)]
pub struct CryptoNotePrivate {
    pub view: GroupScalar,
    pub spend: GroupScalar,
}

impl CryptoNotePrivate {
    /// Convert this private key into a public key.
    pub fn to_public(&self) -> (r: CryptoNotePublic)
        ensures
            r.view@ == self.view@,
            r.spend@ == self.spend@,
    {
        proof {
            use_type_invariant(&self.view);
            use_type_invariant(&self.spend);
            lemma_mod_small(self.view@ as int);
            lemma_mod_small(self.spend@ as int);
        }
        CryptoNotePublic {
            view: GroupPoint::basepoint().mul(self.view),
            spend: GroupPoint::basepoint().mul(self.spend),
        }
    }

    /// Convert this private key into a view-only private key.
    pub fn to_view_only(&self) -> (r: CryptoNotePrivateView)
        ensures
            r.view@ == self.view@,
            r.spend@ == self.spend@,
    {
        proof {
            use_type_invariant(&self.spend);
            lemma_mod_small(self.spend@ as int);
        }
        CryptoNotePrivateView {
            view: self.view,
            spend: GroupPoint::basepoint().mul(self.spend),
        }
    }

    /// Given a public key, calculate the shared secret of these keys.
    /// **The public key should not be reused.**
    pub fn shared_secret(&self, other_public: &GroupPoint) -> (r: SharedSecret)
        ensures
            r@ == shared_secret_spec(self.view@, other_public@),
    {
        SharedSecret::get(self.view, other_public)
    }

    /// Deterministically derive a unique ephemeral private key from a
    /// shared secret.  **These keys should never be reused.**
    pub fn derive_key(&self, shared_secret: SharedSecret) -> (r: GroupScalar)
        ensures
            r@ == sadd(self.spend@, ss_scalar(shared_secret@)),
    {
        self.spend.add(shared_secret.as_scalar())
    }

    /// Generate a random new private key.
    pub fn generate() -> (r: CryptoNotePrivate) {
        CryptoNotePrivate { view: random_scalar(), spend: random_scalar() }
    }

    /// Deterministically convert a seed into a CryptoNote private key.
    pub fn from_seed(bytes: &[u8]) -> (r: CryptoNotePrivate)
        ensures
            r.view@ == h_scalar_spec(bytes@ + spec_cryptonote_private_view()),
            r.spend@ == h_scalar_spec(bytes@ + spec_cryptonote_private_spend()),
    {
        let view_tag = cryptonote_private_view();
        let spend_tag = cryptonote_private_spend();
        CryptoNotePrivate {
            view: crate::hashes::domain_h_scalar(bytes, view_tag.as_slice()),
            spend: crate::hashes::domain_h_scalar(bytes, spend_tag.as_slice()),
        }
    }

    /// Receive a payment, decrypting its content, given the Pedersen
    /// commitment.  Returns the enote's private keys if the enote belongs
    /// to these keys.
    pub fn receive(&self, recipient: &Recipient, commitment: &Commitment) -> (r: Option<
        EnoteKeys,
    >)
        ensures
            r is Some <==> (recipient.transaction_key matches Some(txk) && cn_accepts(
                self.view@,
                self.spend@,
                *recipient,
                commitment@,
                txk@,
            )),
            r matches Some(k) ==> recipient.transaction_key matches Some(txk) && k.owner@ == sadd(
                self.spend@,
                ss_scalar(shared_secret_spec(self.view@, txk@)),
            ) && k.value == cn_receive_value(
                shared_secret_spec(self.view@, txk@),
                recipient.encrypted_amount,
            ) && k.blinding@ == ss_scalar(shared_secret_spec(self.view@, txk@)),
    {
        match recipient.transaction_key {
            Some(transaction_key) => self.receive_internal(recipient, commitment, transaction_key),
            None => None,
        }
    }

    /// Receive a payment given the Pedersen commitment and an explicit
    /// transaction/ECDH key.
    pub fn receive_with_key(
        &self,
        recipient: &Recipient,
        commitment: &Commitment,
        transaction_key: GroupPoint,
    ) -> (r: Option<EnoteKeys>)
        ensures
            r is Some <==> cn_accepts(
                self.view@,
                self.spend@,
                *recipient,
                commitment@,
                transaction_key@,
            ),
            r matches Some(k) ==> k.owner@ == sadd(
                self.spend@,
                ss_scalar(shared_secret_spec(self.view@, transaction_key@)),
            ) && k.value == cn_receive_value(
                shared_secret_spec(self.view@, transaction_key@),
                recipient.encrypted_amount,
            ) && k.blinding@ == ss_scalar(shared_secret_spec(self.view@, transaction_key@)),
    {
        self.receive_internal(recipient, commitment, transaction_key)
    }

    /// Internal receiving functionality.
    fn receive_internal(
        &self,
        recipient: &Recipient,
        commitment: &Commitment,
        transaction_key: GroupPoint,
    ) -> (r: Option<EnoteKeys>)
        ensures
            r is Some <==> cn_accepts(
                self.view@,
                self.spend@,
                *recipient,
                commitment@,
                transaction_key@,
            ),
            r matches Some(k) ==> k.owner@ == sadd(
                self.spend@,
                ss_scalar(shared_secret_spec(self.view@, transaction_key@)),
            ) && k.value == cn_receive_value(
                shared_secret_spec(self.view@, transaction_key@),
                recipient.encrypted_amount,
            ) && k.blinding@ == ss_scalar(shared_secret_spec(self.view@, transaction_key@)),
    {
        let shared_secret = self.shared_secret(&transaction_key);
        if shared_secret.get_view_tag() != recipient.view_tag {
            return None;
        }
        let owner = self.derive_key(shared_secret.clone());
        proof {
            use_type_invariant(&owner);
            lemma_mod_small(owner@ as int);
        }
        if !(GroupPoint::basepoint().mul(owner) == recipient.public_key) {
            return None;
        }
        let value = shared_secret.decrypt_amount(recipient.encrypted_amount);
        let blinding = shared_secret.as_scalar();
        if !(Commitment::commit(value, blinding) == *commitment) {
            return None;
        }
        Some(EnoteKeys { owner, value, blinding })
    }

    /// Serialize the keys: view scalar then spend scalar, 64 bytes.
    pub fn to_bytes(&self) -> (r: Result<Vec<u8>, SerializationError>)
        ensures
            r matches Ok(b) ==> b@ == le_bytes(self.view@, 32) + le_bytes(self.spend@, 32),
            r is Ok,
    {
        let mut out = self.view.to_bytes();
        let spend = self.spend.to_bytes();
        append_bytes(&mut out, spend.as_slice());
        Ok(out)
    }

    /// Deserialize keys from 64 bytes; non-canonical scalars are rejected.
    pub fn from_bytes(bytes: &[u8]) -> (r: Result<CryptoNotePrivate, SerializationError>)
        ensures
            r matches Ok(k) ==> bytes@.len() == 64 && k.view@ == le_val(bytes@.subrange(0, 32))
                && k.spend@ == le_val(bytes@.subrange(32, 64)),
            r matches Err(e) ==> e is DecodingError,
    {
        if bytes.len() != 64 {
            return Err(SerializationError::DecodingError);
        }
        let view = match GroupScalar::from_canonical_bytes(
            vstd::slice::slice_subrange(bytes, 0, 32),
        ) {
            Some(s) => s,
            None => {
                return Err(SerializationError::DecodingError);
            },
        };
        let spend = match GroupScalar::from_canonical_bytes(
            vstd::slice::slice_subrange(bytes, 32, 64),
        ) {
            Some(s) => s,
            None => {
                return Err(SerializationError::DecodingError);
            },
        };
        Ok(CryptoNotePrivate { view, spend })
    }
}

/// Private view-only key of a CryptoNote address.  This key can only *view*
/// funds sent to this wallet.
#[derive(Clone)]
pub struct CryptoNotePrivateView {
    pub view: GroupScalar,
    pub spend: GroupPoint,
}

impl CryptoNotePrivateView {
    /// Convert this private key into a public key.
    pub fn to_public(&self) -> (r: CryptoNotePublic)
        ensures
            r.view@ == self.view@,
            r.spend@ == self.spend@,
    {
        proof {
            use_type_invariant(&self.view);
            lemma_mod_small(self.view@ as int);
        }
        CryptoNotePublic { view: GroupPoint::basepoint().mul(self.view), spend: self.spend }
    }

    /// Given a public key, calculate the shared secret of these keys.
    pub fn shared_secret(&self, other_public: &GroupPoint) -> (r: SharedSecret)
        ensures
            r@ == shared_secret_spec(self.view@, other_public@),
    {
        SharedSecret::get(self.view, other_public)
    }

    /// Deterministically derive the unique ephemeral public key from a
    /// shared secret.  **These keys should never be reused.**
    pub fn derive_key(&self, shared_secret: SharedSecret) -> (r: GroupPoint)
        ensures
            r@ == sadd(self.spend@, ss_scalar(shared_secret@)),
    {
        proof {
            use_type_invariant(&self.spend);
        }
        let ssc = shared_secret.as_scalar();
        proof {
            use_type_invariant(&ssc);
            lemma_mod_small(ssc@ as int);
        }
        self.spend.add(GroupPoint::basepoint().mul(ssc))
    }

    /// Create a viewing keypair from a private view key and a public spend
    /// key.
    pub fn from_keys(private_view: GroupScalar, public_spend: GroupPoint) -> (r:
        CryptoNotePrivateView)
        ensures
            r.view@ == private_view@,
            r.spend@ == public_spend@,
    {
        CryptoNotePrivateView { view: private_view, spend: public_spend }
    }

    /// Receive a payment, given the Pedersen commitment.  Returns the amount
    /// and blinding factor if the enote belongs to these keys.
    pub fn receive(&self, recipient: &Recipient, commitment: &Commitment) -> (r: Option<
        (u64, GroupScalar),
    >)
        ensures
            r is Some <==> (recipient.transaction_key matches Some(txk) && cn_accepts(
                self.view@,
                self.spend@,
                *recipient,
                commitment@,
                txk@,
            )),
            r matches Some(vk) ==> recipient.transaction_key matches Some(txk) && vk.0
                == cn_receive_value(
                shared_secret_spec(self.view@, txk@),
                recipient.encrypted_amount,
            ) && vk.1@ == ss_scalar(shared_secret_spec(self.view@, txk@)),
    {
        match recipient.transaction_key {
            Some(transaction_key) => self.receive_internal(recipient, commitment, transaction_key),
            None => None,
        }
    }

    /// Receive a payment given the Pedersen commitment and an explicit
    /// transaction/ECDH key.
    pub fn receive_with_key(
        &self,
        recipient: &Recipient,
        commitment: &Commitment,
        transaction_key: GroupPoint,
    ) -> (r: Option<(u64, GroupScalar)>)
        ensures
            r is Some <==> cn_accepts(
                self.view@,
                self.spend@,
                *recipient,
                commitment@,
                transaction_key@,
            ),
            r matches Some(vk) ==> vk.0 == cn_receive_value(
                shared_secret_spec(self.view@, transaction_key@),
                recipient.encrypted_amount,
            ) && vk.1@ == ss_scalar(shared_secret_spec(self.view@, transaction_key@)),
    {
        self.receive_internal(recipient, commitment, transaction_key)
    }

    /// Internal receiving functionality.
    fn receive_internal(
        &self,
        recipient: &Recipient,
        commitment: &Commitment,
        transaction_key: GroupPoint,
    ) -> (r: Option<(u64, GroupScalar)>)
        ensures
            r is Some <==> cn_accepts(
                self.view@,
                self.spend@,
                *recipient,
                commitment@,
                transaction_key@,
            ),
            r matches Some(vk) ==> vk.0 == cn_receive_value(
                shared_secret_spec(self.view@, transaction_key@),
                recipient.encrypted_amount,
            ) && vk.1@ == ss_scalar(shared_secret_spec(self.view@, transaction_key@)),
    {
        let shared_secret = self.shared_secret(&transaction_key);
        if shared_secret.get_view_tag() != recipient.view_tag {
            return None;
        }
        if !(self.derive_key(shared_secret.clone()) == recipient.public_key) {
            return None;
        }
        let value = shared_secret.decrypt_amount(recipient.encrypted_amount);
        let blinding = shared_secret.as_scalar();
        if !(Commitment::commit(value, blinding) == *commitment) {
            return None;
        }
        Some((value, blinding))
    }
}

/// Public keys of a CryptoNote address.
#[derive(Clone, Copy)]
pub struct CryptoNotePublic {
    pub view: GroupPoint,
    pub spend: GroupPoint,
}

impl CryptoNotePublic {
    /// Given a private key, calculate the shared secret of these keys.
    /// **The private key should not be reused.**  The recipient will need
    /// the public key of `other_private` to recreate this secret.
    pub fn shared_secret(&self, other_private: GroupScalar) -> (r: SharedSecret)
        ensures
            r@ == shared_secret_spec(other_private@, self.view@),
    {
        SharedSecret::get(other_private, &self.view)
    }

    /// Derive the unique ephemeral public key from a shared secret.
    /// **These keys should never be reused.**
    pub fn derive_key(&self, shared_secret: SharedSecret) -> (r: GroupPoint)
        ensures
            r@ == sadd(self.spend@, ss_scalar(shared_secret@)),
    {
        proof {
            use_type_invariant(&self.spend);
        }
        let ssc = shared_secret.as_scalar();
        proof {
            use_type_invariant(&ssc);
            lemma_mod_small(ssc@ as int);
        }
        self.spend.add(GroupPoint::basepoint().mul(ssc))
    }

    /// Send to this address with an automatically generated transaction
    /// key; only the recipient can detect the payment.  Returns the blinding
    /// factor of the Pedersen commitment and the public recipient record.
    pub fn send(&self, amount: u64) -> (r: (GroupScalar, Recipient))
        ensures
            exists|tsk: nat|
                tsk < group_order() && #[trigger] cn_send_relation(
                    self.view@,
                    self.spend@,
                    amount,
                    tsk,
                    r.0@,
                    r.1,
                    true,
                ),
    {
        let mut pts: Vec<GroupPoint> = Vec::new();
        pts.push(self.view);
        pts.push(self.spend);
        let encoded = batch_encode_points(&pts);
        let mut buf = vstd::slice::slice_to_vec(encoded[0].as_slice());
        append_bytes(&mut buf, encoded[1].as_slice());
        let amount_bytes = crate::byteops::u64_to_le(amount);
        append_bytes(&mut buf, amount_bytes.as_slice());
        let seed = h_scalar(buf.as_slice());
        let key = seed.add(random_scalar());
        let r = self.send_internal(amount, key, true);
        proof {
            use_type_invariant(&key);
            assert(key@ < group_order() && cn_send_relation(
                self.view@,
                self.spend@,
                amount,
                key@,
                r.0@,
                r.1,
                true,
            ));
        }
        r
    }

    /// Send to this address with a caller-provided transaction key; the
    /// payment must then be received with `receive_with_key`.
    pub fn send_with_key(&self, amount: u64, transaction_key: GroupScalar) -> (r: (
        GroupScalar,
        Recipient,
    ))
        ensures
            cn_send_relation(
                self.view@,
                self.spend@,
                amount,
                transaction_key@,
                r.0@,
                r.1,
                false,
            ),
    {
        self.send_internal(amount, transaction_key, false)
    }

    /// Internal sending functionality.
    fn send_internal(&self, amount: u64, transaction_sk: GroupScalar, include_txn_key: bool) -> (r:
        (GroupScalar, Recipient))
        ensures
            cn_send_relation(
                self.view@,
                self.spend@,
                amount,
                transaction_sk@,
                r.0@,
                r.1,
                include_txn_key,
            ),
    {
        proof {
            use_type_invariant(&transaction_sk);
            lemma_mod_small(transaction_sk@ as int);
        }
        let transaction_key = if include_txn_key {
            Some(GroupPoint::basepoint().mul(transaction_sk))
        } else {
            None
        };
        let shared_secret = self.shared_secret(transaction_sk);
        let view_tag = shared_secret.get_view_tag();
        let encrypted_amount = shared_secret.encrypt_amount(amount);
        let blinding = shared_secret.as_scalar();
        let public_key = self.derive_key(shared_secret);
        (blinding, Recipient { public_key, transaction_key, view_tag, encrypted_amount })
    }

    /// Serialize the keys: view point then spend point, 64 bytes.
    pub fn to_bytes(&self) -> (r: Result<Vec<u8>, SerializationError>)
        ensures
            r matches Ok(b) ==> b@ == point_repr(self.view@) + point_repr(self.spend@),
            r is Ok,
    {
        let mut out = self.view.encode();
        let spend = self.spend.encode();
        append_bytes(&mut out, spend.as_slice());
        Ok(out)
    }

    /// Deserialize keys from 64 bytes; invalid point encodings are rejected.
    pub fn from_bytes(bytes: &[u8]) -> (r: Result<CryptoNotePublic, SerializationError>)
        ensures
            r matches Ok(k) ==> bytes@.len() == 64 && point_repr(k.view@) == bytes@.subrange(
                0,
                32,
            ) && point_repr(k.spend@) == bytes@.subrange(32, 64),
            r matches Err(e) ==> e is DecodingError,
    {
        if bytes.len() != 64 {
            return Err(SerializationError::DecodingError);
        }
        let view = match GroupPoint::decode(vstd::slice::slice_subrange(bytes, 0, 32)) {
            Some(p) => p,
            None => {
                return Err(SerializationError::DecodingError);
            },
        };
        let spend = match GroupPoint::decode(vstd::slice::slice_subrange(bytes, 32, 64)) {
            Some(p) => p,
            None => {
                return Err(SerializationError::DecodingError);
            },
        };
        Ok(CryptoNotePublic { view, spend })
    }
}

} // verus!
