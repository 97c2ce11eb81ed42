//! Stealth-address flows built on the core: ECDH shared secrets, view tags,
//! amount encryption, CryptoNote-style addresses and subaddresses.

use vstd::prelude::*;

mod ecdh;
pub mod cryptonote;
pub mod subaddress;

pub use ecdh::{
    shared_secret_spec, ss_amount_key, ss_scalar, ss_view_tag, ECDHPrivateKey, ECDHPublicKey,
    SharedSecret,
};

use crate::curve::GroupPoint;
use crate::types::{Commitment, Enote, ViewTag};

verus! {

/// A recipient in a transaction: the public key of the enote, the
/// transaction key the recipient needs to detect the payment, a view tag,
/// and the encrypted amount only sender and receiver can decrypt.
pub struct Recipient {
    /// Public key of the enote.
    pub public_key: GroupPoint,
    /// Transaction key used by the recipient to detect that they received a
    /// payment.  Some protocols require one per recipient; others share one
    /// key across all recipients.
    pub transaction_key: Option<GroupPoint>,
    /// View tag.
    pub view_tag: ViewTag,
    /// Encrypted amount which only the sender and receiver can decrypt.
    pub encrypted_amount: u64,
}

impl Recipient {
    /// Pair this recipient's public key with a commitment as an enote.
    pub fn to_enote(&self, commitment: &Commitment) -> (r: Enote)
        ensures
            r.owner@ == self.public_key@,
            r.commitment@ == commitment@,
    {
        Enote { owner: self.public_key, commitment: *commitment }
    }
}

} // verus!
