//! Core data model: Pedersen commitments, enotes, their private keys, and
//! rings of enotes.

use vstd::prelude::*;

use crate::curve::{GroupPoint, GroupScalar};
use crate::modmath::{
    lemma_add_mod_left, lemma_add_mod_right, lemma_mod_small, order_int,
};
use crate::pedersen::{commit_spec, pedersen_h, pedersen_h_point};

verus! {

/// A 1-byte public tag used to quickly eliminate an ECDH `SharedSecret` if
/// the keys do not match.  There is a 1/256 chance of a false positive, but
/// zero chance of a false negative.
pub type ViewTag = u8;

/// A Pedersen commitment: the point `blinding * G + value * H`.
#[derive(Clone, Copy)]
pub struct Commitment(pub GroupPoint);

impl View for Commitment {
    type V = nat;

    open spec fn view(&self) -> nat {
        self.0@
    }
}

/// Sum of the discrete logarithms of a sequence of commitments.
pub open spec fn sum_coms(s: Seq<Commitment>) -> nat
    decreases s.len(),
{
    if s.len() == 0 {
        0
    } else {
        (sum_coms(s.drop_last()) + s.last()@) as nat
    }
}

/// Sum all commitments into a single group element.
fn sum_commitments(coms: &Vec<Commitment>) -> (r: GroupPoint)
    ensures
        r@ == crate::curve::reduce(sum_coms(coms@) as int),
{
    let mut acc = GroupPoint::identity();
    proof {
        lemma_mod_small(0);
        assert(coms@.take(0int) =~= Seq::<Commitment>::empty());
    }
    let mut i: usize = 0;
    while i < coms.len()
        invariant
            i <= coms@.len(),
            acc@ == crate::curve::reduce(sum_coms(coms@.take(i as int)) as int),
        decreases coms@.len() - i,
    {
        let c = coms[i];
        acc = acc.add(c.0);
        proof {
            assert(coms@.take(i + 1).drop_last() =~= coms@.take(i as int));
            assert(coms@.take(i + 1).last() == coms@[i as int]);
            lemma_add_mod_left(sum_coms(coms@.take(i as int)) as int, coms@[i as int]@ as int);
        }
        i = i + 1;
    }
    proof {
        assert(coms@.take(coms@.len() as int) =~= coms@);
    }
    acc
}

impl Commitment {
    /// Create a commitment to `value` with blinding factor `blinding`.
    pub fn commit(value: u64, blinding: GroupScalar) -> (r: Commitment)
        ensures
            r@ == commit_spec(value as nat, blinding@),
    {
        proof {
            use_type_invariant(&blinding);
        }
        let g = GroupPoint::basepoint();
        let bg = g.mul(blinding);
        let h = pedersen_h_point();
        let vh = h.mul(GroupScalar::from_u64(value));
        proof {
            lemma_mod_small(blinding@ as int);
            lemma_add_mod_right(blinding@ as int, (pedersen_h() * value) as int);
            assert(pedersen_h() * value == value * pedersen_h()) by (nonlinear_arith);
        }
        Commitment(bg.add(vh))
    }

    /// Return the elliptic curve point which represents this commitment.
    pub fn to_point(&self) -> (r: GroupPoint)
        ensures
            r@ == self@,
    {
        self.0
    }

    /// Given input commitments, output commitments, and "extra" output (such
    /// as fees), check whether `in == out + extra * H`.
    pub fn is_balanced(
        in_commitments: Vec<Commitment>,
        out_commitments: Vec<Commitment>,
        extra: u64,
    ) -> (r: bool)
        ensures
            r == (crate::curve::reduce(sum_coms(in_commitments@) as int) == crate::curve::reduce(
                (sum_coms(out_commitments@) + extra * pedersen_h()) as int,
            )),
    {
        let lhs = sum_commitments(&in_commitments);
        let outs = sum_commitments(&out_commitments);
        let h = pedersen_h_point();
        let eh = h.mul(GroupScalar::from_u64(extra));
        let rhs = outs.add(eh);
        proof {
            lemma_add_mod_left(sum_coms(out_commitments@) as int, eh@ as int);
            lemma_add_mod_right(
                sum_coms(out_commitments@) as int,
                (pedersen_h() * extra) as int,
            );
            assert(pedersen_h() * extra == extra * pedersen_h()) by (nonlinear_arith);
        }
        lhs == rhs
    }
}

impl PartialEq for Commitment {
    fn eq(&self, other: &Commitment) -> (r: bool) {
        self.0 == other.0
    }
}

impl Eq for Commitment {

}

impl vstd::std_specs::cmp::PartialEqSpecImpl for Commitment {
    open spec fn obeys_eq_spec() -> bool {
        true
    }

    open spec fn eq_spec(&self, other: &Commitment) -> bool {
        self@ == other@
    }
}

/// An enote: a public owner key together with the commitment it controls.
/// These are sometimes referred to as "outputs".
#[derive(Clone, Copy)]
pub struct Enote {
    pub owner: GroupPoint,
    pub commitment: Commitment,
}

impl Enote {
    /// Given an owner and a commitment, return an `Enote`.
    pub fn new(owner: GroupPoint, commitment: Commitment) -> (r: Enote)
        ensures
            r.owner@ == owner@,
            r.commitment@ == commitment@,
    {
        Enote { owner, commitment }
    }
}

impl PartialEq for Enote {
    fn eq(&self, other: &Enote) -> (r: bool) {
        self.owner == other.owner && self.commitment == other.commitment
    }
}

impl Eq for Enote {

}

impl vstd::std_specs::cmp::PartialEqSpecImpl for Enote {
    open spec fn obeys_eq_spec() -> bool {
        true
    }

    open spec fn eq_spec(&self, other: &Enote) -> bool {
        self.owner@ == other.owner@ && self.commitment@ == other.commitment@
    }
}

/// The private keys of an `Enote`:
/// * `owner`: the private key of the public key which owns the enote,
/// * `value`: the value of the enote's commitment,
/// * `blinding`: the blinding factor of the enote's commitment.
#[derive(Clone)]
pub struct EnoteKeys {
    pub owner: GroupScalar,
    pub value: u64,
    pub blinding: GroupScalar,
}

impl EnoteKeys {
    /// Create an `EnoteKeys` instance from an owning private key, a value,
    /// and a blinding factor.
    pub fn new(key: GroupScalar, value: u64, blinding: GroupScalar) -> (r: EnoteKeys)
        ensures
            r.owner@ == key@,
            r.value == value,
            r.blinding@ == blinding@,
    {
        EnoteKeys { owner: key, value, blinding }
    }

    /// Turn these (private) keys into a (public) `Enote`.
    pub fn to_enote(&self) -> (r: Enote)
        ensures
            r.owner@ == self.owner@,
            r.commitment@ == commit_spec(self.value as nat, self.blinding@),
    {
        proof {
            use_type_invariant(&self.owner);
        }
        let owner_point = GroupPoint::basepoint().mul(self.owner);
        proof {
            lemma_mod_small(self.owner@ as int);
        }
        Enote::new(owner_point, Commitment::commit(self.value, self.blinding))
    }

    /// Return the key image of this enote.
    pub fn get_key_image(&self) -> (r: GroupPoint)
        ensures
            r@ == crate::signature::signature_utils::key_image_spec(self.owner@),
    {
        crate::signature::signature_utils::get_key_image(self.owner)
    }
}

/// A ring: an ordered sequence of enotes used in a ring signature.
///
/// This is a wrapper type for `Vec<Enote>`; the inner vector can be accessed
/// with `ring.0`.
pub struct Ring(pub Vec<Enote>);

impl Ring {
    /// Creates a new, empty ring.
    pub fn new() -> (r: Ring)
        ensures
            r.0@.len() == 0,
    {
        Ring(Vec::new())
    }

    /// Appends an enote to the ring.
    pub fn push(&mut self, value: Enote)
        ensures
            final(self).0@ == old(self).0@.push(value),
    {
        self.0.push(value);
    }

    /// Inserts an enote at position `index` within the ring, shifting all
    /// enotes after it to the right.
    pub fn insert(&mut self, index: usize, element: Enote)
        requires
            index <= old(self).0@.len(),
        ensures
            final(self).0@ == old(self).0@.insert(index as int, element),
    {
        self.0.insert(index, element);
    }

    /// Sorts the ring into canonical order and removes duplicates: the
    /// result is strictly sorted by enote key, every enote of the result is
    /// an enote of the input, and every input enote's key is still
    /// represented.
    pub fn sort(&mut self)
        ensures
            crate::signature::signature_utils::ring_sorted(final(self).0@),
            crate::signature::signature_utils::ring_members_of(final(self).0@, old(self).0@),
            crate::signature::signature_utils::ring_keys_covered(final(self).0@, old(self).0@),
    {
        let (ring_l, ring_c) = crate::signature::signature_utils::separate_ring(self);
        let (enc_l, enc_c) = crate::signature::signature_utils::encode_rings(ring_l, ring_c);
        let sorted = crate::signature::signature_utils::ring_as_sorted(self, &enc_l, &enc_c);
        self.0 = sorted.0;
    }

    /// Checks whether the ring is in canonical order: sorted, no duplicates.
    pub fn is_sorted(self) -> (r: bool)
        ensures
            r == crate::signature::signature_utils::ring_sorted(self.0@),
    {
        let (ring_l, ring_c) = crate::signature::signature_utils::separate_ring(&self);
        let (enc_l, enc_c) = crate::signature::signature_utils::encode_rings(ring_l, ring_c);
        crate::signature::signature_utils::ring_is_sorted(&self, &enc_l, &enc_c)
    }
}

} // verus!
