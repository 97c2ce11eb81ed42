//! MLSAG: the Multilayered Linkable Spontaneous Anonymous Group signature,
//! the multilayer predecessor of CLSAG.
//!
//! Two parallel layers run around the ring: linking keys and (shifted)
//! commitment keys, with one response scalar per slot in each layer.
//! Verification recomputes the challenge walk from `e_0` and succeeds exactly
//! when it closes on `e_0` again; `mlsag_walk` below is that recomputation.

use vstd::prelude::*;

use crate::byteops::{append_bytes, flatten_bytes};
use crate::curve::{
    batch_encode_points, batch_repr, group_order, sadd, smul, ssub, GroupPoint, GroupScalar,
};
use crate::errors::SignatureError;
use crate::hashes::{blake256, h_bytes, h_point_spec, h_scalar, h_scalar_spec};
use crate::modmath::lemma_mod_small;
use crate::pedersen::commit_spec;
use crate::signature::signature_utils::{
    encode_rings, get_key_image_points, in_ring, key_image_spec, ring_as_sorted, ring_c_bytes,
    ring_is_sorted, ring_l_bytes, ring_sorted, separate_ring, slot_at, steps_into,
};
use crate::types::{Commitment, EnoteKeys, Ring};

verus! {

/// The signed message: the caller's message, both encoded ring columns, and
/// the batched encodings of the pseudo-output and key image.
pub open spec fn mlsag_message(
    msg: Seq<u8>,
    ring: Seq<crate::types::Enote>,
    pseudo: nat,
    key_image: nat,
) -> Seq<u8> {
    blake256(
        msg + ring_l_bytes(ring) + ring_c_bytes(ring) + batch_repr(pseudo) + batch_repr(
            key_image,
        ),
    )
}

/// The key-image base point of a ring slot.
pub open spec fn mlsag_h(e: crate::types::Enote) -> nat {
    h_point_spec(batch_repr(e.owner@) + crate::domains::spec_signature_key_image())
}

/// One step of the verification walk: hash the three recomputed points into
/// the next challenge.
pub open spec fn mlsag_round(
    m: Seq<u8>,
    e_i: nat,
    s_l_i: nat,
    s_c_i: nat,
    l_i: nat,
    c_i: nat,
    h_i: nat,
    key_image: nat,
) -> nat {
    let left = sadd(s_l_i, smul(l_i, e_i));
    let right = sadd(smul(h_i, s_l_i), smul(key_image, e_i));
    let com = ssub(s_c_i, smul(c_i, e_i));
    h_scalar_spec(m + batch_repr(left) + batch_repr(right) + batch_repr(com))
}

/// The whole verification walk from slot `i` onward, starting at challenge
/// `e`.  The commitment column is shifted by the pseudo-output.
pub open spec fn mlsag_walk(
    m: Seq<u8>,
    ring: Seq<crate::types::Enote>,
    pseudo: nat,
    s_l: Seq<nat>,
    s_c: Seq<nat>,
    key_image: nat,
    e: nat,
    i: int,
) -> nat
    decreases ring.len() - i,
{
    if i < 0 || i >= ring.len() {
        e
    } else {
        mlsag_walk(
            m,
            ring,
            pseudo,
            s_l,
            s_c,
            key_image,
            mlsag_round(
                m,
                e,
                s_l[i],
                s_c[i],
                ring[i].owner@,
                ssub(ring[i].commitment@, pseudo),
                mlsag_h(ring[i]),
                key_image,
            ),
            i + 1,
        )
    }
}

/// A challenge cycle closes the verification walk: when the round at each
/// slot maps the challenge entering it to the challenge entering the next
/// slot, wrapping at the last slot, the walk started at the slot-0 challenge
/// returns to it.
proof fn lemma_mlsag_cyclic_walk(
    m: Seq<u8>,
    ring: Seq<crate::types::Enote>,
    pseudo: nat,
    s_l: Seq<nat>,
    s_c: Seq<nat>,
    key_image: nat,
    e: Seq<nat>,
    i: int,
)
    requires
        e.len() == ring.len(),
        0 <= i < ring.len(),
        forall|k: int|
            0 <= k < ring.len() - 1 ==> e[k + 1] == mlsag_round(
                m,
                #[trigger] e[k],
                s_l[k],
                s_c[k],
                ring[k].owner@,
                ssub(ring[k].commitment@, pseudo),
                mlsag_h(ring[k]),
                key_image,
            ),
        e[0] == mlsag_round(
            m,
            e[ring.len() - 1],
            s_l[ring.len() - 1],
            s_c[ring.len() - 1],
            ring[ring.len() - 1].owner@,
            ssub(ring[ring.len() - 1].commitment@, pseudo),
            mlsag_h(ring[ring.len() - 1]),
            key_image,
        ),
    ensures
        mlsag_walk(m, ring, pseudo, s_l, s_c, key_image, e[i], i) == e[0],
    decreases ring.len() - i,
{
    let n = ring.len() as int;
    let e_next = mlsag_round(
        m,
        e[i],
        s_l[i],
        s_c[i],
        ring[i].owner@,
        ssub(ring[i].commitment@, pseudo),
        mlsag_h(ring[i]),
        key_image,
    );
    if i == n - 1 {
        assert(e_next == e[0]);
        assert(mlsag_walk(m, ring, pseudo, s_l, s_c, key_image, e[0], n) == e[0]);
    } else {
        assert(e_next == e[i + 1]);
        lemma_mlsag_cyclic_walk(m, ring, pseudo, s_l, s_c, key_image, e, i + 1);
    }
}

/// A RingCT ring signature.
///
/// MLSAG stands for "Multilayered Linkable Spontaneous Anonymous Group
/// (signature)".  These signatures are essentially obsolete; CLSAGs are
/// smaller and about as fast.
#[derive(Clone)]
pub struct MLSAGSignature {
    pub key_image: GroupPoint,
    e_0: GroupScalar,
    s_l: Vec<GroupScalar>,
    s_c: Vec<GroupScalar>,
}

impl MLSAGSignature {
    /// The stored key image.
    pub closed spec fn spec_key_image(&self) -> nat {
        self.key_image@
    }

    /// The stored starting challenge.
    pub closed spec fn spec_e0(&self) -> nat {
        self.e_0@
    }

    /// The stored linking-layer response scalars.
    pub closed spec fn spec_s_l(&self) -> Seq<nat> {
        self.s_l@.map_values(|x: GroupScalar| x@)
    }

    /// The stored commitment-layer response scalars.
    pub closed spec fn spec_s_c(&self) -> Seq<nat> {
        self.s_c@.map_values(|x: GroupScalar| x@)
    }

    /// Whether the signature passes verification against a ring,
    /// pseudo-output and message: the challenge walk started at `e_0` closes
    /// on `e_0`.
    pub open spec fn valid(
        &self,
        ring: Seq<crate::types::Enote>,
        pseudo: nat,
        msg: Seq<u8>,
    ) -> bool {
        let m = mlsag_message(msg, ring, pseudo, self.spec_key_image());
        &&& self.spec_s_l().len() == ring.len()
        &&& self.spec_s_c().len() == ring.len()
        &&& mlsag_walk(
            m,
            ring,
            pseudo,
            self.spec_s_l(),
            self.spec_s_c(),
            self.spec_key_image(),
            self.spec_e0(),
            0,
        ) == self.spec_e0()
    }

    /// Create a signature given a **sorted** ring, the private keys of one of
    /// the ring's enotes, a fresh pseudo-output blinding factor, and a
    /// message.  Returns the pseudo-output commitment and the signature.
    pub fn sign(
        ring: &Ring,
        enote_keys: EnoteKeys,
        pseudo_out_blinding: GroupScalar,
        msg: &[u8],
    ) -> (r: Result<(Commitment, MLSAGSignature), SignatureError>)
        ensures
            r matches Err(e) && e is UnsortedRing <==> !ring_sorted(ring.0@),
            r matches Err(e) && e is EnoteNotInRing <==> ring_sorted(ring.0@) && !in_ring(
                ring.0@,
                enote_keys,
            ),
            r is Ok <==> ring_sorted(ring.0@) && in_ring(ring.0@, enote_keys),
            r matches Ok(out) ==> out.0@ == commit_spec(
                enote_keys.value as nat,
                pseudo_out_blinding@,
            ) && out.1.spec_key_image() == key_image_spec(enote_keys.owner@)
                && out.1.spec_s_l().len() == ring.0@.len() && out.1.spec_s_c().len()
                == ring.0@.len(),
            r matches Ok(out) ==> out.1.valid(ring.0@, out.0@, msg@),
    {
        let (ring_l, unshifted_ring_c) = separate_ring(ring);
        let (encoded_ring_l, encoded_ring_c) = encode_rings(ring_l, unshifted_ring_c);
        if !ring_is_sorted(ring, &encoded_ring_l, &encoded_ring_c) {
            return Err(SignatureError::UnsortedRing);
        }
        MLSAGSignature::sign_internal(
            ring,
            encoded_ring_l,
            encoded_ring_c,
            enote_keys,
            pseudo_out_blinding,
            msg,
        )
    }

    /// Same as `sign`, except it does not check that the ring is sorted.
    /// Signatures created this way verify only with `verify_unsorted`.
    pub fn sign_unsorted(
        ring: &Ring,
        enote_keys: EnoteKeys,
        pseudo_out_blinding: GroupScalar,
        msg: &[u8],
    ) -> (r: Result<(Commitment, MLSAGSignature), SignatureError>)
        ensures
            r matches Err(e) ==> e is EnoteNotInRing,
            r is Ok <==> in_ring(ring.0@, enote_keys),
            r matches Ok(out) ==> out.0@ == commit_spec(
                enote_keys.value as nat,
                pseudo_out_blinding@,
            ) && out.1.spec_key_image() == key_image_spec(enote_keys.owner@)
                && out.1.spec_s_l().len() == ring.0@.len() && out.1.spec_s_c().len()
                == ring.0@.len(),
            r matches Ok(out) ==> out.1.valid(ring.0@, out.0@, msg@),
    {
        let (ring_l, unshifted_ring_c) = separate_ring(ring);
        let (encoded_ring_l, encoded_ring_c) = encode_rings(ring_l, unshifted_ring_c);
        MLSAGSignature::sign_internal(
            ring,
            encoded_ring_l,
            encoded_ring_c,
            enote_keys,
            pseudo_out_blinding,
            msg,
        )
    }

    /// Same as `sign`, except the ring is sorted in place first: afterwards
    /// the ring is the canonical, duplicate-free form of the input ring, and
    /// the signature is made over exactly that ring.
    pub fn sign_and_sort(
        ring: &mut Ring,
        enote_keys: EnoteKeys,
        pseudo_out_blinding: GroupScalar,
        msg: &[u8],
    ) -> (r: Result<(Commitment, MLSAGSignature), SignatureError>)
        ensures
            ring_sorted(final(ring).0@),
            crate::signature::signature_utils::ring_members_of(final(ring).0@, old(ring).0@),
            crate::signature::signature_utils::ring_keys_covered(final(ring).0@, old(ring).0@),
            r matches Err(e) && e is EnoteNotInRing <==> !in_ring(final(ring).0@, enote_keys),
            r is Ok <==> in_ring(final(ring).0@, enote_keys),
            r matches Err(e) ==> e is EnoteNotInRing,
            r matches Ok(out) ==> out.0@ == commit_spec(
                enote_keys.value as nat,
                pseudo_out_blinding@,
            ) && out.1.spec_key_image() == key_image_spec(enote_keys.owner@)
                && out.1.spec_s_l().len() == final(ring).0@.len() && out.1.spec_s_c().len()
                == final(ring).0@.len(),
            r matches Ok(out) ==> out.1.valid(final(ring).0@, out.0@, msg@),
    {
        let (ring_l, unshifted_ring_c) = separate_ring(ring);
        let (encoded_ring_l, encoded_ring_c) = encode_rings(ring_l, unshifted_ring_c);
        let sorted = ring_as_sorted(ring, &encoded_ring_l, &encoded_ring_c);
        ring.0 = sorted.0;
        let (sorted_l, sorted_c) = separate_ring(ring);
        let (sorted_enc_l, sorted_enc_c) = encode_rings(sorted_l, sorted_c);
        MLSAGSignature::sign_internal(
            ring,
            sorted_enc_l,
            sorted_enc_c,
            enote_keys,
            pseudo_out_blinding,
            msg,
        )
    }

    /// Internal signing function.
    #[verifier::rlimit(100)]
    #[verifier::spinoff_prover]
    fn sign_internal(
        ring: &Ring,
        encoded_ring_l: Vec<Vec<u8>>,
        encoded_ring_c: Vec<Vec<u8>>,
        enote_keys: EnoteKeys,
        pseudo_out_blinding: GroupScalar,
        msg: &[u8],
    ) -> (r: Result<(Commitment, MLSAGSignature), SignatureError>)
        requires
            encoded_ring_l@.len() == ring.0@.len(),
            encoded_ring_c@.len() == ring.0@.len(),
            forall|i: int|
                0 <= i < ring.0@.len() ==> encoded_ring_l@[i]@ == batch_repr(ring.0@[i].owner@)
                    && encoded_ring_l@[i]@.len() == 32,
            forall|i: int|
                0 <= i < ring.0@.len() ==> encoded_ring_c@[i]@ == batch_repr(
                    ring.0@[i].commitment@,
                ) && encoded_ring_c@[i]@.len() == 32,
        ensures
            r matches Err(e) ==> e is EnoteNotInRing,
            r is Ok <==> in_ring(ring.0@, enote_keys),
            r matches Ok(out) ==> out.0@ == commit_spec(
                enote_keys.value as nat,
                pseudo_out_blinding@,
            ) && out.1.spec_key_image() == key_image_spec(enote_keys.owner@)
                && out.1.spec_s_l().len() == ring.0@.len() && out.1.spec_s_c().len()
                == ring.0@.len(),
            r matches Ok(out) ==> out.1.valid(ring.0@, out.0@, msg@),
    {
        let n = ring.0.len();
        let commitment_key = enote_keys.blinding.sub(pseudo_out_blinding);
        let pseudo_out = Commitment::commit(enote_keys.value, pseudo_out_blinding);
        let ring_c = shift_commitments_of(ring, pseudo_out);

        // Find the signer's enote in the ring.
        let my_enote = enote_keys.to_enote();
        let mut j: usize = 0;
        let mut found = false;
        while j < n
            invariant_except_break
                !found,
            invariant
                n == ring.0@.len(),
                j <= n,
                my_enote.owner@ == enote_keys.owner@,
                my_enote.commitment@ == commit_spec(enote_keys.value as nat, enote_keys.blinding@),
                found ==> j < n && ring.0@[j as int].owner@ == enote_keys.owner@
                    && ring.0@[j as int].commitment@ == commit_spec(
                    enote_keys.value as nat,
                    enote_keys.blinding@,
                ),
                !found ==> forall|k: int|
                    0 <= k < j ==> !((#[trigger] ring.0@[k]).owner@ == enote_keys.owner@
                        && ring.0@[k].commitment@ == commit_spec(
                        enote_keys.value as nat,
                        enote_keys.blinding@,
                    )),
            ensures
                found ==> j < n && ring.0@[j as int].owner@ == enote_keys.owner@
                    && ring.0@[j as int].commitment@ == commit_spec(
                    enote_keys.value as nat,
                    enote_keys.blinding@,
                ),
                !found ==> forall|k: int|
                    0 <= k < n ==> !((#[trigger] ring.0@[k]).owner@ == enote_keys.owner@
                        && ring.0@[k].commitment@ == commit_spec(
                        enote_keys.value as nat,
                        enote_keys.blinding@,
                    )),
            decreases n - j,
        {
            if ring.0[j] == my_enote {
                found = true;
                break ;
            }
            j = j + 1;
        }
        if !found {
            return Err(SignatureError::EnoteNotInRing);
        }

        let key_image_points = get_key_image_points(&encoded_ring_l);
        let owner = enote_keys.owner;
        let key_image = key_image_points[j].mul(owner);
        proof {
            use_type_invariant(&owner);
            assert(h_point_spec(
                batch_repr(enote_keys.owner@) + crate::domains::spec_signature_key_image(),
            ) * owner@ == owner@ * h_point_spec(
                batch_repr(enote_keys.owner@) + crate::domains::spec_signature_key_image(),
            )) by (nonlinear_arith);
        }

        let m = create_message(&encoded_ring_l, &encoded_ring_c, pseudo_out, key_image, msg);
        let ghost msp = mlsag_message(msg@, ring.0@, pseudo_out@, key_image@);
        proof {
            assert(encoded_ring_l@.map_values(|p: Vec<u8>| p@) =~= ring.0@.map_values(
                |e: crate::types::Enote| batch_repr(e.owner@),
            ));
            assert(encoded_ring_c@.map_values(|p: Vec<u8>| p@) =~= ring.0@.map_values(
                |e: crate::types::Enote| batch_repr(e.commitment@),
            ));
            assert(m@ == msp);
        }

        // Deterministic response scalars, chained over the seed.
        let mut seed = owner.to_bytes();
        let pob_bytes = pseudo_out_blinding.to_bytes();
        append_bytes(&mut seed, pob_bytes.as_slice());
        append_bytes(&mut seed, m.as_slice());
        let mut chain = filler_bytes();
        let mut s_l: Vec<GroupScalar> = Vec::new();
        let mut x: usize = 0;
        while x < n
            invariant
                s_l@.len() == x,
                x <= n,
                forall|k: int| 0 <= k < x ==> (#[trigger] s_l@[k])@ < group_order(),
            decreases n - x,
        {
            let mut buf = chain;
            append_bytes(&mut buf, seed.as_slice());
            let next = h_scalar(buf.as_slice());
            s_l.push(next);
            chain = next.to_bytes();
            x = x + 1;
        }
        let mut s_c: Vec<GroupScalar> = Vec::new();
        let mut x: usize = 0;
        while x < n
            invariant
                s_c@.len() == x,
                x <= n,
                forall|k: int| 0 <= k < x ==> (#[trigger] s_c@[k])@ < group_order(),
            decreases n - x,
        {
            let mut buf = chain;
            append_bytes(&mut buf, seed.as_slice());
            let next = h_scalar(buf.as_slice());
            s_c.push(next);
            chain = next.to_bytes();
            x = x + 1;
        }
        let mut buf = chain;
        append_bytes(&mut buf, seed.as_slice());
        let c_start = h_scalar(buf.as_slice());

        // Walk the ring from the signer's slot, recording the challenge
        // entering each slot; the ghost chain lists them in walk order.
        let ghost slv0 = s_l@.map_values(|q: GroupScalar| q@);
        let ghost scv0 = s_c@.map_values(|q: GroupScalar| q@);
        let ghost hj = mlsag_h(ring.0@[j as int]);
        let ghost cs = c_start@;
        let slj = s_l[j];
        let scj = s_c[j];
        let mut left = GroupPoint::basepoint().mul(slj);
        let mut right = key_image_points[j].mul(slj);
        let mut c_i = GroupPoint::basepoint().mul(scj).sub(ring_c[j].mul(c_start));
        proof {
            use_type_invariant(&slj);
            use_type_invariant(&scj);
            crate::modmath::lemma_smul_one(slj@);
            crate::modmath::lemma_smul_one(scj@);
            assert(left@ == slv0[j as int]);
            assert(right@ == smul(hj, slv0[j as int]));
            assert(c_i@ == ssub(
                scv0[j as int],
                smul(ssub(ring.0@[j as int].commitment@, pseudo_out@), cs),
            ));
        }
        let ghost c1 = h_scalar_spec(
            msp + batch_repr(slv0[j as int]) + batch_repr(smul(hj, slv0[j as int])) + batch_repr(
                ssub(
                    scv0[j as int],
                    smul(ssub(ring.0@[j as int].commitment@, pseudo_out@), cs),
                ),
            ),
        );
        let mut e: Vec<GroupScalar> = Vec::new();
        let mut x: usize = 0;
        while x < n
            invariant
                e@.len() == x,
                x <= n,
            decreases n - x,
        {
            e.push(GroupScalar::zero());
            x = x + 1;
        }
        let ghost mut ech: Seq<nat> = Seq::empty();
        let mut i: usize = j;
        let mut step: usize = 0;
        while step < n
            invariant_except_break
                i as int == slot_at(j as int, step as int, n as int),
                ech.len() == step,
                step == 0 ==> left@ == slv0[j as int] && right@ == smul(hj, slv0[j as int])
                    && c_i@ == ssub(
                    scv0[j as int],
                    smul(ssub(ring.0@[j as int].commitment@, pseudo_out@), cs),
                ),
                step > 0 ==> left@ == sadd(
                    slv0[i as int],
                    smul(ring.0@[i as int].owner@, ech[step - 1]),
                ) && right@ == sadd(
                    smul(mlsag_h(ring.0@[i as int]), slv0[i as int]),
                    smul(key_image@, ech[step - 1]),
                ) && c_i@ == ssub(
                    scv0[i as int],
                    smul(ssub(ring.0@[i as int].commitment@, pseudo_out@), ech[step - 1]),
                ),
            invariant
                n == ring.0@.len(),
                j < n,
                step < n,
                i < n,
                n == s_l@.len(),
                n == s_c@.len(),
                n == e@.len(),
                n == key_image_points@.len(),
                n == ring_c@.len(),
                slv0 == s_l@.map_values(|q: GroupScalar| q@),
                scv0 == s_c@.map_values(|q: GroupScalar| q@),
                forall|k: int| 0 <= k < n ==> slv0[k] < group_order(),
                forall|k: int| 0 <= k < n ==> scv0[k] < group_order(),
                m@ == msp,
                hj == mlsag_h(ring.0@[j as int]),
                c1 == h_scalar_spec(
                    msp + batch_repr(slv0[j as int]) + batch_repr(smul(hj, slv0[j as int]))
                        + batch_repr(
                        ssub(
                            scv0[j as int],
                            smul(ssub(ring.0@[j as int].commitment@, pseudo_out@), cs),
                        ),
                    ),
                ),
                forall|k: int|
                    0 <= k < n ==> (#[trigger] key_image_points@[k])@ == mlsag_h(ring.0@[k]),
                forall|k: int|
                    0 <= k < n ==> (#[trigger] ring_c@[k])@ == ssub(
                        ring.0@[k].commitment@,
                        pseudo_out@,
                    ),
                ech.len() <= n,
                ech.len() > 0 ==> ech[0] == c1,
                forall|t: int|
                    1 <= t < ech.len() ==> #[trigger] ech[t] == mlsag_round(
                        msp,
                        ech[t - 1],
                        slv0[slot_at(j as int, t, n as int)],
                        scv0[slot_at(j as int, t, n as int)],
                        ring.0@[slot_at(j as int, t, n as int)].owner@,
                        ssub(ring.0@[slot_at(j as int, t, n as int)].commitment@, pseudo_out@),
                        mlsag_h(ring.0@[slot_at(j as int, t, n as int)]),
                        key_image@,
                    ),
                forall|t: int|
                    0 <= t < ech.len() ==> (#[trigger] e@[slot_at(j as int, t + 1, n as int)])@
                        == ech[t],
            ensures
                ech.len() == n,
                ech[0] == c1,
                forall|t: int|
                    1 <= t < n ==> #[trigger] ech[t] == mlsag_round(
                        msp,
                        ech[t - 1],
                        slv0[slot_at(j as int, t, n as int)],
                        scv0[slot_at(j as int, t, n as int)],
                        ring.0@[slot_at(j as int, t, n as int)].owner@,
                        ssub(ring.0@[slot_at(j as int, t, n as int)].commitment@, pseudo_out@),
                        mlsag_h(ring.0@[slot_at(j as int, t, n as int)]),
                        key_image@,
                    ),
                forall|t: int|
                    0 <= t < n ==> (#[trigger] e@[slot_at(j as int, t + 1, n as int)])@ == ech[t],
            decreases n - step,
        {
            let ghost i_prev = i as int;
            let ghost step0 = step as int;
            i = (i + 1) % n;
            proof {
                crate::modmath::lemma_mod_double_range(i_prev + 1, n as int);
                assert(i as int == slot_at(j as int, step0 + 1, n as int));
            }
            let e_i = round_points(&m, left, right, c_i);
            proof {
                if step0 == 0 {
                    assert(e_i@ == c1);
                } else {
                    assert(i_prev == slot_at(j as int, step0, n as int));
                    assert(e_i@ == mlsag_round(
                        msp,
                        ech[step0 - 1],
                        slv0[i_prev],
                        scv0[i_prev],
                        ring.0@[i_prev].owner@,
                        ssub(ring.0@[i_prev].commitment@, pseudo_out@),
                        mlsag_h(ring.0@[i_prev]),
                        key_image@,
                    ));
                }
                ech = ech.push(e_i@);
            }
            e[i] = e_i;
            proof {
                assert forall|t: int|
                    0 <= t < ech.len() implies (#[trigger] e@[slot_at(j as int, t + 1, n as int)])@
                    == ech[t] by {
                    if t < step0 {
                        assert(slot_at(j as int, t + 1, n as int) != i as int);
                    }
                }
            }
            if i == j {
                proof {
                    assert(step0 == n - 1);
                }
                break ;
            }
            let sli = s_l[i];
            let sci = s_c[i];
            proof {
                use_type_invariant(&sli);
                use_type_invariant(&sci);
                crate::modmath::lemma_smul_one(sli@);
                crate::modmath::lemma_smul_one(sci@);
                assert(slv0[i as int] == sli@);
                assert(scv0[i as int] == sci@);
                assert(step0 < n - 1);
            }
            left = GroupPoint::basepoint().mul(sli).add(ring.0[i].owner.mul(e_i));
            right = key_image_points[i].mul(sli).add(key_image.mul(e_i));
            c_i = GroupPoint::basepoint().mul(sci).sub(ring_c[i].mul(e_i));
            step = step + 1;
        }
        let ej_scalar = e[j];
        let patched_l = s_l[j].sub(owner.mul(ej_scalar));
        s_l[j] = patched_l;
        let patched_c = s_c[j].sub(commitment_key.mul(c_start.sub(ej_scalar)));
        s_c[j] = patched_c;

        let e_0 = e[0];
        let sig = MLSAGSignature { key_image, e_0, s_l, s_c };
        proof {
            let ni = n as int;
            let ji = j as int;
            let sl1 = sig.spec_s_l();
            let sc1 = sig.spec_s_c();
            assert(sl1 =~= slv0.update(ji, patched_l@));
            assert(sc1 =~= scv0.update(ji, patched_c@));
            assert(slot_at(ji, (ni - 1) + 1, ni) == ji);
            let e_j = ech[ni - 1];
            assert(ej_scalar@ == e_j);
            assert(slot_at(ji, (ni - 1 - ji) + 1, ni) == 0);
            assert(e_0@ == ech[ni - 1 - ji]);

            use_type_invariant(&enote_keys.blinding);
            use_type_invariant(&pseudo_out_blinding);
            use_type_invariant(&owner);
            use_type_invariant(&c_start);
            let o = enote_keys.owner@;
            let ck = commitment_key@;
            let ckj = ssub(ring.0@[ji].commitment@, pseudo_out@);
            crate::modmath::lemma_commit_shift(
                enote_keys.value as nat,
                enote_keys.blinding@,
                pseudo_out_blinding@,
            );
            assert(ckj == ck);
            // The patched responses close the signer's round on the recorded
            // walk: all three hashed points reduce to the unpatched ones.
            assert(patched_l@ == ssub(slv0[ji], smul(o, e_j)));
            crate::modmath::lemma_sadd_ssub_cancel(slv0[ji], smul(o, e_j));
            assert(sadd(sl1[ji], smul(o, e_j)) == slv0[ji]);
            crate::modmath::lemma_smul_ssub(hj, slv0[ji], smul(o, e_j));
            crate::modmath::lemma_smul_assoc(hj, o, e_j);
            crate::modmath::lemma_sadd_ssub_cancel(smul(hj, slv0[ji]), smul(hj, smul(o, e_j)));
            assert(key_image@ == smul(hj, o));
            assert(sadd(smul(hj, sl1[ji]), smul(key_image@, e_j)) == smul(hj, slv0[ji]));
            assert(patched_c@ == ssub(scv0[ji], smul(ck, ssub(cs, e_j))));
            crate::modmath::lemma_ssub_ssub(scv0[ji], smul(ck, ssub(cs, e_j)), smul(ck, e_j));
            crate::modmath::lemma_smul_sadd(ck, ssub(cs, e_j), e_j);
            crate::modmath::lemma_sadd_ssub_cancel(cs, e_j);
            assert(sadd(smul(ck, ssub(cs, e_j)), smul(ck, e_j)) == smul(ck, cs));
            assert(ssub(sc1[ji], smul(ckj, e_j)) == ssub(scv0[ji], smul(ckj, cs)));
            assert(mlsag_round(msp, e_j, sl1[ji], sc1[ji], ring.0@[ji].owner@, ckj, hj, key_image@)
                == c1);
            // Challenges reindexed by slot: the chain entry `t` entered slot
            // `slot_at(j, t + 1, n)`.
            let e_slot = Seq::new(n as nat, |k: int| ech[steps_into(ji, k, ni)]);
            assert forall|k: int| 0 <= k < ni - 1 implies e_slot[k + 1] == mlsag_round(
                msp,
                #[trigger] e_slot[k],
                sl1[k],
                sc1[k],
                ring.0@[k].owner@,
                ssub(ring.0@[k].commitment@, pseudo_out@),
                mlsag_h(ring.0@[k]),
                key_image@,
            ) by {
                if k == ji {
                    assert(e_slot[k] == ech[ni - 1]);
                    assert(e_slot[k + 1] == ech[0]);
                } else {
                    let t = steps_into(ji, k, ni);
                    assert(0 <= t < ni - 1);
                    assert(e_slot[k] == ech[t]);
                    assert(e_slot[k + 1] == ech[t + 1]);
                    assert(slot_at(ji, t + 1, ni) == k);
                    assert(sl1[k] == slv0[k]);
                    assert(sc1[k] == scv0[k]);
                }
            }
            if ji == ni - 1 {
                assert(e_slot[0] == ech[0]);
                assert(e_slot[ni - 1] == ech[ni - 1]);
            } else {
                assert(e_slot[0] == ech[ni - ji - 1]);
                assert(e_slot[ni - 1] == ech[ni - ji - 2]);
                assert(slot_at(ji, ni - ji - 1, ni) == ni - 1);
                assert(sl1[ni - 1] == slv0[ni - 1]);
                assert(sc1[ni - 1] == scv0[ni - 1]);
            }
            assert(e_slot[0] == mlsag_round(
                msp,
                e_slot[ni - 1],
                sl1[ni - 1],
                sc1[ni - 1],
                ring.0@[ni - 1].owner@,
                ssub(ring.0@[ni - 1].commitment@, pseudo_out@),
                mlsag_h(ring.0@[ni - 1]),
                key_image@,
            ));
            lemma_mlsag_cyclic_walk(msp, ring.0@, pseudo_out@, sl1, sc1, key_image@, e_slot, 0);
            assert(e_slot[0] == e_0@);
            assert(sig.valid(ring.0@, pseudo_out@, msg@));
        }
        Ok((pseudo_out, sig))
    }

    /// Given an MLSAG signature, a **sorted** ring and its pseudo-output
    /// commitment, check whether the signature is valid for `msg`.
    pub fn verify(
        signature: MLSAGSignature,
        ring: &Ring,
        pseudo_out: Commitment,
        msg: &[u8],
    ) -> (r: Result<(), SignatureError>)
        ensures
            r matches Err(e) && e is UnsortedRing <==> !ring_sorted(ring.0@),
            r matches Err(e) && e is Malformed <==> ring_sorted(ring.0@) && !(
            signature.spec_s_l().len() == ring.0@.len() && signature.spec_s_c().len()
                == ring.0@.len()),
            r is Ok <==> ring_sorted(ring.0@) && signature.valid(ring.0@, pseudo_out@, msg@),
            r matches Err(e) ==> e is UnsortedRing || e is Malformed || e is Invalid,
            r matches Err(e) && e is Invalid ==> !signature.valid(ring.0@, pseudo_out@, msg@),
    {
        let (ring_l, unshifted_ring_c) = separate_ring(ring);
        let (encoded_ring_l, encoded_ring_c) = encode_rings(ring_l, unshifted_ring_c);
        if !ring_is_sorted(ring, &encoded_ring_l, &encoded_ring_c) {
            return Err(SignatureError::UnsortedRing);
        }
        MLSAGSignature::verify_internal(
            signature,
            ring,
            encoded_ring_l,
            encoded_ring_c,
            pseudo_out,
            msg,
        )
    }

    /// Same as `verify`, except it does not check that the ring is sorted:
    /// the ring must be in exactly the order in which it was signed.
    pub fn verify_unsorted(
        signature: MLSAGSignature,
        ring: &Ring,
        pseudo_out: Commitment,
        msg: &[u8],
    ) -> (r: Result<(), SignatureError>)
        ensures
            r matches Err(e) && e is Malformed <==> !(signature.spec_s_l().len() == ring.0@.len()
                && signature.spec_s_c().len() == ring.0@.len()),
            r is Ok <==> signature.valid(ring.0@, pseudo_out@, msg@),
            r matches Err(e) ==> e is Malformed || e is Invalid,
            r matches Err(e) && e is Invalid ==> !signature.valid(ring.0@, pseudo_out@, msg@),
    {
        let (ring_l, unshifted_ring_c) = separate_ring(ring);
        let (encoded_ring_l, encoded_ring_c) = encode_rings(ring_l, unshifted_ring_c);
        MLSAGSignature::verify_internal(
            signature,
            ring,
            encoded_ring_l,
            encoded_ring_c,
            pseudo_out,
            msg,
        )
    }

    /// Internal verification function: recompute the challenge walk and
    /// compare it with the stored starting challenge.
    fn verify_internal(
        signature: MLSAGSignature,
        ring: &Ring,
        encoded_ring_l: Vec<Vec<u8>>,
        encoded_ring_c: Vec<Vec<u8>>,
        pseudo_out: Commitment,
        msg: &[u8],
    ) -> (r: Result<(), SignatureError>)
        requires
            encoded_ring_l@.len() == ring.0@.len(),
            encoded_ring_c@.len() == ring.0@.len(),
            forall|i: int|
                0 <= i < ring.0@.len() ==> encoded_ring_l@[i]@ == batch_repr(ring.0@[i].owner@)
                    && encoded_ring_l@[i]@.len() == 32,
            forall|i: int|
                0 <= i < ring.0@.len() ==> encoded_ring_c@[i]@ == batch_repr(
                    ring.0@[i].commitment@,
                ) && encoded_ring_c@[i]@.len() == 32,
        ensures
            r matches Err(e) && e is Malformed <==> !(signature.spec_s_l().len() == ring.0@.len()
                && signature.spec_s_c().len() == ring.0@.len()),
            r is Ok <==> signature.valid(ring.0@, pseudo_out@, msg@),
            r matches Err(e) ==> e is Malformed || e is Invalid,
            r matches Err(e) && e is Invalid ==> !signature.valid(ring.0@, pseudo_out@, msg@),
    {
        let n = ring.0.len();
        if signature.s_l.len() != signature.s_c.len() || signature.s_l.len() != n {
            proof {
                assert(signature.spec_s_l().len() == signature.s_l@.len());
                assert(signature.spec_s_c().len() == signature.s_c@.len());
            }
            return Err(SignatureError::Malformed);
        }
        let ring_c = shift_commitments_of(ring, pseudo_out);
        let key_image_points = get_key_image_points(&encoded_ring_l);
        let m = create_message(&encoded_ring_l, &encoded_ring_c, pseudo_out, signature.key_image, msg);
        let ghost msp = mlsag_message(msg@, ring.0@, pseudo_out@, signature.spec_key_image());
        proof {
            assert(encoded_ring_l@.map_values(|p: Vec<u8>| p@) =~= ring.0@.map_values(
                |e: crate::types::Enote| batch_repr(e.owner@),
            ));
            assert(encoded_ring_c@.map_values(|p: Vec<u8>| p@) =~= ring.0@.map_values(
                |e: crate::types::Enote| batch_repr(e.commitment@),
            ));
            assert(m@ == msp);
        }

        let ghost sl = signature.spec_s_l();
        let ghost sc = signature.spec_s_c();
        let mut e_i = signature.e_0;
        let mut i: usize = 0;
        while i < n
            invariant
                i <= n,
                n == ring.0@.len(),
                n == ring_c@.len(),
                n == key_image_points@.len(),
                n == signature.s_l@.len(),
                n == signature.s_c@.len(),
                sl == signature.spec_s_l(),
                sc == signature.spec_s_c(),
                sl.len() == n,
                sc.len() == n,
                m@ == msp,
                forall|k: int|
                    0 <= k < n ==> (#[trigger] key_image_points@[k])@ == mlsag_h(ring.0@[k]),
                forall|k: int|
                    0 <= k < n ==> (#[trigger] ring_c@[k])@ == ssub(
                        ring.0@[k].commitment@,
                        pseudo_out@,
                    ),
                mlsag_walk(
                    msp,
                    ring.0@,
                    pseudo_out@,
                    sl,
                    sc,
                    signature.spec_key_image(),
                    signature.spec_e0(),
                    0,
                ) == mlsag_walk(
                    msp,
                    ring.0@,
                    pseudo_out@,
                    sl,
                    sc,
                    signature.spec_key_image(),
                    e_i@,
                    i as int,
                ),
            decreases n - i,
        {
            let sli = signature.s_l[i];
            let sci = signature.s_c[i];
            proof {
                use_type_invariant(&sli);
                use_type_invariant(&sci);
                lemma_mod_small(sli@ as int);
                lemma_mod_small(sci@ as int);
                assert(sl[i as int] == sli@);
                assert(sc[i as int] == sci@);
            }
            let left = GroupPoint::basepoint().mul(sli).add(ring.0[i].owner.mul(e_i));
            let right = key_image_points[i].mul(sli).add(signature.key_image.mul(e_i));
            let com = GroupPoint::basepoint().mul(sci).sub(ring_c[i].mul(e_i));
            let mut buf = vstd::slice::slice_to_vec(m.as_slice());
            let mut pts: Vec<GroupPoint> = Vec::new();
            pts.push(left);
            pts.push(right);
            pts.push(com);
            let encoded = batch_encode_points(&pts);
            append_bytes(&mut buf, encoded[0].as_slice());
            append_bytes(&mut buf, encoded[1].as_slice());
            append_bytes(&mut buf, encoded[2].as_slice());
            let ghost e_prev = e_i@;
            e_i = h_scalar(buf.as_slice());
            proof {
                assert(buf@ =~= msp + batch_repr(left@) + batch_repr(right@) + batch_repr(com@));
                assert(left@ == sadd(sl[i as int], smul(ring.0@[i as int].owner@, e_prev)));
                assert(right@ == sadd(
                    smul(mlsag_h(ring.0@[i as int]), sl[i as int]),
                    smul(signature.spec_key_image(), e_prev),
                ));
                assert(com@ == ssub(
                    sc[i as int],
                    smul(ssub(ring.0@[i as int].commitment@, pseudo_out@), e_prev),
                ));
                assert(e_i@ == mlsag_round(
                    msp,
                    e_prev,
                    sl[i as int],
                    sc[i as int],
                    ring.0@[i as int].owner@,
                    ssub(ring.0@[i as int].commitment@, pseudo_out@),
                    mlsag_h(ring.0@[i as int]),
                    signature.spec_key_image(),
                ));
            }
            i = i + 1;
        }
        proof {
            assert(mlsag_walk(
                msp,
                ring.0@,
                pseudo_out@,
                sl,
                sc,
                signature.spec_key_image(),
                e_i@,
                n as int,
            ) == e_i@);
        }
        if e_i == signature.e_0 {
            Ok(())
        } else {
            Err(SignatureError::Invalid)
        }
    }
}

/// One challenge of the walk: hash the three recomputed points after the
/// message.
fn round_points(m: &Vec<u8>, left: GroupPoint, right: GroupPoint, com: GroupPoint) -> (r:
    GroupScalar)
    ensures
        r@ == h_scalar_spec(m@ + batch_repr(left@) + batch_repr(right@) + batch_repr(com@)),
{
    let mut buf = vstd::slice::slice_to_vec(m.as_slice());
    let mut pts: Vec<GroupPoint> = Vec::new();
    pts.push(left);
    pts.push(right);
    pts.push(com);
    let encoded = batch_encode_points(&pts);
    append_bytes(&mut buf, encoded[0].as_slice());
    append_bytes(&mut buf, encoded[1].as_slice());
    append_bytes(&mut buf, encoded[2].as_slice());
    let r = h_scalar(buf.as_slice());
    proof {
        assert(buf@ =~= m@ + batch_repr(left@) + batch_repr(right@) + batch_repr(com@));
    }
    r
}

/// The chain-hash filler: the little-endian bytes of the group order itself,
/// the fixed starting block of the deterministic response-scalar chain.
fn filler_bytes() -> (r: Vec<u8>)
    ensures
        r@.len() == 32,
{
    let v: Vec<u8> = vec![
        0xedu8, 0xd3u8, 0xf5u8, 0x5cu8, 0x1au8, 0x63u8, 0x12u8, 0x58u8, 0xd6u8, 0x9cu8, 0xf7u8,
        0xa2u8, 0xdeu8, 0xf9u8, 0xdeu8, 0x14u8, 0u8, 0u8, 0u8, 0u8, 0u8, 0u8, 0u8, 0u8, 0u8, 0u8,
        0u8, 0u8, 0u8, 0u8, 0u8, 0x10u8,
    ];
    v
}

/// Shift every ring commitment by the pseudo-output.
fn shift_commitments_of(ring: &Ring, pseudo_out: Commitment) -> (r: Vec<GroupPoint>)
    ensures
        r@.len() == ring.0@.len(),
        forall|i: int|
            0 <= i < r@.len() ==> r@[i]@ == ssub(ring.0@[i].commitment@, pseudo_out@),
{
    let mut out: Vec<GroupPoint> = Vec::new();
    let mut i: usize = 0;
    while i < ring.0.len()
        invariant
            i <= ring.0@.len(),
            out@.len() == i,
            forall|k: int| 0 <= k < i ==> out@[k]@ == ssub(ring.0@[k].commitment@, pseudo_out@),
        decreases ring.0@.len() - i,
    {
        out.push(ring.0[i].commitment.to_point().sub(pseudo_out.0));
        i = i + 1;
    }
    out
}

/// Create the signed message, including a hash of all keys.
fn create_message(
    encoded_ring_l: &Vec<Vec<u8>>,
    encoded_ring_c: &Vec<Vec<u8>>,
    pseudo_out: Commitment,
    key_image: GroupPoint,
    msg: &[u8],
) -> (r: Vec<u8>)
    ensures
        r@ == blake256(
            msg@ + flatten_bytes(encoded_ring_l@.map_values(|p: Vec<u8>| p@)) + flatten_bytes(
                encoded_ring_c@.map_values(|p: Vec<u8>| p@),
            ) + batch_repr(pseudo_out@) + batch_repr(key_image@),
        ),
        r@.len() == 32,
{
    let mut buf = vstd::slice::slice_to_vec(msg);
    let cat_l = crate::byteops::concat_byte_vecs(encoded_ring_l);
    append_bytes(&mut buf, cat_l.as_slice());
    let cat_c = crate::byteops::concat_byte_vecs(encoded_ring_c);
    append_bytes(&mut buf, cat_c.as_slice());
    let mut pts: Vec<GroupPoint> = Vec::new();
    pts.push(pseudo_out.0);
    pts.push(key_image);
    let encoded = batch_encode_points(&pts);
    append_bytes(&mut buf, encoded[0].as_slice());
    append_bytes(&mut buf, encoded[1].as_slice());
    proof {
        assert(buf@ =~= msg@ + flatten_bytes(encoded_ring_l@.map_values(|p: Vec<u8>| p@))
            + flatten_bytes(encoded_ring_c@.map_values(|p: Vec<u8>| p@)) + batch_repr(pseudo_out@)
            + batch_repr(key_image@));
    }
    h_bytes(buf.as_slice())
}


/// The wire form of an MLSAG signature: key image, starting challenge, the
/// linking-layer responses, then the commitment-layer responses.
pub open spec fn mlsag_sig_bytes(sig: MLSAGSignature) -> Seq<u8> {
    crate::curve::point_repr(sig.spec_key_image()) + crate::curve::le_bytes(sig.spec_e0(), 32)
        + crate::tobytes::scalar_list_bytes(sig.spec_s_l())
        + crate::tobytes::scalar_list_bytes(sig.spec_s_c())
}

impl MLSAGSignature {
    /// Serialize the signature into its wire form; when the two response
    /// layers are equally long, the output is always accepted back by
    /// `from_bytes`.
    pub fn to_bytes(&self) -> (r: Result<Vec<u8>, crate::errors::SerializationError>)
        ensures
            r matches Ok(b) ==> b@ == mlsag_sig_bytes(*self),
            r matches Ok(b) ==> (self.spec_s_l().len() == self.spec_s_c().len() ==> (b@.len()
                == 64 + 64 * self.spec_s_l().len() && (b@.len() - 64) % 64 == 0
                && crate::tobytes::decodable_point(b@.subrange(0, 32))
                && crate::curve::le_val(b@.subrange(32, 64)) < group_order()
                && crate::tobytes::scalar_chunks_canonical(
                b@,
                64,
                2 * ((b@.len() - 64) as int / 64),
            ))),
            r is Ok,
    {
        let mut buf = self.key_image.encode();
        let e0 = self.e_0.to_bytes();
        append_bytes(&mut buf, e0.as_slice());
        crate::tobytes::append_scalar_list(&mut buf, &self.s_l);
        crate::tobytes::append_scalar_list(&mut buf, &self.s_c);
        proof {
            if self.spec_s_l().len() == self.spec_s_c().len() {
                let sl = self.spec_s_l();
                let sc = self.spec_s_c();
                let n = sl.len() as int;
                use_type_invariant(&self.key_image);
                use_type_invariant(&self.e_0);
                let bl = sl.map_values(|v: nat| crate::curve::le_bytes(v, 32));
                let bc = sc.map_values(|v: nat| crate::curve::le_bytes(v, 32));
                assert forall|q: int| 0 <= q < n implies (#[trigger] bl[q]).len() == 32 by {
                    crate::tobytes::lemma_le_bytes_val(sl[q], 32);
                }
                assert forall|q: int| 0 <= q < n implies (#[trigger] bc[q]).len() == 32 by {
                    crate::tobytes::lemma_le_bytes_val(sc[q], 32);
                }
                crate::byteops::lemma_flatten_uniform(bl, 32);
                crate::byteops::lemma_flatten_uniform(bc, 32);
                assert(buf@.len() == 64 + 64 * n);
                assert(buf@.subrange(0, 32) =~= crate::curve::point_repr(
                    self.spec_key_image(),
                ));
                assert(buf@.subrange(32, 64) =~= crate::curve::le_bytes(self.spec_e0(), 32));
                crate::tobytes::lemma_scalar_codec_round_trip(self.spec_e0());
                assert(buf@.subrange(64, 64 + 32 * n) =~= crate::tobytes::scalar_list_bytes(
                    sl,
                ));
                crate::tobytes::lemma_scalar_list_canonical(buf@, 64, sl);
                assert(buf@.subrange(64 + 32 * n, 64 + 64 * n)
                    =~= crate::tobytes::scalar_list_bytes(sc));
                crate::tobytes::lemma_scalar_list_canonical(buf@, 64 + 32 * n, sc);
                crate::tobytes::lemma_scalar_chunks_split(buf@, 64, n, n);
                vstd::arithmetic::div_mod::lemma_mod_multiples_vanish(n, 0, 64);
                vstd::arithmetic::div_mod::lemma_div_multiples_vanish(n, 64);
            }
        }
        Ok(buf)
    }

    /// Deserialize a signature from its wire form; accepts exactly a
    /// well-shaped length (the two response layers equally long) with
    /// canonical components, and a decoded signature serializes back to the
    /// given bytes.
    pub fn from_bytes(bytes: &[u8]) -> (r: Result<
        MLSAGSignature,
        crate::errors::SerializationError,
    >)
        ensures
            r is Ok <==> (bytes@.len() >= 64 && (bytes@.len() - 64) % 64 == 0
                && crate::tobytes::decodable_point(bytes@.subrange(0, 32))
                && crate::curve::le_val(bytes@.subrange(32, 64)) < group_order()
                && crate::tobytes::scalar_chunks_canonical(
                bytes@,
                64,
                2 * ((bytes@.len() - 64) as int / 64),
            )),
            r matches Ok(sig) ==> mlsag_sig_bytes(sig) == bytes@ && sig.spec_s_l().len()
                == sig.spec_s_c().len(),
            r matches Err(e) ==> e is DecodingError,
    {
        if bytes.len() < 64 || (bytes.len() - 64) % 64 != 0 {
            return Err(crate::errors::SerializationError::DecodingError);
        }
        let count = (bytes.len() - 64) / 64;
        let key_image = match GroupPoint::decode(vstd::slice::slice_subrange(bytes, 0, 32)) {
            Some(p) => p,
            None => {
                return Err(crate::errors::SerializationError::DecodingError);
            },
        };
        let e_0 = match GroupScalar::from_canonical_bytes(
            vstd::slice::slice_subrange(bytes, 32, 64),
        ) {
            Some(s) => s,
            None => {
                return Err(crate::errors::SerializationError::DecodingError);
            },
        };
        proof {
            vstd::arithmetic::div_mod::lemma_fundamental_div_mod((bytes@.len() - 64) as int, 64);
            assert(64 + 64 * count == bytes@.len());
        }
        let s_l = match crate::tobytes::parse_scalar_list(bytes, 64, count) {
            Ok(s) => s,
            Err(e) => {
                proof {
                    crate::tobytes::lemma_scalar_chunks_split(
                        bytes@,
                        64,
                        count as int,
                        count as int,
                    );
                }
                return Err(e);
            },
        };
        let s_c = match crate::tobytes::parse_scalar_list(bytes, 64 + 32 * count, count) {
            Ok(s) => s,
            Err(e) => {
                proof {
                    crate::tobytes::lemma_scalar_chunks_split(
                        bytes@,
                        64,
                        count as int,
                        count as int,
                    );
                }
                return Err(e);
            },
        };
        let sig = MLSAGSignature { key_image, e_0, s_l, s_c };
        proof {
            crate::tobytes::lemma_le_val_bytes(bytes@.subrange(32, 64));
            assert(mlsag_sig_bytes(sig) =~= bytes@);
            assert(crate::tobytes::decodable_point(bytes@.subrange(0, 32)));
            crate::tobytes::lemma_scalar_chunks_split(bytes@, 64, count as int, count as int);
        }
        Ok(sig)
    }
}

} // verus!\n