//! CLSAG: the Concise Linkable Spontaneous Anonymous Group signature.
//!
//! A CLSAG signature proves that one enote of a ring authorizes the
//! signature, carrying a key image for double-spend linkage and an auxiliary
//! point binding the pseudo-output commitment.  Verification recomputes the
//! Fiat–Shamir challenge walk from `c_0` around the whole ring and succeeds
//! exactly when the walk closes on `c_0` again; `clsag_walk` below is that
//! recomputation, stated over the group model.

use vstd::prelude::*;

use crate::byteops::{append_bytes, flatten_bytes};
use crate::curve::{
    batch_encode_points, batch_repr, group_order, sadd, smul, ssub, GroupPoint, GroupScalar,
};
use crate::domains::{
    clsag_auxiliary, clsag_commitment, clsag_linking, spec_clsag_auxiliary,
    spec_clsag_commitment, spec_clsag_linking, spec_signature_key_image,
};
use crate::errors::SignatureError;
use crate::hashes::{blake256, domain_h_scalar, h_bytes, h_point_spec, h_scalar, h_scalar_spec};
use crate::modmath::lemma_mod_small;
use crate::pedersen::commit_spec;
use crate::signature::signature_utils::{
    encode_rings, get_key_image_points, in_ring, key_image_spec, ring_c_bytes, ring_is_sorted,
    ring_l_bytes, ring_sorted, separate_ring, slot_at, steps_into,
};
use crate::types::{Commitment, EnoteKeys, Ring};

verus! {

/// The signed message: the caller's message, both encoded ring columns, and
/// the batched encodings of the pseudo-output, key image and auxiliary point.
pub open spec fn clsag_message(
    msg: Seq<u8>,
    ring: Seq<crate::types::Enote>,
    pseudo: nat,
    key_image: nat,
    aux: nat,
) -> Seq<u8> {
    blake256(
        msg + ring_l_bytes(ring) + ring_c_bytes(ring) + batch_repr(pseudo) + batch_repr(key_image)
            + batch_repr(aux),
    )
}

/// The linking aggregation coefficient.
pub open spec fn clsag_mu_l(m: Seq<u8>) -> nat {
    h_scalar_spec(m + spec_clsag_linking())
}

/// The auxiliary aggregation coefficient.
pub open spec fn clsag_mu_c(m: Seq<u8>) -> nat {
    h_scalar_spec(m + spec_clsag_auxiliary())
}

/// The key-image base point of a ring slot: the hash-to-point of the batched
/// encoding of its owner key.
pub open spec fn clsag_h(e: crate::types::Enote) -> nat {
    h_point_spec(batch_repr(e.owner@) + spec_signature_key_image())
}

/// The aggregated public key of a ring slot: `mu_l * L_i + mu_c * C_i`, with
/// the commitment shifted by the pseudo-output.
pub open spec fn clsag_w(mu_l: nat, mu_c: nat, e: crate::types::Enote, pseudo: nat) -> nat {
    sadd(smul(e.owner@, mu_l), smul(ssub(e.commitment@, pseudo), mu_c))
}

/// One step of the verification walk: hash the two recomputed points into the
/// next challenge, under the commitment domain tag.
pub open spec fn clsag_round(
    m: Seq<u8>,
    s_i: nat,
    c_i: nat,
    w_i: nat,
    h_i: nat,
    w_img: nat,
) -> nat {
    let left = sadd(s_i, smul(w_i, c_i));
    let right = sadd(smul(h_i, s_i), smul(w_img, c_i));
    h_scalar_spec(m + batch_repr(left) + batch_repr(right) + spec_clsag_commitment())
}

/// The whole verification walk from slot `i` onward, starting at challenge
/// `c`.
pub open spec fn clsag_walk(
    m: Seq<u8>,
    ring: Seq<crate::types::Enote>,
    pseudo: nat,
    s: Seq<nat>,
    w_img: nat,
    c: nat,
    i: int,
) -> nat
    decreases ring.len() - i,
{
    if i < 0 || i >= ring.len() {
        c
    } else {
        clsag_walk(
            m,
            ring,
            pseudo,
            s,
            w_img,
            clsag_round(
                m,
                s[i],
                c,
                clsag_w(clsag_mu_l(m), clsag_mu_c(m), ring[i], pseudo),
                clsag_h(ring[i]),
                w_img,
            ),
            i + 1,
        )
    }
}

/// A challenge cycle closes the verification walk: when the round at each
/// slot maps the challenge entering it to the challenge entering the next
/// slot, wrapping at the last slot, the walk started at the slot-0 challenge
/// returns to it.
proof fn lemma_clsag_cyclic_walk(
    m: Seq<u8>,
    ring: Seq<crate::types::Enote>,
    pseudo: nat,
    s: Seq<nat>,
    w_img: nat,
    e: Seq<nat>,
    i: int,
)
    requires
        e.len() == ring.len(),
        0 <= i < ring.len(),
        forall|k: int|
            0 <= k < ring.len() - 1 ==> e[k + 1] == clsag_round(
                m,
                s[k],
                #[trigger] e[k],
                clsag_w(clsag_mu_l(m), clsag_mu_c(m), ring[k], pseudo),
                clsag_h(ring[k]),
                w_img,
            ),
        e[0] == clsag_round(
            m,
            s[ring.len() - 1],
            e[ring.len() - 1],
            clsag_w(clsag_mu_l(m), clsag_mu_c(m), ring[ring.len() - 1], pseudo),
            clsag_h(ring[ring.len() - 1]),
            w_img,
        ),
    ensures
        clsag_walk(m, ring, pseudo, s, w_img, e[i], i) == e[0],
    decreases ring.len() - i,
{
    let n = ring.len() as int;
    let c_next = clsag_round(
        m,
        s[i],
        e[i],
        clsag_w(clsag_mu_l(m), clsag_mu_c(m), ring[i], pseudo),
        clsag_h(ring[i]),
        w_img,
    );
    if i == n - 1 {
        assert(c_next == e[0]);
        assert(clsag_walk(m, ring, pseudo, s, w_img, e[0], n) == e[0]);
    } else {
        assert(c_next == e[i + 1]);
        lemma_clsag_cyclic_walk(m, ring, pseudo, s, w_img, e, i + 1);
    }
}

/// A RingCT ring signature.
///
/// CLSAG stands for "Concise Linkable Spontaneous Anonymous Group
/// (signature)".
#[derive(Clone)]
pub struct CLSAGSignature {
    pub key_image: GroupPoint,
    c_0: GroupScalar,
    s: Vec<GroupScalar>,
    auxiliary: GroupPoint,
}

impl CLSAGSignature {
    /// The stored key image.
    pub closed spec fn spec_key_image(&self) -> nat {
        self.key_image@
    }

    /// The stored starting challenge.
    pub closed spec fn spec_c0(&self) -> nat {
        self.c_0@
    }

    /// The stored response scalars.
    pub closed spec fn spec_s(&self) -> Seq<nat> {
        self.s@.map_values(|x: GroupScalar| x@)
    }

    /// The stored auxiliary point.
    pub closed spec fn spec_aux(&self) -> nat {
        self.auxiliary@
    }

    /// Whether the signature passes verification against a ring,
    /// pseudo-output and message: the challenge walk started at `c_0` closes
    /// on `c_0`.
    pub open spec fn valid(
        &self,
        ring: Seq<crate::types::Enote>,
        pseudo: nat,
        msg: Seq<u8>,
    ) -> bool {
        let m = clsag_message(msg, ring, pseudo, self.spec_key_image(), self.spec_aux());
        let w_img = sadd(
            smul(self.spec_key_image(), clsag_mu_l(m)),
            smul(self.spec_aux(), clsag_mu_c(m)),
        );
        &&& self.spec_s().len() == ring.len()
        &&& clsag_walk(m, ring, pseudo, self.spec_s(), w_img, self.spec_c0(), 0) == self.spec_c0()
    }

    /// Create a signature given a **sorted** ring, the private keys of one of
    /// the ring's enotes, a fresh pseudo-output blinding factor, and a
    /// message.  Returns the pseudo-output commitment and the signature.
    pub fn sign(
        ring: &Ring,
        enote_keys: EnoteKeys,
        pseudo_out_blinding: GroupScalar,
        msg: &[u8],
    ) -> (r: Result<(Commitment, CLSAGSignature), SignatureError>)
        ensures
            r matches Err(e) && e is UnsortedRing <==> !ring_sorted(ring.0@),
            r matches Err(e) && e is EnoteNotInRing <==> ring_sorted(ring.0@) && !in_ring(
                ring.0@,
                enote_keys,
            ),
            r is Ok <==> ring_sorted(ring.0@) && in_ring(ring.0@, enote_keys),
            r matches Ok(out) ==> out.0@ == commit_spec(
                enote_keys.value as nat,
                pseudo_out_blinding@,
            ) && out.1.spec_key_image() == key_image_spec(enote_keys.owner@) && out.1.spec_s().len()
                == ring.0@.len(),
            r matches Ok(out) ==> out.1.valid(ring.0@, out.0@, msg@),
    {
        let (ring_l, unshifted_ring_c) = separate_ring(ring);
        let (encoded_ring_l, encoded_ring_c) = encode_rings(ring_l, unshifted_ring_c);
        if !ring_is_sorted(ring, &encoded_ring_l, &encoded_ring_c) {
            return Err(SignatureError::UnsortedRing);
        }
        CLSAGSignature::sign_internal(
            ring,
            encoded_ring_l,
            encoded_ring_c,
            enote_keys,
            pseudo_out_blinding,
            msg,
        )
    }

    /// Same as `sign`, except it does not check that the ring is sorted.
    /// Signatures created this way verify only with `verify_unsorted`.
    pub fn sign_unsorted(
        ring: &Ring,
        enote_keys: EnoteKeys,
        pseudo_out_blinding: GroupScalar,
        msg: &[u8],
    ) -> (r: Result<(Commitment, CLSAGSignature), SignatureError>)
        ensures
            r matches Err(e) ==> e is EnoteNotInRing,
            r is Ok <==> in_ring(ring.0@, enote_keys),
            r matches Ok(out) ==> out.0@ == commit_spec(
                enote_keys.value as nat,
                pseudo_out_blinding@,
            ) && out.1.spec_key_image() == key_image_spec(enote_keys.owner@) && out.1.spec_s().len()
                == ring.0@.len(),
            r matches Ok(out) ==> out.1.valid(ring.0@, out.0@, msg@),
    {
        let (ring_l, unshifted_ring_c) = separate_ring(ring);
        let (encoded_ring_l, encoded_ring_c) = encode_rings(ring_l, unshifted_ring_c);
        CLSAGSignature::sign_internal(
            ring,
            encoded_ring_l,
            encoded_ring_c,
            enote_keys,
            pseudo_out_blinding,
            msg,
        )
    }

    /// Internal signing function.
    #[verifier::rlimit(100)]
    #[verifier::spinoff_prover]
    fn sign_internal(
        ring: &Ring,
        encoded_ring_l: Vec<Vec<u8>>,
        encoded_ring_c: Vec<Vec<u8>>,
        enote_keys: EnoteKeys,
        pseudo_out_blinding: GroupScalar,
        msg: &[u8],
    ) -> (r: Result<(Commitment, CLSAGSignature), SignatureError>)
        requires
            encoded_ring_l@.len() == ring.0@.len(),
            encoded_ring_c@.len() == ring.0@.len(),
            forall|i: int|
                0 <= i < ring.0@.len() ==> encoded_ring_l@[i]@ == batch_repr(ring.0@[i].owner@)
                    && encoded_ring_l@[i]@.len() == 32,
            forall|i: int|
                0 <= i < ring.0@.len() ==> encoded_ring_c@[i]@ == batch_repr(
                    ring.0@[i].commitment@,
                ) && encoded_ring_c@[i]@.len() == 32,
        ensures
            r matches Err(e) ==> e is EnoteNotInRing,
            r is Ok <==> in_ring(ring.0@, enote_keys),
            r matches Ok(out) ==> out.0@ == commit_spec(
                enote_keys.value as nat,
                pseudo_out_blinding@,
            ) && out.1.spec_key_image() == key_image_spec(enote_keys.owner@) && out.1.spec_s().len()
                == ring.0@.len(),
            r matches Ok(out) ==> out.1.valid(ring.0@, out.0@, msg@),
    {
        let n = ring.0.len();
        let commitment_key = enote_keys.blinding.sub(pseudo_out_blinding);
        let pseudo_out = Commitment::commit(enote_keys.value, pseudo_out_blinding);
        let ring_c = shift_commitments_of(ring, pseudo_out);

        // Find the signer's enote in the ring.
        let my_enote = enote_keys.to_enote();
        let mut j: usize = 0;
        let mut found = false;
        while j < n
            invariant_except_break
                !found,
            invariant
                n == ring.0@.len(),
                j <= n,
                my_enote.owner@ == enote_keys.owner@,
                my_enote.commitment@ == commit_spec(enote_keys.value as nat, enote_keys.blinding@),
                found ==> j < n && ring.0@[j as int].owner@ == enote_keys.owner@
                    && ring.0@[j as int].commitment@ == commit_spec(
                    enote_keys.value as nat,
                    enote_keys.blinding@,
                ),
                !found ==> forall|k: int|
                    0 <= k < j ==> !((#[trigger] ring.0@[k]).owner@ == enote_keys.owner@
                        && ring.0@[k].commitment@ == commit_spec(
                        enote_keys.value as nat,
                        enote_keys.blinding@,
                    )),
            ensures
                found ==> j < n && ring.0@[j as int].owner@ == enote_keys.owner@
                    && ring.0@[j as int].commitment@ == commit_spec(
                    enote_keys.value as nat,
                    enote_keys.blinding@,
                ),
                !found ==> forall|k: int|
                    0 <= k < n ==> !((#[trigger] ring.0@[k]).owner@ == enote_keys.owner@
                        && ring.0@[k].commitment@ == commit_spec(
                        enote_keys.value as nat,
                        enote_keys.blinding@,
                    )),
            decreases n - j,
        {
            if ring.0[j] == my_enote {
                found = true;
                break ;
            }
            j = j + 1;
        }
        if !found {
            return Err(SignatureError::EnoteNotInRing);
        }

        let key_image_points = get_key_image_points(&encoded_ring_l);
        let owner = enote_keys.owner;
        let key_image = key_image_points[j].mul(owner);
        let auxiliary_point = key_image_points[j].mul(commitment_key);
        proof {
            use_type_invariant(&owner);
            assert(h_point_spec(batch_repr(enote_keys.owner@) + spec_signature_key_image())
                * owner@ == owner@ * h_point_spec(
                batch_repr(enote_keys.owner@) + spec_signature_key_image(),
            )) by (nonlinear_arith);
        }

        let m = create_message(
            &encoded_ring_l,
            &encoded_ring_c,
            pseudo_out,
            key_image,
            auxiliary_point,
            msg,
        );
        let ghost msp = clsag_message(msg@, ring.0@, pseudo_out@, key_image@, auxiliary_point@);
        proof {
            assert(encoded_ring_l@.map_values(|p: Vec<u8>| p@) =~= ring.0@.map_values(
                |e: crate::types::Enote| batch_repr(e.owner@),
            ));
            assert(encoded_ring_c@.map_values(|p: Vec<u8>| p@) =~= ring.0@.map_values(
                |e: crate::types::Enote| batch_repr(e.commitment@),
            ));
            assert(m@ == msp);
        }

        // The response scalars are generated deterministically by chaining
        // hashes over a seed derived from the secrets and the message.
        let mut seed = owner.to_bytes();
        let pob_bytes = pseudo_out_blinding.to_bytes();
        append_bytes(&mut seed, pob_bytes.as_slice());
        append_bytes(&mut seed, m.as_slice());
        let mut chain = filler_bytes();
        let mut s: Vec<GroupScalar> = Vec::new();
        let mut x: usize = 0;
        while x < n
            invariant
                s@.len() == x,
                x <= n,
                forall|k: int| 0 <= k < x ==> (#[trigger] s@[k])@ < group_order(),
            decreases n - x,
        {
            let mut buf = chain;
            append_bytes(&mut buf, seed.as_slice());
            let next = h_scalar(buf.as_slice());
            s.push(next);
            chain = next.to_bytes();
            x = x + 1;
        }

        // Aggregation coefficients and aggregated keys.
        let link_tag = clsag_linking();
        let aux_tag = clsag_auxiliary();
        let linking_ac = domain_h_scalar(m.as_slice(), link_tag.as_slice());
        let auxiliary_ac = domain_h_scalar(m.as_slice(), aux_tag.as_slice());
        let ghost mu_l = clsag_mu_l(msp);
        let ghost mu_c = clsag_mu_c(msp);
        let mut w_left: Vec<GroupPoint> = Vec::new();
        let mut x: usize = 0;
        while x < n
            invariant
                w_left@.len() == x,
                x <= n,
                n == ring.0@.len(),
                n == ring_c@.len(),
                linking_ac@ == mu_l,
                auxiliary_ac@ == mu_c,
                forall|k: int|
                    0 <= k < ring_c@.len() ==> (#[trigger] ring_c@[k])@ == ssub(
                        ring.0@[k].commitment@,
                        pseudo_out@,
                    ),
                forall|k: int|
                    0 <= k < x ==> (#[trigger] w_left@[k])@ == clsag_w(
                        mu_l,
                        mu_c,
                        ring.0@[k],
                        pseudo_out@,
                    ),
            decreases n - x,
        {
            w_left.push(ring.0[x].owner.mul(linking_ac).add(ring_c[x].mul(auxiliary_ac)));
            x = x + 1;
        }
        let w_right = key_image.mul(linking_ac).add(auxiliary_point.mul(auxiliary_ac));
        let w_secret = linking_ac.mul(owner).add(auxiliary_ac.mul(commitment_key));
        let ghost w_img = sadd(smul(key_image@, mu_l), smul(auxiliary_point@, mu_c));
        proof {
            assert(w_right@ == w_img);
        }

        // Walk the ring from the signer's slot, recording the challenge
        // entering each slot; the ghost chain lists them in walk order.
        let com_tag = clsag_commitment();
        let ghost sv0 = s@.map_values(|q: GroupScalar| q@);
        let ghost hj = clsag_h(ring.0@[j as int]);
        let sj = s[j];
        let mut left = GroupPoint::basepoint().mul(sj);
        let mut right = key_image_points[j].mul(sj);
        proof {
            use_type_invariant(&sj);
            crate::modmath::lemma_smul_one(sj@);
            assert(left@ == sv0[j as int]);
            assert(right@ == smul(hj, sv0[j as int]));
        }
        let ghost c1 = h_scalar_spec(
            msp + batch_repr(sv0[j as int]) + batch_repr(smul(hj, sv0[j as int]))
                + spec_clsag_commitment(),
        );
        let ghost mut ech: Seq<nat> = Seq::empty();
        let mut c_i = GroupScalar::one();
        let mut c_0 = c_i;
        let mut i: usize = j;
        let mut step: usize = 0;
        while step < n
            invariant_except_break
                i as int == slot_at(j as int, step as int, n as int),
                ech.len() == step,
                step == 0 ==> left@ == sv0[j as int] && right@ == smul(hj, sv0[j as int]),
                step > 0 ==> left@ == sadd(
                    sv0[i as int],
                    smul(clsag_w(mu_l, mu_c, ring.0@[i as int], pseudo_out@), ech[step - 1]),
                ) && right@ == sadd(
                    smul(clsag_h(ring.0@[i as int]), sv0[i as int]),
                    smul(w_img, ech[step - 1]),
                ),
            invariant
                n == ring.0@.len(),
                j < n,
                step < n,
                i < n,
                n == s@.len(),
                n == key_image_points@.len(),
                n == w_left@.len(),
                sv0 == s@.map_values(|q: GroupScalar| q@),
                forall|k: int| 0 <= k < n ==> sv0[k] < group_order(),
                m@ == msp,
                com_tag@ == spec_clsag_commitment(),
                hj == clsag_h(ring.0@[j as int]),
                mu_l == clsag_mu_l(msp),
                mu_c == clsag_mu_c(msp),
                w_right@ == w_img,
                c1 == h_scalar_spec(
                    msp + batch_repr(sv0[j as int]) + batch_repr(smul(hj, sv0[j as int]))
                        + spec_clsag_commitment(),
                ),
                forall|k: int|
                    0 <= k < n ==> (#[trigger] key_image_points@[k])@ == clsag_h(ring.0@[k]),
                forall|k: int|
                    0 <= k < n ==> (#[trigger] w_left@[k])@ == clsag_w(
                        mu_l,
                        mu_c,
                        ring.0@[k],
                        pseudo_out@,
                    ),
                ech.len() <= n,
                ech.len() > 0 ==> ech[0] == c1,
                forall|t: int|
                    1 <= t < ech.len() ==> #[trigger] ech[t] == clsag_round(
                        msp,
                        sv0[slot_at(j as int, t, n as int)],
                        ech[t - 1],
                        clsag_w(
                            mu_l,
                            mu_c,
                            ring.0@[slot_at(j as int, t, n as int)],
                            pseudo_out@,
                        ),
                        clsag_h(ring.0@[slot_at(j as int, t, n as int)]),
                        w_img,
                    ),
                ech.len() > n - 1 - (j as int) ==> c_0@ == ech[n - 1 - (j as int)],
            ensures
                ech.len() == n,
                c_i@ == ech[n - 1],
                c_0@ == ech[n - 1 - (j as int)],
                ech[0] == c1,
                forall|t: int|
                    1 <= t < n ==> #[trigger] ech[t] == clsag_round(
                        msp,
                        sv0[slot_at(j as int, t, n as int)],
                        ech[t - 1],
                        clsag_w(
                            mu_l,
                            mu_c,
                            ring.0@[slot_at(j as int, t, n as int)],
                            pseudo_out@,
                        ),
                        clsag_h(ring.0@[slot_at(j as int, t, n as int)]),
                        w_img,
                    ),
            decreases n - step,
        {
            let ghost i_prev = i as int;
            let ghost step0 = step as int;
            i = (i + 1) % n;
            proof {
                crate::modmath::lemma_mod_double_range(i_prev + 1, n as int);
                assert(i as int == slot_at(j as int, step0 + 1, n as int));
            }
            c_i = round_challenge(&m, left, right, &com_tag);
            proof {
                if step0 == 0 {
                    assert(c_i@ == c1);
                } else {
                    assert(i_prev == slot_at(j as int, step0, n as int));
                    assert(c_i@ == clsag_round(
                        msp,
                        sv0[i_prev],
                        ech[step0 - 1],
                        clsag_w(mu_l, mu_c, ring.0@[i_prev], pseudo_out@),
                        clsag_h(ring.0@[i_prev]),
                        w_img,
                    ));
                }
                ech = ech.push(c_i@);
            }
            if i == 0 {
                c_0 = c_i;
            }
            proof {
                if step0 == n - 1 - (j as int) {
                    assert(i == 0);
                    assert(c_0@ == ech[n - 1 - (j as int)]);
                }
            }
            if i == j {
                proof {
                    assert(step0 == n - 1);
                }
                break ;
            }
            let si = s[i];
            proof {
                use_type_invariant(&si);
                crate::modmath::lemma_smul_one(si@);
                assert(sv0[i as int] == si@);
                assert(step0 < n - 1);
            }
            left = GroupPoint::basepoint().mul(si).add(w_left[i].mul(c_i));
            right = key_image_points[i].mul(si).add(w_right.mul(c_i));
            step = step + 1;
        }
        let patched = s[j].sub(c_i.mul(w_secret));
        s[j] = patched;

        let sig = CLSAGSignature { key_image, c_0, s, auxiliary: auxiliary_point };
        proof {
            let ni = n as int;
            let ji = j as int;
            let sv1 = sig.spec_s();
            assert(sv1 =~= sv0.update(ji, patched@));
            let e_j = ech[ni - 1];
            let wj = clsag_w(mu_l, mu_c, ring.0@[ji], pseudo_out@);
            // The signer's slot aggregates exactly the secrets that patch it.
            use_type_invariant(&enote_keys.blinding);
            use_type_invariant(&pseudo_out_blinding);
            use_type_invariant(&owner);
            crate::modmath::lemma_commit_shift(
                enote_keys.value as nat,
                enote_keys.blinding@,
                pseudo_out_blinding@,
            );
            assert(ssub(ring.0@[ji].commitment@, pseudo_out@) == commitment_key@);
            crate::modmath::lemma_smul_comm(enote_keys.owner@, mu_l);
            crate::modmath::lemma_smul_comm(commitment_key@, mu_c);
            assert(wj == w_secret@);
            // The aggregated image key is the base point times the slot key.
            crate::modmath::lemma_smul_assoc(hj, enote_keys.owner@, mu_l);
            crate::modmath::lemma_smul_assoc(hj, commitment_key@, mu_c);
            crate::modmath::lemma_smul_sadd(
                hj,
                smul(enote_keys.owner@, mu_l),
                smul(commitment_key@, mu_c),
            );
            assert(w_img == smul(hj, wj));
            // The patched response closes the signer's round on the recorded
            // walk: both hashed points reduce to the unpatched ones.
            assert(patched@ == ssub(sv0[ji], smul(e_j, wj)));
            crate::modmath::lemma_patch_sub(sv0[ji], wj, e_j);
            assert(sadd(sv1[ji], smul(wj, e_j)) == sv0[ji]);
            crate::modmath::lemma_smul_ssub(hj, sv0[ji], smul(e_j, wj));
            crate::modmath::lemma_smul_assoc(hj, wj, e_j);
            crate::modmath::lemma_smul_comm(wj, e_j);
            crate::modmath::lemma_sadd_ssub_cancel(
                smul(hj, sv0[ji]),
                smul(hj, smul(e_j, wj)),
            );
            assert(sadd(smul(hj, sv1[ji]), smul(w_img, e_j)) == smul(hj, sv0[ji]));
            assert(clsag_round(msp, sv1[ji], e_j, wj, hj, w_img) == c1);
            // Challenges reindexed by slot: the chain entry `t` entered slot
            // `slot_at(j, t + 1, n)`.
            let e_slot = Seq::new(n as nat, |k: int| ech[steps_into(ji, k, ni)]);
            assert forall|k: int| 0 <= k < ni - 1 implies e_slot[k + 1] == clsag_round(
                msp,
                sv1[k],
                #[trigger] e_slot[k],
                clsag_w(mu_l, mu_c, ring.0@[k], pseudo_out@),
                clsag_h(ring.0@[k]),
                w_img,
            ) by {
                if k == ji {
                    assert(e_slot[k] == ech[ni - 1]);
                    assert(e_slot[k + 1] == ech[0]);
                } else {
                    let t = steps_into(ji, k, ni);
                    assert(0 <= t < ni - 1);
                    assert(e_slot[k] == ech[t]);
                    assert(e_slot[k + 1] == ech[t + 1]);
                    assert(slot_at(ji, t + 1, ni) == k);
                    assert(sv1[k] == sv0[k]);
                }
            }
            if ji == ni - 1 {
                assert(e_slot[0] == ech[0]);
                assert(e_slot[ni - 1] == ech[ni - 1]);
            } else {
                assert(e_slot[0] == ech[ni - ji - 1]);
                assert(e_slot[ni - 1] == ech[ni - ji - 2]);
                assert(slot_at(ji, ni - ji - 1, ni) == ni - 1);
                assert(sv1[ni - 1] == sv0[ni - 1]);
            }
            assert(e_slot[0] == clsag_round(
                msp,
                sv1[ni - 1],
                e_slot[ni - 1],
                clsag_w(mu_l, mu_c, ring.0@[ni - 1], pseudo_out@),
                clsag_h(ring.0@[ni - 1]),
                w_img,
            ));
            lemma_clsag_cyclic_walk(msp, ring.0@, pseudo_out@, sv1, w_img, e_slot, 0);
            assert(e_slot[0] == c_0@);
            assert(sig.valid(ring.0@, pseudo_out@, msg@));
        }

        Ok((pseudo_out, sig))
    }

    /// Given a CLSAG signature, a **sorted** ring and its pseudo-output
    /// commitment, check whether the signature is valid for `msg`.
    pub fn verify(
        signature: CLSAGSignature,
        ring: &Ring,
        pseudo_out: Commitment,
        msg: &[u8],
    ) -> (r: Result<(), SignatureError>)
        ensures
            r matches Err(e) && e is UnsortedRing <==> !ring_sorted(ring.0@),
            r matches Err(e) && e is Malformed <==> ring_sorted(ring.0@)
                && signature.spec_s().len() != ring.0@.len(),
            r is Ok <==> ring_sorted(ring.0@) && signature.valid(ring.0@, pseudo_out@, msg@),
            r matches Err(e) ==> e is UnsortedRing || e is Malformed || e is Invalid,
            r matches Err(e) && e is Invalid ==> !signature.valid(ring.0@, pseudo_out@, msg@),
    {
        let (ring_l, unshifted_ring_c) = separate_ring(ring);
        let (encoded_ring_l, encoded_ring_c) = encode_rings(ring_l, unshifted_ring_c);
        if !ring_is_sorted(ring, &encoded_ring_l, &encoded_ring_c) {
            return Err(SignatureError::UnsortedRing);
        }
        CLSAGSignature::verify_internal(
            signature,
            ring,
            encoded_ring_l,
            encoded_ring_c,
            pseudo_out,
            msg,
        )
    }

    /// Same as `verify`, except it does not check that the ring is sorted:
    /// the ring must be in exactly the order in which it was signed.
    pub fn verify_unsorted(
        signature: CLSAGSignature,
        ring: &Ring,
        pseudo_out: Commitment,
        msg: &[u8],
    ) -> (r: Result<(), SignatureError>)
        ensures
            r matches Err(e) && e is Malformed <==> signature.spec_s().len() != ring.0@.len(),
            r is Ok <==> signature.valid(ring.0@, pseudo_out@, msg@),
            r matches Err(e) ==> e is Malformed || e is Invalid,
            r matches Err(e) && e is Invalid ==> !signature.valid(ring.0@, pseudo_out@, msg@),
    {
        let (ring_l, unshifted_ring_c) = separate_ring(ring);
        let (encoded_ring_l, encoded_ring_c) = encode_rings(ring_l, unshifted_ring_c);
        CLSAGSignature::verify_internal(
            signature,
            ring,
            encoded_ring_l,
            encoded_ring_c,
            pseudo_out,
            msg,
        )
    }

    /// Internal verification function: recompute the challenge walk and
    /// compare it with the stored starting challenge.
    fn verify_internal(
        signature: CLSAGSignature,
        ring: &Ring,
        encoded_ring_l: Vec<Vec<u8>>,
        encoded_ring_c: Vec<Vec<u8>>,
        pseudo_out: Commitment,
        msg: &[u8],
    ) -> (r: Result<(), SignatureError>)
        requires
            encoded_ring_l@.len() == ring.0@.len(),
            encoded_ring_c@.len() == ring.0@.len(),
            forall|i: int|
                0 <= i < ring.0@.len() ==> encoded_ring_l@[i]@ == batch_repr(ring.0@[i].owner@)
                    && encoded_ring_l@[i]@.len() == 32,
            forall|i: int|
                0 <= i < ring.0@.len() ==> encoded_ring_c@[i]@ == batch_repr(
                    ring.0@[i].commitment@,
                ) && encoded_ring_c@[i]@.len() == 32,
        ensures
            r matches Err(e) && e is Malformed <==> signature.spec_s().len() != ring.0@.len(),
            r is Ok <==> signature.valid(ring.0@, pseudo_out@, msg@),
            r matches Err(e) ==> e is Malformed || e is Invalid,
            r matches Err(e) && e is Invalid ==> !signature.valid(ring.0@, pseudo_out@, msg@),
    {
        let n = ring.0.len();
        if signature.s.len() != n {
            proof {
                assert(signature.spec_s().len() == signature.s@.len());
            }
            return Err(SignatureError::Malformed);
        }
        let ring_c = shift_commitments_of(ring, pseudo_out);
        let key_image_points = get_key_image_points(&encoded_ring_l);
        let m = create_message(
            &encoded_ring_l,
            &encoded_ring_c,
            pseudo_out,
            signature.key_image,
            signature.auxiliary,
            msg,
        );
        let ghost msp = clsag_message(
            msg@,
            ring.0@,
            pseudo_out@,
            signature.key_image@,
            signature.spec_aux(),
        );
        proof {
            assert(encoded_ring_l@.map_values(|p: Vec<u8>| p@) =~= ring.0@.map_values(
                |e: crate::types::Enote| batch_repr(e.owner@),
            ));
            assert(encoded_ring_c@.map_values(|p: Vec<u8>| p@) =~= ring.0@.map_values(
                |e: crate::types::Enote| batch_repr(e.commitment@),
            ));
            assert(m@ == msp);
        }

        let link_tag = clsag_linking();
        let aux_tag = clsag_auxiliary();
        let linking_ac = domain_h_scalar(m.as_slice(), link_tag.as_slice());
        let auxiliary_ac = domain_h_scalar(m.as_slice(), aux_tag.as_slice());
        let ghost mu_l = clsag_mu_l(msp);
        let ghost mu_c = clsag_mu_c(msp);

        let mut w_left: Vec<GroupPoint> = Vec::new();
        let mut x: usize = 0;
        while x < n
            invariant
                x <= n,
                n == ring.0@.len(),
                n == ring_c@.len(),
                w_left@.len() == x,
                linking_ac@ == mu_l,
                auxiliary_ac@ == mu_c,
                forall|k: int|
                    0 <= k < ring_c@.len() ==> ring_c@[k]@ == ssub(
                        ring.0@[k].commitment@,
                        pseudo_out@,
                    ),
                forall|k: int|
                    0 <= k < x ==> w_left@[k]@ == clsag_w(mu_l, mu_c, ring.0@[k], pseudo_out@),
            decreases n - x,
        {
            w_left.push(ring.0[x].owner.mul(linking_ac).add(ring_c[x].mul(auxiliary_ac)));
            x = x + 1;
        }
        let w_right = signature.key_image.mul(linking_ac).add(
            signature.auxiliary.mul(auxiliary_ac),
        );
        let ghost w_img = sadd(
            smul(signature.key_image@, mu_l),
            smul(signature.spec_aux(), mu_c),
        );
        proof {
            assert(w_right@ == w_img);
        }

        let ghost sv = signature.spec_s();
        let com_tag = clsag_commitment();
        let mut c_i = signature.c_0;
        let mut i: usize = 0;
        while i < n
            invariant
                i <= n,
                n == ring.0@.len(),
                n == ring_c@.len(),
                n == key_image_points@.len(),
                n == w_left@.len(),
                n == signature.s@.len(),
                sv == signature.spec_s(),
                sv.len() == n,
                m@ == msp,
                mu_l == clsag_mu_l(msp),
                mu_c == clsag_mu_c(msp),
                w_right@ == w_img,
                com_tag@ == spec_clsag_commitment(),
                forall|k: int|
                    0 <= k < n ==> (#[trigger] key_image_points@[k])@ == clsag_h(ring.0@[k]),
                forall|k: int|
                    0 <= k < n ==> (#[trigger] w_left@[k])@ == clsag_w(
                        mu_l,
                        mu_c,
                        ring.0@[k],
                        pseudo_out@,
                    ),
                clsag_walk(msp, ring.0@, pseudo_out@, sv, w_img, signature.spec_c0(), 0)
                    == clsag_walk(msp, ring.0@, pseudo_out@, sv, w_img, c_i@, i as int),
            decreases n - i,
        {
            let si = signature.s[i];
            proof {
                use_type_invariant(&si);
                lemma_mod_small(si@ as int);
                assert(sv[i as int] == si@);
            }
            let left = GroupPoint::basepoint().mul(si).add(w_left[i].mul(c_i));
            let right = key_image_points[i].mul(si).add(w_right.mul(c_i));
            let mut buf = vstd::slice::slice_to_vec(m.as_slice());
            let mut pts: Vec<GroupPoint> = Vec::new();
            pts.push(left);
            pts.push(right);
            let encoded = batch_encode_points(&pts);
            append_bytes(&mut buf, encoded[0].as_slice());
            append_bytes(&mut buf, encoded[1].as_slice());
            let ghost c_prev = c_i@;
            c_i = domain_h_scalar(buf.as_slice(), com_tag.as_slice());
            proof {
                assert(buf@ + spec_clsag_commitment() =~= msp + batch_repr(left@) + batch_repr(
                    right@,
                ) + spec_clsag_commitment());
                assert(left@ == sadd(
                    sv[i as int],
                    smul(clsag_w(mu_l, mu_c, ring.0@[i as int], pseudo_out@), c_prev),
                ));
                assert(right@ == sadd(
                    smul(clsag_h(ring.0@[i as int]), sv[i as int]),
                    smul(w_img, c_prev),
                ));
                assert(c_i@ == clsag_round(
                    msp,
                    sv[i as int],
                    c_prev,
                    clsag_w(mu_l, mu_c, ring.0@[i as int], pseudo_out@),
                    clsag_h(ring.0@[i as int]),
                    w_img,
                ));
            }
            i = i + 1;
        }
        proof {
            assert(clsag_walk(msp, ring.0@, pseudo_out@, sv, w_img, c_i@, n as int) == c_i@);
        }
        if c_i == signature.c_0 {
            Ok(())
        } else {
            Err(SignatureError::Invalid)
        }
    }
}

/// One challenge of the walk: hash the two recomputed points after the
/// message, under the commitment domain tag.
fn round_challenge(
    m: &Vec<u8>,
    left: GroupPoint,
    right: GroupPoint,
    com_tag: &Vec<u8>,
) -> (r: GroupScalar)
    requires
        com_tag@ == spec_clsag_commitment(),
    ensures
        r@ == h_scalar_spec(
            m@ + batch_repr(left@) + batch_repr(right@) + spec_clsag_commitment(),
        ),
{
    let mut buf = vstd::slice::slice_to_vec(m.as_slice());
    let mut pts: Vec<GroupPoint> = Vec::new();
    pts.push(left);
    pts.push(right);
    let encoded = batch_encode_points(&pts);
    append_bytes(&mut buf, encoded[0].as_slice());
    append_bytes(&mut buf, encoded[1].as_slice());
    let r = domain_h_scalar(buf.as_slice(), com_tag.as_slice());
    proof {
        assert(buf@ + spec_clsag_commitment() =~= m@ + batch_repr(left@) + batch_repr(right@)
            + spec_clsag_commitment());
    }
    r
}

/// The chain-hash filler: the little-endian bytes of the group order itself,
/// the fixed starting block of the deterministic response-scalar chain.
fn filler_bytes() -> (r: Vec<u8>)
    ensures
        r@.len() == 32,
{
    let v: Vec<u8> = vec![
        0xedu8, 0xd3u8, 0xf5u8, 0x5cu8, 0x1au8, 0x63u8, 0x12u8, 0x58u8, 0xd6u8, 0x9cu8, 0xf7u8,
        0xa2u8, 0xdeu8, 0xf9u8, 0xdeu8, 0x14u8, 0u8, 0u8, 0u8, 0u8, 0u8, 0u8, 0u8, 0u8, 0u8, 0u8,
        0u8, 0u8, 0u8, 0u8, 0u8, 0x10u8,
    ];
    v
}

/// Shift every ring commitment by the pseudo-output.
fn shift_commitments_of(ring: &Ring, pseudo_out: Commitment) -> (r: Vec<GroupPoint>)
    ensures
        r@.len() == ring.0@.len(),
        forall|i: int|
            0 <= i < r@.len() ==> r@[i]@ == ssub(ring.0@[i].commitment@, pseudo_out@),
{
    let mut out: Vec<GroupPoint> = Vec::new();
    let mut i: usize = 0;
    while i < ring.0.len()
        invariant
            i <= ring.0@.len(),
            out@.len() == i,
            forall|k: int| 0 <= k < i ==> out@[k]@ == ssub(ring.0@[k].commitment@, pseudo_out@),
        decreases ring.0@.len() - i,
    {
        out.push(ring.0[i].commitment.to_point().sub(pseudo_out.0));
        i = i + 1;
    }
    out
}

/// Create the signed message, including a hash of all keys.
fn create_message(
    encoded_ring_l: &Vec<Vec<u8>>,
    encoded_ring_c: &Vec<Vec<u8>>,
    pseudo_out: Commitment,
    key_image: GroupPoint,
    auxiliary_point: GroupPoint,
    msg: &[u8],
) -> (r: Vec<u8>)
    ensures
        r@ == blake256(
            msg@ + flatten_bytes(encoded_ring_l@.map_values(|p: Vec<u8>| p@)) + flatten_bytes(
                encoded_ring_c@.map_values(|p: Vec<u8>| p@),
            ) + batch_repr(pseudo_out@) + batch_repr(key_image@) + batch_repr(auxiliary_point@),
        ),
        r@.len() == 32,
{
    let mut buf = vstd::slice::slice_to_vec(msg);
    let cat_l = crate::byteops::concat_byte_vecs(encoded_ring_l);
    append_bytes(&mut buf, cat_l.as_slice());
    let cat_c = crate::byteops::concat_byte_vecs(encoded_ring_c);
    append_bytes(&mut buf, cat_c.as_slice());
    let mut pts: Vec<GroupPoint> = Vec::new();
    pts.push(pseudo_out.0);
    pts.push(key_image);
    pts.push(auxiliary_point);
    let encoded = batch_encode_points(&pts);
    append_bytes(&mut buf, encoded[0].as_slice());
    append_bytes(&mut buf, encoded[1].as_slice());
    append_bytes(&mut buf, encoded[2].as_slice());
    proof {
        assert(buf@ =~= msg@ + flatten_bytes(encoded_ring_l@.map_values(|p: Vec<u8>| p@))
            + flatten_bytes(encoded_ring_c@.map_values(|p: Vec<u8>| p@)) + batch_repr(pseudo_out@)
            + batch_repr(key_image@) + batch_repr(auxiliary_point@));
    }
    h_bytes(buf.as_slice())
}


/// The wire form of a CLSAG signature: key image, starting challenge,
/// auxiliary point, then the response scalars.
pub open spec fn clsag_sig_bytes(sig: CLSAGSignature) -> Seq<u8> {
    crate::curve::point_repr(sig.spec_key_image()) + crate::curve::le_bytes(sig.spec_c0(), 32)
        + crate::curve::point_repr(sig.spec_aux()) + crate::tobytes::scalar_list_bytes(
        sig.spec_s(),
    )
}

impl CLSAGSignature {
    /// Serialize the signature into its wire form; the output is always
    /// accepted back by `from_bytes`.
    pub fn to_bytes(&self) -> (r: Result<Vec<u8>, crate::errors::SerializationError>)
        ensures
            r matches Ok(b) ==> b@ == clsag_sig_bytes(*self),
            r matches Ok(b) ==> b@.len() == 96 + 32 * self.spec_s().len() && (b@.len() - 96)
                % 32 == 0 && crate::tobytes::decodable_point(b@.subrange(0, 32))
                && crate::curve::le_val(b@.subrange(32, 64)) < group_order()
                && crate::tobytes::decodable_point(b@.subrange(64, 96))
                && crate::tobytes::scalar_chunks_canonical(
                b@,
                96,
                (b@.len() - 96) as int / 32,
            ),
            r is Ok,
    {
        let mut buf = self.key_image.encode();
        let c0 = self.c_0.to_bytes();
        append_bytes(&mut buf, c0.as_slice());
        let aux = self.auxiliary.encode();
        append_bytes(&mut buf, aux.as_slice());
        crate::tobytes::append_scalar_list(&mut buf, &self.s);
        proof {
            let sv = self.spec_s();
            let n = sv.len() as int;
            use_type_invariant(&self.key_image);
            use_type_invariant(&self.c_0);
            use_type_invariant(&self.auxiliary);
            let blocks = sv.map_values(|v: nat| crate::curve::le_bytes(v, 32));
            assert forall|q: int| 0 <= q < n implies (#[trigger] blocks[q]).len() == 32 by {
                crate::tobytes::lemma_le_bytes_val(sv[q], 32);
            }
            crate::byteops::lemma_flatten_uniform(blocks, 32);
            assert(buf@.len() == 96 + 32 * n);
            assert(buf@.subrange(0, 32) =~= crate::curve::point_repr(self.spec_key_image()));
            assert(buf@.subrange(32, 64) =~= crate::curve::le_bytes(self.spec_c0(), 32));
            assert(buf@.subrange(64, 96) =~= crate::curve::point_repr(self.spec_aux()));
            crate::tobytes::lemma_scalar_codec_round_trip(self.spec_c0());
            assert(buf@.subrange(96, 96 + 32 * n) =~= crate::tobytes::scalar_list_bytes(sv));
            crate::tobytes::lemma_scalar_list_canonical(buf@, 96, sv);
            vstd::arithmetic::div_mod::lemma_mod_multiples_vanish(n, 0, 32);
            vstd::arithmetic::div_mod::lemma_div_multiples_vanish(n, 32);
        }
        Ok(buf)
    }

    /// Deserialize a signature from its wire form; accepts exactly a
    /// well-shaped length with canonical point and scalar components, and a
    /// decoded signature serializes back to the given bytes.
    pub fn from_bytes(bytes: &[u8]) -> (r: Result<
        CLSAGSignature,
        crate::errors::SerializationError,
    >)
        ensures
            r is Ok <==> (bytes@.len() >= 96 && (bytes@.len() - 96) % 32 == 0
                && crate::tobytes::decodable_point(bytes@.subrange(0, 32))
                && crate::curve::le_val(bytes@.subrange(32, 64)) < group_order()
                && crate::tobytes::decodable_point(bytes@.subrange(64, 96))
                && crate::tobytes::scalar_chunks_canonical(
                bytes@,
                96,
                (bytes@.len() - 96) as int / 32,
            )),
            r matches Ok(sig) ==> clsag_sig_bytes(sig) == bytes@,
            r matches Err(e) ==> e is DecodingError,
    {
        if bytes.len() < 96 || (bytes.len() - 96) % 32 != 0 {
            return Err(crate::errors::SerializationError::DecodingError);
        }
        let count = (bytes.len() - 96) / 32;
        let key_image = match GroupPoint::decode(vstd::slice::slice_subrange(bytes, 0, 32)) {
            Some(p) => p,
            None => {
                return Err(crate::errors::SerializationError::DecodingError);
            },
        };
        let c_0 = match GroupScalar::from_canonical_bytes(
            vstd::slice::slice_subrange(bytes, 32, 64),
        ) {
            Some(s) => s,
            None => {
                return Err(crate::errors::SerializationError::DecodingError);
            },
        };
        let auxiliary = match GroupPoint::decode(vstd::slice::slice_subrange(bytes, 64, 96)) {
            Some(p) => p,
            None => {
                return Err(crate::errors::SerializationError::DecodingError);
            },
        };
        let s = match crate::tobytes::parse_scalar_list(bytes, 96, count) {
            Ok(s) => s,
            Err(e) => {
                return Err(e);
            },
        };
        let sig = CLSAGSignature { key_image, c_0, s, auxiliary };
        proof {
            crate::tobytes::lemma_le_val_bytes(bytes@.subrange(32, 64));
            assert(clsag_sig_bytes(sig) =~= bytes@);
            assert(crate::tobytes::decodable_point(bytes@.subrange(0, 32)));
            assert(crate::tobytes::decodable_point(bytes@.subrange(64, 96)));
        }
        Ok(sig)
    }
}

} // verus!\n