//! Library-wide laws, stated and proved over the same spec functions the
//! public contracts use.

use vstd::prelude::*;

use crate::curve::reduce;
use crate::modmath::{lemma_add_mod_left, lemma_add_mod_right, order_int};
use crate::pedersen::{commit_spec, pedersen_h};
use crate::signature::clsag::CLSAGSignature;
use crate::signature::mlsag::MLSAGSignature;
use crate::signature::signature_utils::key_image_spec;
use crate::types::{sum_coms, Commitment};

verus! {

/// Sum of a sequence of blinding residues.
pub open spec fn sum_nats(s: Seq<nat>) -> nat
    decreases s.len(),
{
    if s.len() == 0 {
        0
    } else {
        (sum_nats(s.drop_last()) + s.last()) as nat
    }
}

/// Sum of a sequence of 64-bit values.
pub open spec fn sum_values(s: Seq<u64>) -> nat
    decreases s.len(),
{
    if s.len() == 0 {
        0
    } else {
        (sum_values(s.drop_last()) + s.last()) as nat
    }
}

/// A sum of Pedersen commitments opens to the sums of its values and
/// blindings: modulo the group order it equals
/// `sum(blindings) + sum(values) * H`.
pub proof fn lemma_sum_of_commitments(cs: Seq<Commitment>, vs: Seq<u64>, bs: Seq<nat>)
    requires
        cs.len() == vs.len(),
        cs.len() == bs.len(),
        forall|i: int|
            0 <= i < cs.len() ==> (#[trigger] cs[i])@ == commit_spec(vs[i] as nat, bs[i]),
    ensures
        sum_coms(cs) as int % order_int() == (sum_nats(bs) + sum_values(vs) * pedersen_h()) as int
            % order_int(),
    decreases cs.len(),
{
    if cs.len() == 0 {
        assert(sum_coms(cs) == 0 && sum_nats(bs) == 0 && sum_values(vs) == 0);
        assert(sum_values(vs) * pedersen_h() == 0) by (nonlinear_arith)
            requires
                sum_values(vs) == 0,
        ;
    } else {
        let pre = cs.drop_last();
        let vpre = vs.drop_last();
        let bpre = bs.drop_last();
        lemma_sum_of_commitments(pre, vpre, bpre);
        let v = vs.last() as nat;
        let b = bs.last();
        let h = pedersen_h();
        let bp = sum_nats(bpre) as int;
        let vp = sum_values(vpre) as int;
        let s0 = sum_coms(pre) as int;
        let x = (b + v * h) as int;
        assert(cs.last()@ == reduce(x));
        assert(sum_coms(cs) as int == s0 + reduce(x));
        // Fold the reduced last commitment into the running sum.
        lemma_add_mod_right(s0, x);
        assert((s0 + reduce(x)) % order_int() == (s0 + x) % order_int());
        lemma_add_mod_left(s0, x);
        assert((s0 + x) % order_int() == ((s0 % order_int()) + x) % order_int());
        assert(s0 % order_int() == (bp + vp * h) % order_int());
        lemma_add_mod_left(bp + vp * h, x);
        assert(((bp + vp * h) % order_int() + x) % order_int() == (bp + vp * h + x)
            % order_int());
        assert((vp + v) * h == vp * h + v * h) by (nonlinear_arith);
        assert(sum_nats(bs) as int == bp + b);
        assert(sum_values(vs) as int == vp + v);
        assert((sum_nats(bs) + sum_values(vs) * h) as int == bp + vp * h + x) by (
        nonlinear_arith)
            requires
                sum_nats(bs) as int == bp + b,
                sum_values(vs) as int == vp + v,
                x == (b + v * h) as int,
                h >= 0,
                b >= 0,
                v >= 0,
                bp >= 0,
                vp >= 0,
        ;
        assert(sum_coms(cs) as int % order_int() == (sum_nats(bs) + sum_values(vs) * h) as int
            % order_int());
    }
}

/// Commitment homomorphism (completeness direction): when the input values
/// sum to the output values plus the extra amount, and the blinding sums
/// agree modulo the group order, the balance equation that `is_balanced`
/// tests holds.
pub proof fn lemma_commitment_homomorphism(
    ins: Seq<Commitment>,
    outs: Seq<Commitment>,
    vs_in: Seq<u64>,
    bs_in: Seq<nat>,
    vs_out: Seq<u64>,
    bs_out: Seq<nat>,
    extra: u64,
)
    requires
        ins.len() == vs_in.len(),
        ins.len() == bs_in.len(),
        outs.len() == vs_out.len(),
        outs.len() == bs_out.len(),
        forall|i: int|
            0 <= i < ins.len() ==> (#[trigger] ins[i])@ == commit_spec(vs_in[i] as nat, bs_in[i]),
        forall|i: int|
            0 <= i < outs.len() ==> (#[trigger] outs[i])@ == commit_spec(
                vs_out[i] as nat,
                bs_out[i],
            ),
        sum_values(vs_in) == sum_values(vs_out) + extra,
        sum_nats(bs_in) as int % order_int() == sum_nats(bs_out) as int % order_int(),
    ensures
        reduce(sum_coms(ins) as int) == reduce((sum_coms(outs) + extra * pedersen_h()) as int),
{
    let h = pedersen_h();
    let b_in = sum_nats(bs_in) as int;
    let b_out = sum_nats(bs_out) as int;
    let v_in = sum_values(vs_in) as int;
    let v_out = sum_values(vs_out) as int;
    lemma_sum_of_commitments(ins, vs_in, bs_in);
    lemma_sum_of_commitments(outs, vs_out, bs_out);
    // Fold the extra amount into the output side.
    lemma_add_mod_left(sum_coms(outs) as int, (extra * h) as int);
    lemma_add_mod_left((b_out + v_out * h) as int, (extra * h) as int);
    assert(v_in * h == v_out * h + extra * h) by (nonlinear_arith)
        requires
            v_in == v_out + extra,
    ;
    // Exchange the blinding sums, equal modulo the order.
    lemma_add_mod_left(b_in, (v_out * h + extra * h) as int);
    lemma_add_mod_left(b_out, (v_out * h + extra * h) as int);
}

/// Key-image stability: the key image a signature carries is a function of
/// the owner key alone, so any two CLSAG signatures by the same owner key
/// carry the same key image, whatever their rings, blindings and messages.
pub proof fn lemma_clsag_key_image_stability(
    sig1: CLSAGSignature,
    sig2: CLSAGSignature,
    owner: nat,
)
    requires
        sig1.spec_key_image() == key_image_spec(owner),
        sig2.spec_key_image() == key_image_spec(owner),
    ensures
        sig1.spec_key_image() == sig2.spec_key_image(),
{
}

/// Key-image stability across the two signature schemes: a CLSAG and an
/// MLSAG signature by the same owner key carry the same key image.
pub proof fn lemma_mlsag_key_image_stability(
    sig1: MLSAGSignature,
    sig2: CLSAGSignature,
    owner: nat,
)
    requires
        sig1.spec_key_image() == key_image_spec(owner),
        sig2.spec_key_image() == key_image_spec(owner),
    ensures
        sig1.spec_key_image() == sig2.spec_key_image(),
{
}

} // verus!
