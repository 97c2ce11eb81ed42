//! Shared ring machinery: splitting rings into owner and commitment columns,
//! batched encodings, commitment shifting, key-image derivation, and the
//! canonical (sorted, duplicate-free) ring order.

use vstd::prelude::*;

use crate::byteops::{
    append_bytes, bytes_eq, bytes_less, bytes_lt, lemma_bytes_lt_trans, lemma_bytes_lt_trichotomy,
};
use crate::curve::{batch_encode_points, batch_repr, GroupPoint, GroupScalar};
use crate::domains::{signature_key_image, spec_signature_key_image};
use crate::hashes::{domain_h_point, h_point_spec};
use crate::modmath::{lemma_mod_small, order_int};
use crate::types::{Commitment, Enote, EnoteKeys, Ring};

verus! {

/// The canonical 64-byte key of an enote inside a ring: the batched encoding
/// of its owner followed by the batched encoding of its commitment.
pub open spec fn enote_key(e: Enote) -> Seq<u8> {
    batch_repr(e.owner@) + batch_repr(e.commitment@)
}

/// A ring is in canonical order when the enote keys are strictly increasing:
/// sorted lexicographically, with no duplicates.
pub open spec fn ring_sorted(ring: Seq<Enote>) -> bool {
    forall|i: int, j: int|
        0 <= i < j < ring.len() ==> bytes_lt(enote_key(ring[i]), enote_key(ring[j]))
}

/// Every enote of `sorted` is an enote of `orig`.
#[verifier::opaque]
pub open spec fn ring_members_of(sorted: Seq<Enote>, orig: Seq<Enote>) -> bool {
    forall|i: int|
        0 <= i < sorted.len() ==> exists|j: int|
            0 <= j < orig.len() && #[trigger] sorted[i] == #[trigger] orig[j]
}

/// The key of each of the first `n` enotes of `orig` is represented in
/// `sorted`.
#[verifier::opaque]
pub open spec fn ring_keys_covered_upto(sorted: Seq<Enote>, orig: Seq<Enote>, n: int) -> bool {
    forall|j: int|
        0 <= j < n ==> exists|i: int|
            0 <= i < sorted.len() && enote_key(#[trigger] sorted[i]) == enote_key(
                #[trigger] orig[j],
            )
}

/// The key of every enote of `orig` is represented in `sorted`: no enote is
/// dropped by canonical sorting beyond duplicates of an equal key.
pub open spec fn ring_keys_covered(sorted: Seq<Enote>, orig: Seq<Enote>) -> bool {
    ring_keys_covered_upto(sorted, orig, orig.len() as int)
}

/// The slot reached after `t` steps around a ring of `n` slots, starting
/// from slot `j`: the sum of the two, wrapped once past the end.
pub open spec fn slot_at(j: int, t: int, n: int) -> int {
    if j + t < n {
        j + t
    } else {
        j + t - n
    }
}

/// The number of steps a walk that leaves slot `j` takes before it enters
/// slot `k`, on a ring of `n` slots: the inverse of `slot_at` shifted by the
/// initial step out of `j`.
pub open spec fn steps_into(j: int, k: int, n: int) -> int {
    if k > j {
        k - j - 1
    } else {
        k + n - j - 1
    }
}

/// The key image of the private key `k`: `k` times the hash-to-point of the
/// batched encoding of its public key, under the `key_img` domain tag.
pub open spec fn key_image_spec(k: nat) -> int {
    ((k * h_point_spec(batch_repr(k) + spec_signature_key_image())) as int) % order_int()
}

/// The concatenated batched encodings of the owner column of a ring.
pub open spec fn ring_l_bytes(ring: Seq<Enote>) -> Seq<u8> {
    crate::byteops::flatten_bytes(ring.map_values(|e: Enote| batch_repr(e.owner@)))
}

/// The concatenated batched encodings of the commitment column of a ring.
pub open spec fn ring_c_bytes(ring: Seq<Enote>) -> Seq<u8> {
    crate::byteops::flatten_bytes(ring.map_values(|e: Enote| batch_repr(e.commitment@)))
}

/// Whether the enote of `keys` appears in the ring.
pub open spec fn in_ring(ring: Seq<Enote>, keys: EnoteKeys) -> bool {
    exists|j: int|
        0 <= j < ring.len() && (#[trigger] ring[j]).owner@ == keys.owner@
            && ring[j].commitment@ == crate::pedersen::commit_spec(
            keys.value as nat,
            keys.blinding@,
        )
}

/// Hash to point, specific for key images.
pub(crate) fn h_key_image_point(msg: &[u8]) -> (r: GroupPoint)
    ensures
        r@ == h_point_spec(msg@ + spec_signature_key_image()),
{
    let tag = signature_key_image();
    domain_h_point(msg, tag.as_slice())
}

/// Return the key-image points for a vector of encoded public keys.
pub(crate) fn get_key_image_points(encoded_pubs: &Vec<Vec<u8>>) -> (r: Vec<GroupPoint>)
    ensures
        r@.len() == encoded_pubs@.len(),
        forall|i: int|
            0 <= i < r@.len() ==> r@[i]@ == h_point_spec(
                encoded_pubs@[i]@ + spec_signature_key_image(),
            ),
{
    let mut out: Vec<GroupPoint> = Vec::new();
    let mut i: usize = 0;
    while i < encoded_pubs.len()
        invariant
            i <= encoded_pubs@.len(),
            out@.len() == i,
            forall|j: int|
                0 <= j < i ==> out@[j]@ == h_point_spec(
                    encoded_pubs@[j]@ + spec_signature_key_image(),
                ),
        decreases encoded_pubs@.len() - i,
    {
        out.push(h_key_image_point(encoded_pubs[i].as_slice()));
        i = i + 1;
    }
    out
}

/// Separate a ring of enotes into parallel vectors of owners and commitments.
pub(crate) fn separate_ring(ring: &Ring) -> (r: (Vec<GroupPoint>, Vec<GroupPoint>))
    ensures
        r.0@.len() == ring.0@.len(),
        r.1@.len() == ring.0@.len(),
        forall|i: int| 0 <= i < ring.0@.len() ==> r.0@[i]@ == ring.0@[i].owner@,
        forall|i: int| 0 <= i < ring.0@.len() ==> r.1@[i]@ == ring.0@[i].commitment@,
{
    let mut ring_l: Vec<GroupPoint> = Vec::new();
    let mut ring_c: Vec<GroupPoint> = Vec::new();
    let mut i: usize = 0;
    while i < ring.0.len()
        invariant
            i <= ring.0@.len(),
            ring_l@.len() == i,
            ring_c@.len() == i,
            forall|j: int| 0 <= j < i ==> ring_l@[j]@ == ring.0@[j].owner@,
            forall|j: int| 0 <= j < i ==> ring_c@[j]@ == ring.0@[j].commitment@,
        decreases ring.0@.len() - i,
    {
        let e = ring.0[i];
        ring_l.push(e.owner);
        ring_c.push(e.commitment.to_point());
        i = i + 1;
    }
    (ring_l, ring_c)
}

/// Batch encode the two columns of a ring with a single batched compression
/// over their concatenation.
pub(crate) fn encode_rings(ring_l: Vec<GroupPoint>, ring_c: Vec<GroupPoint>) -> (r: (
    Vec<Vec<u8>>,
    Vec<Vec<u8>>,
))
    requires
        ring_l@.len() == ring_c@.len(),
    ensures
        r.0@.len() == ring_l@.len(),
        r.1@.len() == ring_c@.len(),
        forall|i: int|
            0 <= i < ring_l@.len() ==> r.0@[i]@ == batch_repr(ring_l@[i]@) && r.0@[i]@.len()
                == 32,
        forall|i: int|
            0 <= i < ring_c@.len() ==> r.1@[i]@ == batch_repr(ring_c@[i]@) && r.1@[i]@.len()
                == 32,
{
    let ghost lv = ring_l@;
    let ghost cv = ring_c@;
    let n = ring_l.len();
    let mut all: Vec<GroupPoint> = ring_l;
    let mut i: usize = 0;
    while i < ring_c.len()
        invariant
            i <= cv.len(),
            ring_c@ == cv,
            all@ == lv + cv.take(i as int),
        decreases cv.len() - i,
    {
        all.push(ring_c[i]);
        proof {
            assert(lv + cv.take(i + 1) =~= (lv + cv.take(i as int)).push(cv[i as int]));
        }
        i = i + 1;
    }
    proof {
        assert(cv.take(cv.len() as int) =~= cv);
        assert(all@ =~= lv + cv);
    }
    let encoded = batch_encode_points(&all);
    let total = encoded.len();
    let mut enc_l: Vec<Vec<u8>> = Vec::new();
    let mut j: usize = 0;
    while j < n
        invariant
            j <= n,
            n == lv.len(),
            total == encoded@.len(),
            encoded@.len() == lv.len() + cv.len(),
            forall|k: int|
                0 <= k < encoded@.len() ==> encoded@[k]@ == batch_repr((lv + cv)[k]@)
                    && encoded@[k]@.len() == 32,
            enc_l@.len() == j,
            forall|k: int|
                0 <= k < j ==> enc_l@[k]@ == batch_repr(lv[k]@) && enc_l@[k]@.len() == 32,
        decreases n - j,
    {
        enc_l.push(vstd::slice::slice_to_vec(encoded[j].as_slice()));
        j = j + 1;
    }
    let mut enc_c: Vec<Vec<u8>> = Vec::new();
    let mut j: usize = 0;
    while j < ring_c.len()
        invariant
            j <= cv.len(),
            ring_c@ == cv,
            n == lv.len(),
            total == encoded@.len(),
            encoded@.len() == lv.len() + cv.len(),
            forall|k: int|
                0 <= k < encoded@.len() ==> encoded@[k]@ == batch_repr((lv + cv)[k]@)
                    && encoded@[k]@.len() == 32,
            enc_c@.len() == j,
            forall|k: int|
                0 <= k < j ==> enc_c@[k]@ == batch_repr(cv[k]@) && enc_c@[k]@.len() == 32,
        decreases cv.len() - j,
    {
        enc_c.push(vstd::slice::slice_to_vec(encoded[n + j].as_slice()));
        j = j + 1;
    }
    (enc_l, enc_c)
}

/// Subtract the pseudo-output from each commitment (also called "shifting").
pub(crate) fn shift_commitments(
    unshifted_ring_c: &Vec<GroupPoint>,
    pseudo_out: Commitment,
) -> (r: Vec<GroupPoint>)
    ensures
        r@.len() == unshifted_ring_c@.len(),
        forall|i: int|
            0 <= i < r@.len() ==> r@[i]@ == crate::curve::ssub(
                unshifted_ring_c@[i]@,
                pseudo_out@,
            ),
{
    let mut out: Vec<GroupPoint> = Vec::new();
    let mut i: usize = 0;
    while i < unshifted_ring_c.len()
        invariant
            i <= unshifted_ring_c@.len(),
            out@.len() == i,
            forall|j: int|
                0 <= j < i ==> out@[j]@ == crate::curve::ssub(
                    unshifted_ring_c@[j]@,
                    pseudo_out@,
                ),
        decreases unshifted_ring_c@.len() - i,
    {
        out.push(unshifted_ring_c[i].sub(pseudo_out.0));
        i = i + 1;
    }
    out
}

/// Given a private key, return its key image.
pub(crate) fn get_key_image(private_key: GroupScalar) -> (r: GroupPoint)
    ensures
        r@ == key_image_spec(private_key@),
{
    proof {
        use_type_invariant(&private_key);
        lemma_mod_small(private_key@ as int);
    }
    let public_key = GroupPoint::basepoint().mul(private_key);
    let mut singleton: Vec<GroupPoint> = Vec::new();
    singleton.push(public_key);
    let encoded = batch_encode_points(&singleton);
    let h = h_key_image_point(encoded[0].as_slice());
    let r = h.mul(private_key);
    proof {
        assert(h@ * private_key@ == private_key@ * h@) by (nonlinear_arith);
    }
    r
}

/// Strict order on a chain of keys extends across a span.
proof fn lemma_lt_span(keys: Seq<Seq<u8>>, i: int, j: int)
    requires
        0 <= i < j < keys.len(),
        forall|k: int| 0 <= k < keys.len() ==> (#[trigger] keys[k]).len() == 64,
        forall|k: int| 0 < k < keys.len() ==> bytes_lt(keys[k - 1], #[trigger] keys[k]),
    ensures
        bytes_lt(keys[i], keys[j]),
    decreases j - i,
{
    if j == i + 1 {
    } else {
        lemma_lt_span(keys, i, j - 1);
        lemma_bytes_lt_trans(keys[i], keys[j - 1], keys[j]);
    }
}

/// Check whether a ring (presented with its encoded columns) is sorted and
/// has no duplicates.
pub(crate) fn ring_is_sorted(
    ring: &Ring,
    encoded_ring_l: &Vec<Vec<u8>>,
    encoded_ring_c: &Vec<Vec<u8>>,
) -> (r: bool)
    requires
        encoded_ring_l@.len() == ring.0@.len(),
        encoded_ring_c@.len() == ring.0@.len(),
        forall|i: int|
            0 <= i < ring.0@.len() ==> encoded_ring_l@[i]@ == batch_repr(ring.0@[i].owner@)
                && encoded_ring_l@[i]@.len() == 32,
        forall|i: int|
            0 <= i < ring.0@.len() ==> encoded_ring_c@[i]@ == batch_repr(ring.0@[i].commitment@)
                && encoded_ring_c@[i]@.len() == 32,
    ensures
        r == ring_sorted(ring.0@),
{
    let keys = build_keys(ring, encoded_ring_l, encoded_ring_c);
    let ghost kv = keys@.map_values(|k: Vec<u8>| k@);
    proof {
        assert(forall|j: int| 0 <= j < kv.len() ==> #[trigger] kv[j] == keys@[j]@);
    }
    if keys.len() == 0 {
        return true;
    }
    let mut i: usize = 1;
    let mut sorted = true;
    while i < keys.len()
        invariant
            1 <= i <= keys@.len(),
            keys@.len() == ring.0@.len(),
            kv == keys@.map_values(|k: Vec<u8>| k@),
            forall|j: int| 0 <= j < kv.len() ==> #[trigger] kv[j] == keys@[j]@,
            forall|j: int| 0 <= j < keys@.len() ==> (#[trigger] kv[j]).len() == 64,
            forall|j: int| 0 <= j < keys@.len() ==> kv[j] == enote_key(ring.0@[j]),
            sorted == (forall|j: int| 0 < j < i ==> bytes_lt(kv[j - 1], #[trigger] kv[j])),
        decreases keys@.len() - i,
    {
        let lt = bytes_less(keys[i - 1].as_slice(), keys[i].as_slice());
        proof {
            if sorted && lt {
                assert forall|j: int| 0 < j < i + 1 implies bytes_lt(
                    kv[j - 1],
                    #[trigger] kv[j],
                ) by {
                    if j == i {
                        assert(bytes_lt(kv[j - 1], kv[j]));
                    }
                }
            } else if sorted {
                assert(!bytes_lt(kv[i - 1], kv[i as int]));
            } else {
                let j0 = choose|j0: int| 0 < j0 < i && !bytes_lt(kv[j0 - 1], #[trigger] kv[j0]);
                assert(0 < j0 < i + 1 && !bytes_lt(kv[j0 - 1], kv[j0]));
            }
        }
        sorted = sorted && lt;
        i = i + 1;
    }
    proof {
        if sorted {
            assert forall|a: int, b: int|
                0 <= a < b < ring.0@.len() implies bytes_lt(
                enote_key(ring.0@[a]),
                enote_key(ring.0@[b]),
            ) by {
                lemma_lt_span(kv, a, b);
            }
        } else {
            let j = choose|j: int| 0 < j < ring.0@.len() && !bytes_lt(kv[j - 1], #[trigger] kv[j]);
            assert(!bytes_lt(enote_key(ring.0@[j - 1]), enote_key(ring.0@[j])));
        }
    }
    sorted
}

/// Build the 64-byte canonical key of each ring slot.
fn build_keys(
    ring: &Ring,
    encoded_ring_l: &Vec<Vec<u8>>,
    encoded_ring_c: &Vec<Vec<u8>>,
) -> (r: Vec<Vec<u8>>)
    requires
        encoded_ring_l@.len() == ring.0@.len(),
        encoded_ring_c@.len() == ring.0@.len(),
        forall|i: int|
            0 <= i < ring.0@.len() ==> encoded_ring_l@[i]@ == batch_repr(ring.0@[i].owner@)
                && encoded_ring_l@[i]@.len() == 32,
        forall|i: int|
            0 <= i < ring.0@.len() ==> encoded_ring_c@[i]@ == batch_repr(ring.0@[i].commitment@)
                && encoded_ring_c@[i]@.len() == 32,
    ensures
        r@.len() == ring.0@.len(),
        forall|i: int|
            0 <= i < r@.len() ==> r@[i]@ == enote_key(ring.0@[i]) && r@[i]@.len() == 64,
{
    let mut keys: Vec<Vec<u8>> = Vec::new();
    let mut i: usize = 0;
    while i < encoded_ring_l.len()
        invariant
            i <= ring.0@.len(),
            encoded_ring_l@.len() == ring.0@.len(),
            encoded_ring_c@.len() == ring.0@.len(),
            forall|j: int|
                0 <= j < ring.0@.len() ==> encoded_ring_l@[j]@ == batch_repr(ring.0@[j].owner@)
                    && encoded_ring_l@[j]@.len() == 32,
            forall|j: int|
                0 <= j < ring.0@.len() ==> encoded_ring_c@[j]@ == batch_repr(
                    ring.0@[j].commitment@,
                ) && encoded_ring_c@[j]@.len() == 32,
            keys@.len() == i,
            forall|j: int|
                0 <= j < i ==> keys@[j]@ == enote_key(ring.0@[j]) && keys@[j]@.len() == 64,
        decreases encoded_ring_l@.len() - i,
    {
        let mut key = vstd::slice::slice_to_vec(encoded_ring_l[i].as_slice());
        append_bytes(&mut key, encoded_ring_c[i].as_slice());
        keys.push(key);
        i = i + 1;
    }
    keys
}

/// Inserting `key` at position `p` keeps a strictly sorted key list
/// strictly sorted, provided everything before `p` is below `key` and the
/// element at `p` (if any) is above it.
proof fn lemma_keys_insert_sorted(ks: Seq<Vec<u8>>, key: Vec<u8>, p: int)
    requires
        0 <= p <= ks.len(),
        key@.len() == 64,
        forall|a: int| 0 <= a < ks.len() ==> (#[trigger] ks[a]@).len() == 64,
        forall|a: int, b: int|
            0 <= a < b < ks.len() ==> bytes_lt((#[trigger] ks[a])@, (#[trigger] ks[b])@),
        forall|q: int| 0 <= q < p ==> bytes_lt((#[trigger] ks[q])@, key@),
        p < ks.len() ==> bytes_lt(key@, ks[p]@),
    ensures
        forall|a: int, b: int|
            0 <= a < b < ks.insert(p, key).len() ==> bytes_lt(
                (#[trigger] ks.insert(p, key)[a])@,
                (#[trigger] ks.insert(p, key)[b])@,
            ),
{
    let ns = ks.insert(p, key);
    assert(forall|a: int| 0 <= a < p ==> #[trigger] ns[a] == ks[a]);
    assert(forall|a: int| p < a < ns.len() ==> #[trigger] ns[a] == ks[a - 1]);
    assert(ns[p] == key);
    assert forall|a: int, b: int|
        0 <= a < b < ns.len() implies bytes_lt((#[trigger] ns[a])@, (#[trigger] ns[b])@) by {
        if b < p {
        } else if b == p {
            assert(bytes_lt(ks[a]@, key@));
        } else if a == p {
            if b == p + 1 {
                assert(bytes_lt(key@, ks[p]@));
            } else {
                lemma_bytes_lt_trans(key@, ks[p]@, ks[b - 1]@);
            }
        } else if a < p {
            assert(bytes_lt(ks[a]@, ks[b - 1]@));
        } else {
            assert(bytes_lt(ks[a - 1]@, ks[b - 1]@));
        }
    }
}

/// Insert one enote (with its precomputed key) into a key-sorted,
/// duplicate-free ring under construction, keeping it sorted and
/// duplicate-free.  The ring is either unchanged — then the enote's key was
/// already present — or grows by exactly this enote at some position.
#[verifier::rlimit(50)]
#[verifier::spinoff_prover]
fn insert_unique(result: &mut Vec<Enote>, rkeys: &mut Vec<Vec<u8>>, e: Enote, key: Vec<u8>)
    requires
        old(result)@.len() == old(rkeys)@.len(),
        key@ == enote_key(e),
        key@.len() == 64,
        forall|a: int| 0 <= a < old(rkeys)@.len() ==> (#[trigger] old(rkeys)@[a]@).len() == 64,
        forall|a: int|
            0 <= a < old(result)@.len() ==> old(rkeys)@[a]@ == enote_key(
                #[trigger] old(result)@[a],
            ),
        forall|a: int, b: int|
            0 <= a < b < old(rkeys)@.len() ==> bytes_lt(
                (#[trigger] old(rkeys)@[a])@,
                (#[trigger] old(rkeys)@[b])@,
            ),
    ensures
        final(result)@.len() == final(rkeys)@.len(),
        forall|a: int| 0 <= a < final(rkeys)@.len() ==> (#[trigger] final(rkeys)@[a]@).len() == 64,
        forall|a: int|
            0 <= a < final(result)@.len() ==> final(rkeys)@[a]@ == enote_key(
                #[trigger] final(result)@[a],
            ),
        forall|a: int, b: int|
            0 <= a < b < final(rkeys)@.len() ==> bytes_lt(
                (#[trigger] final(rkeys)@[a])@,
                (#[trigger] final(rkeys)@[b])@,
            ),
        final(result)@ == old(result)@ || (exists|p: int|
            0 <= p <= old(result)@.len() && final(result)@ == old(result)@.insert(p, e)),
        final(result)@ == old(result)@ ==> exists|a: int|
            0 <= a < old(result)@.len() && enote_key(#[trigger] old(result)@[a]) == enote_key(e),
        exists|a: int|
            0 <= a < final(result)@.len() && enote_key(#[trigger] final(result)@[a])
                == enote_key(e),
{
    let ghost prekeys = rkeys@;
    let ghost kvv = key;
    let mut p: usize = 0;
    while p < rkeys.len() && bytes_less(rkeys[p].as_slice(), key.as_slice())
        invariant
            p <= rkeys@.len(),
            rkeys@ == prekeys,
            key@.len() == 64,
            kvv == key,
            forall|q: int| 0 <= q < p ==> bytes_lt((#[trigger] rkeys@[q])@, key@),
        decreases rkeys@.len() - p,
    {
        p = p + 1;
    }
    let duplicate = p < rkeys.len() && bytes_eq(rkeys[p].as_slice(), key.as_slice());
    if !duplicate {
        proof {
            if p < prekeys.len() {
                lemma_bytes_lt_trichotomy(prekeys[p as int]@, kvv@);
            }
            lemma_keys_insert_sorted(prekeys, kvv, p as int);
        }
        result.insert(p, e);
        rkeys.insert(p, key);
        proof {
            assert(rkeys@ == prekeys.insert(p as int, kvv));
            assert forall|a: int|
                0 <= a < result@.len() implies rkeys@[a]@ == enote_key(
                #[trigger] result@[a],
            ) by {
                if a < p {
                } else if a > p {
                    assert(result@[a] == old(result)@[a - 1]);
                    assert(rkeys@[a] == prekeys[a - 1]);
                }
            }
            assert(result@[p as int] == e);
            assert(enote_key(result@[p as int]) == enote_key(e));
        }
    } else {
        proof {
            assert(enote_key(result@[p as int]) == enote_key(e));
        }
    }
}

/// One round of canonical insertion keeps both membership directions:
/// everything in the grown ring comes from the input ring, and every input
/// slot seen so far has its key represented.
proof fn lemma_sorted_step(ringv: Seq<Enote>, pre: Seq<Enote>, post: Seq<Enote>, i: int)
    requires
        0 <= i < ringv.len(),
        post == pre || (exists|p: int| 0 <= p <= pre.len() && post == pre.insert(p, ringv[i])),
        exists|a: int|
            0 <= a < post.len() && enote_key(#[trigger] post[a]) == enote_key(ringv[i]),
        ring_members_of(pre, ringv),
        ring_keys_covered_upto(pre, ringv, i),
    ensures
        ring_members_of(post, ringv),
        ring_keys_covered_upto(post, ringv, i + 1),
{
    reveal(ring_members_of);
    reveal(ring_keys_covered_upto);
    if post != pre {
        let p0 = choose|p0: int| 0 <= p0 <= pre.len() && post == pre.insert(p0, ringv[i]);
        assert(forall|a: int| 0 <= a < p0 ==> #[trigger] post[a] == pre[a]);
        assert(forall|a: int| p0 < a < post.len() ==> #[trigger] post[a] == pre[a - 1]);
        assert(post[p0] == ringv[i]);
    }
    assert forall|a: int|
        0 <= a < post.len() implies exists|j: int|
            0 <= j < ringv.len() && #[trigger] post[a] == #[trigger] ringv[j] by {
        if post == pre {
            assert(exists|j: int|
                0 <= j < ringv.len() && #[trigger] pre[a] == #[trigger] ringv[j]);
        } else {
            let p0 = choose|p0: int| 0 <= p0 <= pre.len() && post == pre.insert(p0, ringv[i]);
            if a == p0 {
                assert(post[a] == ringv[i]);
            } else if a < p0 {
                assert(post[a] == pre[a]);
                let j0 = choose|j0: int|
                    0 <= j0 < ringv.len() && #[trigger] pre[a] == #[trigger] ringv[j0];
                assert(post[a] == ringv[j0]);
            } else {
                assert(post[a] == pre[a - 1]);
                let j0 = choose|j0: int|
                    0 <= j0 < ringv.len() && #[trigger] pre[a - 1] == #[trigger] ringv[j0];
                assert(post[a] == ringv[j0]);
            }
        }
    }
    assert forall|j: int|
        0 <= j < i + 1 implies exists|a: int|
            0 <= a < post.len() && enote_key(#[trigger] post[a]) == enote_key(
            #[trigger] ringv[j],
        ) by {
        if j == i {
            let a0 = choose|a0: int|
                0 <= a0 < post.len() && enote_key(#[trigger] post[a0]) == enote_key(ringv[i]);
            assert(enote_key(post[a0]) == enote_key(ringv[j]));
        } else {
            let b0 = choose|b0: int|
                0 <= b0 < pre.len() && enote_key(#[trigger] pre[b0]) == enote_key(ringv[j]);
            if post == pre {
                assert(enote_key(post[b0]) == enote_key(ringv[j]));
            } else {
                let p0 = choose|p0: int|
                    0 <= p0 <= pre.len() && post == pre.insert(p0, ringv[i]);
                if b0 < p0 {
                    assert(post[b0] == pre[b0]);
                    assert(enote_key(post[b0]) == enote_key(ringv[j]));
                } else {
                    assert(post[b0 + 1] == pre[b0]);
                    assert(enote_key(post[b0 + 1]) == enote_key(ringv[j]));
                }
            }
        }
    }
}

/// Return a new ring which is sorted by enote key and has no duplicate
/// keys: every enote of the result comes from the input ring, and every
/// key of the input ring is still represented in the result.
#[verifier::rlimit(50)]
#[verifier::spinoff_prover]
pub(crate) fn ring_as_sorted(
    ring: &Ring,
    encoded_ring_l: &Vec<Vec<u8>>,
    encoded_ring_c: &Vec<Vec<u8>>,
) -> (r: Ring)
    requires
        encoded_ring_l@.len() == ring.0@.len(),
        encoded_ring_c@.len() == ring.0@.len(),
        forall|i: int|
            0 <= i < ring.0@.len() ==> encoded_ring_l@[i]@ == batch_repr(ring.0@[i].owner@)
                && encoded_ring_l@[i]@.len() == 32,
        forall|i: int|
            0 <= i < ring.0@.len() ==> encoded_ring_c@[i]@ == batch_repr(ring.0@[i].commitment@)
                && encoded_ring_c@[i]@.len() == 32,
    ensures
        ring_sorted(r.0@),
        ring_members_of(r.0@, ring.0@),
        ring_keys_covered(r.0@, ring.0@),
{
    let keys = build_keys(ring, encoded_ring_l, encoded_ring_c);
    let mut result: Vec<Enote> = Vec::new();
    let mut rkeys: Vec<Vec<u8>> = Vec::new();
    proof {
        reveal(ring_members_of);
        reveal(ring_keys_covered_upto);
        assert(ring_members_of(result@, ring.0@));
        assert(ring_keys_covered_upto(result@, ring.0@, 0));
    }
    let mut i: usize = 0;
    while i < keys.len()
        invariant
            i <= keys@.len(),
            keys@.len() == ring.0@.len(),
            forall|j: int|
                0 <= j < keys@.len() ==> keys@[j]@ == enote_key(ring.0@[j]) && keys@[j]@.len()
                    == 64,
            result@.len() == rkeys@.len(),
            forall|a: int| 0 <= a < rkeys@.len() ==> (#[trigger] rkeys@[a]@).len() == 64,
            forall|a: int|
                0 <= a < result@.len() ==> rkeys@[a]@ == enote_key(#[trigger] result@[a]),
            forall|a: int, b: int|
                0 <= a < b < rkeys@.len() ==> bytes_lt(
                    (#[trigger] rkeys@[a])@,
                    (#[trigger] rkeys@[b])@,
                ),
            ring_members_of(result@, ring.0@),
            ring_keys_covered_upto(result@, ring.0@, i as int),
        decreases keys@.len() - i,
    {
        let e = ring.0[i];
        let key = vstd::slice::slice_to_vec(keys[i].as_slice());
        let ghost pre = result@;
        insert_unique(&mut result, &mut rkeys, e, key);
        proof {
            lemma_sorted_step(ring.0@, pre, result@, i as int);
        }
        i = i + 1;
    }
    let sorted_ring = Ring(result);
    proof {
        assert(sorted_ring.0@ == result@);
        assert forall|a: int, b: int|
            0 <= a < b < sorted_ring.0@.len() implies bytes_lt(
            enote_key(sorted_ring.0@[a]),
            enote_key(sorted_ring.0@[b]),
        ) by {
            assert(bytes_lt(rkeys@[a]@, rkeys@[b]@));
        }
        assert(ring_members_of(sorted_ring.0@, ring.0@));
        assert(ring_keys_covered(sorted_ring.0@, ring.0@));
    }
    sorted_ring
}

} // verus!
