//! Borromean ring-signature-based range proofs.
//!
//! The value is decomposed into 32 base-4 digits; each digit position gets a
//! commitment and a 4-member ring of candidate commitments, and a single
//! Borromean aggregate signature ties all 32 rings to one shared challenge
//! seed `e_0`.  These proofs are essentially obsolete; Bulletproofs+ are
//! smaller, faster, and scale better.

use vstd::prelude::*;

use crate::byteops::{append_bytes, flatten_bytes};
use crate::curve::{
    batch_encode_points, batch_repr, encode_point, group_order, point_repr, sadd, smul, sneg,
    ssub, GroupPoint, GroupScalar,
};
use crate::errors::RangeProofError;
use crate::hashes::{blake256, h_bytes, h_scalar, h_scalar_spec};
use crate::modmath::lemma_mod_small;
use vstd::arithmetic::div_mod::lemma_mod_breakdown;
use crate::pedersen::{pedersen_h, pedersen_h_point};
use crate::rangeproof::MAX_VALUE;
use crate::types::Commitment;

verus! {

/// Number of base-4 digits in a proof: half the bit range.
pub const NUMBER_OF_PROOF_DIGITS: usize = 32;

/// 4 raised to the power `n`.
pub open spec fn pow4(n: nat) -> nat
    decreases n,
{
    if n == 0 {
        1
    } else {
        4 * pow4((n - 1) as nat)
    }
}

/// Every digit multiplier fits in a `u64`.
proof fn lemma_pow4_bound(n: nat)
    requires
        n <= 31,
    ensures
        pow4(n) <= 0x4000000000000000,
    decreases n,
{
    if n == 0 {
    } else {
        lemma_pow4_bound((n - 1) as nat);
        assert(pow4(n) == 4 * pow4((n - 1) as nat));
        assert(pow4((n - 1) as nat) >= 1) by {
            lemma_pow4_pos((n - 1) as nat);
        }
        if n < 31 {
            lemma_pow4_le(n, 31);
        }
        assert(pow4(31) == 0x4000000000000000) by {
            reveal_with_fuel(pow4, 32);
        }
    }
}

/// 4^n is positive.
proof fn lemma_pow4_pos(n: nat)
    ensures
        pow4(n) >= 1,
    decreases n,
{
    if n > 0 {
        lemma_pow4_pos((n - 1) as nat);
    }
}

/// 4^n is monotone.
proof fn lemma_pow4_le(a: nat, b: nat)
    requires
        a <= b,
    ensures
        pow4(a) <= pow4(b),
    decreases b,
{
    if a < b {
        lemma_pow4_le(a, (b - 1) as nat);
        lemma_pow4_pos((b - 1) as nat);
    }
}

/// The `j`-th multiple of `4^i`, as the signing code builds it by repeated
/// scalar addition.
pub open spec fn borr_mult(i: nat, j: nat) -> nat {
    if j == 0 {
        0
    } else if j == 1 {
        pow4(i)
    } else if j == 2 {
        sadd(pow4(i), pow4(i))
    } else {
        sadd(sadd(pow4(i), pow4(i)), pow4(i))
    }
}

/// The positive table entry `j * 4^i * H` (the zero multiple is the
/// identity).
pub open spec fn borr_pos(i: nat, j: nat) -> nat {
    if j == 0 {
        0
    } else {
        smul(pedersen_h(), borr_mult(i, j))
    }
}

/// The negated table entry.
pub open spec fn borr_neg(i: nat, j: nat) -> nat {
    sneg(borr_pos(i, j))
}

/// The point inside a chameleon hash: `s * G + e * P`.
pub open spec fn cham_point(e: nat, s: nat, p: nat) -> nat {
    sadd(s, smul(p, e))
}

/// A chameleon hash step: hash the message and the encoded point to a scalar.
pub open spec fn chameleon(m: Seq<u8>, e: nat, s: nat, p: nat) -> nat {
    h_scalar_spec(m + point_repr(cham_point(e, s, p)))
}

/// Walk one ring of the verification: chameleon steps over members
/// `0 .. len-1` (the last member is folded into the shared seed instead).
pub open spec fn borr_ring_walk(m: Seq<u8>, e: nat, s_row: Seq<nat>, ring: Seq<nat>, j: int) -> nat
    decreases ring.len() - 1 - j,
{
    if j < 0 || j >= ring.len() - 1 {
        e
    } else {
        borr_ring_walk(m, chameleon(m, e, s_row[j], ring[j]), s_row, ring, j + 1)
    }
}

/// The walk of one ring cut off before slot `k`: chameleon steps over
/// members `j .. k-1` only.
pub open spec fn borr_walk_steps(
    m: Seq<u8>,
    e: nat,
    s_row: Seq<nat>,
    ring: Seq<nat>,
    j: int,
    k: int,
) -> nat
    decreases k - j,
{
    if j < 0 || j >= k {
        e
    } else {
        borr_walk_steps(m, chameleon(m, e, s_row[j], ring[j]), s_row, ring, j + 1, k)
    }
}

/// The full walk is the cut walk up to the last member.
proof fn lemma_walk_is_steps(m: Seq<u8>, e: nat, s_row: Seq<nat>, ring: Seq<nat>, j: int)
    requires
        0 <= j,
    ensures
        borr_ring_walk(m, e, s_row, ring, j) == borr_walk_steps(
            m,
            e,
            s_row,
            ring,
            j,
            ring.len() - 1,
        ),
    decreases ring.len() - j,
{
    if j < ring.len() - 1 {
        lemma_walk_is_steps(m, chameleon(m, e, s_row[j], ring[j]), s_row, ring, j + 1);
    }
}

/// One step of the cut walk is one chameleon hash.
proof fn lemma_steps_one(m: Seq<u8>, e: nat, s_row: Seq<nat>, ring: Seq<nat>, j: int)
    requires
        0 <= j,
    ensures
        borr_walk_steps(m, e, s_row, ring, j, j + 1) == chameleon(m, e, s_row[j], ring[j]),
{
    assert(borr_walk_steps(m, chameleon(m, e, s_row[j], ring[j]), s_row, ring, j + 1, j + 1)
        == chameleon(m, e, s_row[j], ring[j]));
}

/// A cut walk splits at any intermediate slot.
proof fn lemma_steps_concat(
    m: Seq<u8>,
    e: nat,
    s_row: Seq<nat>,
    ring: Seq<nat>,
    j: int,
    k: int,
    l: int,
)
    requires
        0 <= j <= k <= l,
    ensures
        borr_walk_steps(m, e, s_row, ring, j, l) == borr_walk_steps(
            m,
            borr_walk_steps(m, e, s_row, ring, j, k),
            s_row,
            ring,
            k,
            l,
        ),
    decreases k - j,
{
    if j < k {
        lemma_steps_concat(m, chameleon(m, e, s_row[j], ring[j]), s_row, ring, j + 1, k, l);
    }
}

/// The cut walk reads only the response slots it steps over.
proof fn lemma_steps_agree(
    m: Seq<u8>,
    e: nat,
    s1: Seq<nat>,
    s2: Seq<nat>,
    ring: Seq<nat>,
    j: int,
    k: int,
)
    requires
        forall|t: int| j <= t < k ==> s1[t] == s2[t],
    ensures
        borr_walk_steps(m, e, s1, ring, j, k) == borr_walk_steps(m, e, s2, ring, j, k),
    decreases k - j,
{
    if 0 <= j < k {
        lemma_steps_agree(m, chameleon(m, e, s1[j], ring[j]), s1, s2, ring, j + 1, k);
    }
}

/// A cut walk stays below the group order when its start does.
proof fn lemma_steps_bound(m: Seq<u8>, e: nat, s_row: Seq<nat>, ring: Seq<nat>, j: int, k: int)
    requires
        e < crate::curve::group_order(),
    ensures
        borr_walk_steps(m, e, s_row, ring, j, k) < crate::curve::group_order(),
    decreases k - j,
{
    if 0 <= j < k {
        lemma_steps_bound(m, chameleon(m, e, s_row[j], ring[j]), s_row, ring, j + 1, k);
    }
}

/// The 4-member candidate ring of digit position `i` during verification:
/// the digit commitment itself, then the commitment minus each nonzero
/// multiple of `4^i * H`.
pub open spec fn borr_verify_ring(c: nat, i: nat) -> Seq<nat> {
    seq![c, sadd(borr_neg(i, 1), c), sadd(borr_neg(i, 2), c), sadd(borr_neg(i, 3), c)]
}

/// The signed message: the batched encodings of every ring member, then the
/// caller's message.
pub open spec fn borr_m(rings: Seq<Seq<nat>>, msg: Seq<u8>) -> Seq<u8> {
    blake256(
        flatten_bytes(
            rings.map_values(|ring: Seq<nat>| flatten_bytes(ring.map_values(|p: nat| batch_repr(p)))),
        ) + msg,
    )
}

/// The recomputed shared seed: walk every ring to its last member, then hash
/// the batched encodings of the final chameleon points.
pub open spec fn borr_final(m: Seq<u8>, e0: nat, s: Seq<Seq<nat>>, rings: Seq<Seq<nat>>) -> nat {
    let pts = Seq::new(
        rings.len(),
        |i: int|
            cham_point(
                borr_ring_walk(m, e0, s[i], rings[i], 0),
                s[i][rings[i].len() - 1],
                rings[i][rings[i].len() - 1],
            ),
    );
    h_scalar_spec(m + flatten_bytes(pts.map_values(|p: nat| batch_repr(p))))
}

/// A rangeproof based on Borromean ring signatures.
#[derive(Clone)]
pub struct BorromeanRangeProof {
    c_i: Vec<Commitment>,
    e_0: GroupScalar,
    s: Vec<Vec<GroupScalar>>,
}

impl BorromeanRangeProof {
    /// The proof has 32 digit commitments and 32 rows of 4 response scalars.
    pub open spec fn well_formed(&self) -> bool {
        &&& self.spec_cs().len() == 32
        &&& self.spec_s().len() == 32
        &&& forall|i: int| 0 <= i < 32 ==> (#[trigger] self.spec_s()[i]).len() == 4
    }

    /// The per-digit commitments.
    pub closed spec fn spec_cs(&self) -> Seq<nat> {
        self.c_i@.map_values(|c: Commitment| c@)
    }

    /// The shared challenge seed.
    pub closed spec fn spec_e0(&self) -> nat {
        self.e_0@
    }

    /// The response scalars, 4 per digit position.
    pub closed spec fn spec_s(&self) -> Seq<Seq<nat>> {
        self.s@.map_values(|row: Vec<GroupScalar>| row@.map_values(|x: GroupScalar| x@))
    }

    /// Whether the proof passes verification against a total commitment: the
    /// digit commitments sum to the total, and the recomputed shared seed
    /// equals the stored one.
    pub open spec fn valid(&self, commitment: nat) -> bool {
        let rings = Seq::new(32, |i: int| borr_verify_ring(self.spec_cs()[i], i as nat));
        let m = borr_m(rings, point_repr(commitment));
        &&& self.well_formed()
        &&& crate::curve::reduce(sum_coms_nat(self.spec_cs()) as int) == commitment
        &&& borr_final(m, self.spec_e0(), self.spec_s(), rings) == self.spec_e0()
    }
}

/// Sum of a sequence of commitment discrete logarithms.
pub open spec fn sum_coms_nat(s: Seq<nat>) -> nat
    decreases s.len(),
{
    if s.len() == 0 {
        0
    } else {
        (sum_coms_nat(s.drop_last()) + s.last()) as nat
    }
}

/// Each table multiple is the plain product `j * 4^i`, which stays well
/// below the group order.
proof fn lemma_borr_mult_value(i: nat, j: nat)
    requires
        i <= 31,
        j <= 3,
    ensures
        borr_mult(i, j) == j * pow4(i),
{
    lemma_pow4_bound(i);
    let p = pow4(i) as int;
    if j == 0 {
        assert(0 * p == 0) by (nonlinear_arith);
    } else if j == 1 {
        assert(1 * p == p) by (nonlinear_arith);
    } else if j == 2 {
        lemma_mod_small(2 * p);
        assert(borr_mult(i, 2) == 2 * pow4(i));
    } else {
        lemma_mod_small(2 * p);
        lemma_mod_small(3 * p);
        assert(borr_mult(i, 3) == 3 * pow4(i));
    }
}

/// The weighted sum of a digit string: digit `k` carries weight `4^k`.
pub open spec fn weighted_digit_sum(ds: Seq<u8>) -> nat
    decreases ds.len(),
{
    if ds.len() == 0 {
        0
    } else {
        (weighted_digit_sum(ds.drop_last()) + ds.last() * pow4((ds.len() - 1) as nat)) as nat
    }
}

/// The base-4 digits of `n` sum, with their weights, back to `n`: each
/// prefix of the digit string is worth `n` modulo the weight that follows.
proof fn lemma_digit_prefix_value(n: u64, ds: Seq<u8>, i: nat)
    requires
        i <= 32,
        ds.len() == 32,
        forall|k: int| 0 <= k < 32 ==> ds[k] == (n as nat / pow4(k as nat)) % 4,
    ensures
        weighted_digit_sum(ds.take(i as int)) == n as nat % pow4(i),
    decreases i,
{
    if i == 0 {
        assert(ds.take(0) =~= Seq::<u8>::empty());
        assert(n as nat % pow4(0) == 0) by (nonlinear_arith);
    } else {
        lemma_digit_prefix_value(n, ds, (i - 1) as nat);
        let prev = ds.take(i - 1);
        let cur = ds.take(i as int);
        assert(cur.drop_last() =~= prev);
        assert(cur.last() == ds[i - 1]);
        lemma_pow4_pos((i - 1) as nat);
        lemma_mod_breakdown(n as int, pow4((i - 1) as nat) as int, 4);
        assert(pow4(i) == 4 * pow4((i - 1) as nat));
        assert(pow4((i - 1) as nat) * 4 == 4 * pow4((i - 1) as nat)) by (nonlinear_arith);
        assert(((n as nat / pow4((i - 1) as nat)) % 4) * pow4((i - 1) as nat) == pow4(
            (i - 1) as nat,
        ) * ((n as int / pow4((i - 1) as nat) as int) % 4)) by (nonlinear_arith);
    }
}

/// The whole 32-digit string of a 64-bit value is worth the value itself.
proof fn lemma_digits_value(n: u64, ds: Seq<u8>)
    requires
        ds.len() == 32,
        forall|k: int| 0 <= k < 32 ==> ds[k] == (n as nat / pow4(k as nat)) % 4,
    ensures
        weighted_digit_sum(ds) == n,
{
    lemma_digit_prefix_value(n, ds, 32);
    assert(ds.take(32) =~= ds);
    assert(pow4(32) == 0x10000000000000000) by {
        reveal_with_fuel(pow4, 33);
    }
    vstd::arithmetic::div_mod::lemma_small_mod(n as nat, pow4(32));
}

/// A sum of digit commitments opens to the sum of its blindings plus the
/// weighted digit sum times `H`, modulo the group order.
proof fn lemma_borr_opening_sum(cs: Seq<nat>, rs: Seq<nat>, ds: Seq<u8>)
    requires
        cs.len() == rs.len(),
        cs.len() == ds.len(),
        cs.len() <= 32,
        forall|k: int| 0 <= k < ds.len() ==> ds[k] < 4,
        forall|k: int|
            0 <= k < cs.len() ==> cs[k] == sadd(rs[k], borr_pos(k as nat, ds[k] as nat)),
    ensures
        sum_coms_nat(cs) as int % crate::modmath::order_int() == (crate::laws::sum_nats(rs)
            + weighted_digit_sum(ds) * pedersen_h()) as int % crate::modmath::order_int(),
    decreases cs.len(),
{
    let oi = crate::modmath::order_int();
    let h = pedersen_h();
    if cs.len() == 0 {
        assert(weighted_digit_sum(ds) * h == 0) by (nonlinear_arith)
            requires
                weighted_digit_sum(ds) == 0,
        ;
    } else {
        let k = cs.len() - 1;
        lemma_borr_opening_sum(cs.drop_last(), rs.drop_last(), ds.drop_last());
        let d = ds[k] as nat;
        let r = rs[k];
        lemma_borr_mult_value(k as nat, d);
        // The last digit commitment is `r + (d * 4^k) * H`, reduced.
        let m = (d * pow4(k as nat)) as int;
        if d == 0 {
            assert(borr_pos(k as nat, d) == m * h) by (nonlinear_arith)
                requires
                    d == 0,
                    borr_pos(k as nat, d) == 0,
                    m == d * pow4(k as nat),
            ;
        } else {
            assert(h * (d * pow4(k as nat)) == (d * pow4(k as nat)) * h) by (nonlinear_arith);
            assert(borr_pos(k as nat, d) == crate::curve::reduce(m * h));
        }
        let x = (r + m * h) as int;
        crate::modmath::lemma_add_mod_right(r as int, m * h);
        assert(cs[k as int] as int == (x % oi)) by {
            assert(cs[k as int] == sadd(r, borr_pos(k as nat, d)));
        }
        let s0 = sum_coms_nat(cs.drop_last()) as int;
        let bp = crate::laws::sum_nats(rs.drop_last()) as int;
        let wp = weighted_digit_sum(ds.drop_last()) as int;
        assert(sum_coms_nat(cs) as int == s0 + (x % oi));
        crate::modmath::lemma_add_mod_right(s0, x);
        crate::modmath::lemma_add_mod_left(s0, x);
        assert(s0 % oi == (bp + wp * h) % oi);
        crate::modmath::lemma_add_mod_left(bp + wp * h, x);
        assert((wp + d * pow4(k as nat)) * h == wp * h + m * h) by (nonlinear_arith)
            requires
                m == d * pow4(k as nat),
        ;
        assert((crate::laws::sum_nats(rs) + weighted_digit_sum(ds) * h) as int == bp + wp * h
            + x) by (nonlinear_arith)
            requires
                crate::laws::sum_nats(rs) as int == bp + r,
                weighted_digit_sum(ds) as int == wp + d * pow4(k as nat),
                x == (r + m * h) as int,
                m == d * pow4(k as nat),
                h >= 0,
                r >= 0,
                bp >= 0,
                wp >= 0,
                d >= 0,
        ;
    }
}

/// The precomputed tables of digit-multiple points of `H`: each digit
/// position's positive multiples and their negations.
pub struct BorromeanHTable {
    pub positive: Vec<Vec<GroupPoint>>,
    pub negative: Vec<Vec<GroupPoint>>,
}

impl BorromeanHTable {
    /// Build both tables.
    pub fn new() -> (r: BorromeanHTable)
        ensures
            r.positive@.len() == 32,
            r.negative@.len() == 32,
            forall|i: int| 0 <= i < 32 ==> (#[trigger] r.positive@[i])@.len() == 4,
            forall|i: int| 0 <= i < 32 ==> (#[trigger] r.negative@[i])@.len() == 4,
            forall|i: int, j: int|
                0 <= i < 32 && 0 <= j < 4 ==> (#[trigger] r.positive@[i]@[j])@ == borr_pos(
                    i as nat,
                    j as nat,
                ),
            forall|i: int, j: int|
                0 <= i < 32 && 0 <= j < 4 ==> (#[trigger] r.negative@[i]@[j])@ == borr_neg(
                    i as nat,
                    j as nat,
                ),
    {
        let (positive, negative) = borromean_h_tables();
        BorromeanHTable { positive, negative }
    }
}

/// Build the tables of positive and negative digit-multiple points of `H`.
fn borromean_h_tables() -> (r: (Vec<Vec<GroupPoint>>, Vec<Vec<GroupPoint>>))
    ensures
        r.0@.len() == 32,
        r.1@.len() == 32,
        forall|i: int| 0 <= i < 32 ==> (#[trigger] r.0@[i])@.len() == 4,
        forall|i: int| 0 <= i < 32 ==> (#[trigger] r.1@[i])@.len() == 4,
        forall|i: int, j: int|
            0 <= i < 32 && 0 <= j < 4 ==> (#[trigger] r.0@[i]@[j])@ == borr_pos(
                i as nat,
                j as nat,
            ),
        forall|i: int, j: int|
            0 <= i < 32 && 0 <= j < 4 ==> (#[trigger] r.1@[i]@[j])@ == borr_neg(
                i as nat,
                j as nat,
            ),
{
    let h = pedersen_h_point();
    let mut pos: Vec<Vec<GroupPoint>> = Vec::new();
    let mut neg: Vec<Vec<GroupPoint>> = Vec::new();
    let mut p4: u64 = 1;
    let mut i: usize = 0;
    while i < 32
        invariant
            i <= 32,
            h@ == pedersen_h(),
            pos@.len() == i,
            neg@.len() == i,
            i < 32 ==> p4 == pow4(i as nat),
            forall|a: int| 0 <= a < i ==> (#[trigger] pos@[a])@.len() == 4,
            forall|a: int| 0 <= a < i ==> (#[trigger] neg@[a])@.len() == 4,
            forall|a: int, j: int|
                0 <= a < i && 0 <= j < 4 ==> (#[trigger] pos@[a]@[j])@ == borr_pos(
                    a as nat,
                    j as nat,
                ),
            forall|a: int, j: int|
                0 <= a < i && 0 <= j < 4 ==> (#[trigger] neg@[a]@[j])@ == borr_neg(
                    a as nat,
                    j as nat,
                ),
        decreases 32 - i,
    {
        let n1 = GroupScalar::from_u64(p4);
        let n2 = n1.add(n1);
        let n3 = n2.add(n1);
        let mut prow: Vec<GroupPoint> = Vec::new();
        prow.push(GroupPoint::identity());
        prow.push(h.mul(n1));
        prow.push(h.mul(n2));
        prow.push(h.mul(n3));
        let mut nrow: Vec<GroupPoint> = Vec::new();
        nrow.push(prow[0].neg());
        nrow.push(prow[1].neg());
        nrow.push(prow[2].neg());
        nrow.push(prow[3].neg());
        pos.push(prow);
        neg.push(nrow);
        if i < 31 {
            proof {
                lemma_pow4_bound((i + 1) as nat);
            }
            p4 = p4 * 4;
        }
        i = i + 1;
    }
    (pos, neg)
}

/// Decompose a value into its 32 base-4 digits, least significant first.
fn quaternary(n: u64) -> (r: Vec<u8>)
    ensures
        r@.len() == 32,
        forall|i: int| 0 <= i < 32 ==> r@[i] == (n as nat / pow4(i as nat)) % 4,
{
    let mut digits: Vec<u8> = Vec::new();
    let mut number: u64 = n;
    proof {
        assert(n as nat / pow4(0) == n as nat) by (nonlinear_arith);
    }
    let mut x: usize = 0;
    while x < 32
        invariant
            x <= 32,
            digits@.len() == x,
            number == n as nat / pow4(x as nat),
            forall|i: int| 0 <= i < x ==> digits@[i] == (n as nat / pow4(i as nat)) % 4,
        decreases 32 - x,
    {
        digits.push((number % 4) as u8);
        proof {
            lemma_pow4_pos(x as nat);
            vstd::arithmetic::div_mod::lemma_div_denominator(n as int, pow4(x as nat) as int, 4);
            assert(pow4((x + 1) as nat) == 4 * pow4(x as nat));
        }
        number = number / 4;
        x = x + 1;
    }
    digits
}

/// Create the signed message: a hash over the batched encodings of every
/// ring member, followed by the caller's message.
fn create_m(rings: &Vec<Vec<GroupPoint>>, msg: &[u8]) -> (r: Vec<u8>)
    ensures
        r@ == borr_m(
            rings@.map_values(|rv: Vec<GroupPoint>| rv@.map_values(|p: GroupPoint| p@)),
            msg@,
        ),
        r@.len() == 32,
{
    let ghost rseq = rings@.map_values(|rv: Vec<GroupPoint>| rv@.map_values(|p: GroupPoint| p@));
    let ghost blocks = rseq.map_values(
        |ring: Seq<nat>| flatten_bytes(ring.map_values(|p: nat| batch_repr(p))),
    );
    let mut buf: Vec<u8> = Vec::new();
    let mut i: usize = 0;
    proof {
        assert(blocks.subrange(0, 0) =~= Seq::<Seq<u8>>::empty());
    }
    while i < rings.len()
        invariant
            i <= rings@.len(),
            rseq == rings@.map_values(|rv: Vec<GroupPoint>| rv@.map_values(|p: GroupPoint| p@)),
            blocks == rseq.map_values(
                |ring: Seq<nat>| flatten_bytes(ring.map_values(|p: nat| batch_repr(p))),
            ),
            buf@ == flatten_bytes(blocks.subrange(0, i as int)),
        decreases rings@.len() - i,
    {
        let enc = batch_encode_points(&rings[i]);
        let cat = crate::byteops::concat_byte_vecs(&enc);
        proof {
            assert(enc@.map_values(|p: Vec<u8>| p@) =~= rseq[i as int].map_values(
                |p: nat| batch_repr(p),
            ));
            assert(cat@ == blocks[i as int]);
            crate::byteops::lemma_flatten_bytes_push(blocks.subrange(0, i as int), blocks[i as int]);
            assert(blocks.subrange(0, i + 1) =~= blocks.subrange(0, i as int).push(
                blocks[i as int],
            ));
        }
        append_bytes(&mut buf, cat.as_slice());
        i = i + 1;
    }
    proof {
        assert(blocks.subrange(0, blocks.len() as int) =~= blocks);
    }
    append_bytes(&mut buf, msg);
    h_bytes(buf.as_slice())
}

/// The chameleon point of one member: `s * G + e * P`.
fn cham_point_of(e: GroupScalar, s_ij: GroupScalar, p: GroupPoint) -> (r: GroupPoint)
    ensures
        r@ == cham_point(e@, s_ij@, p@),
{
    proof {
        use_type_invariant(&s_ij);
        crate::modmath::lemma_smul_one(s_ij@);
    }
    GroupPoint::basepoint().mul(s_ij).add(p.mul(e))
}

/// One chameleon step: hash the message and the encoded chameleon point to
/// the next challenge.
fn chameleon_step(m: &Vec<u8>, e: GroupScalar, s_ij: GroupScalar, p: GroupPoint) -> (r:
    GroupScalar)
    ensures
        r@ == chameleon(m@, e@, s_ij@, p@),
{
    let pt = cham_point_of(e, s_ij, p);
    let mut buf = vstd::slice::slice_to_vec(m.as_slice());
    let enc = encode_point(&pt);
    append_bytes(&mut buf, enc.as_slice());
    proof {
        assert(buf@ =~= m@ + point_repr(pt@));
    }
    h_scalar(buf.as_slice())
}

impl BorromeanRangeProof {
    /// Create a Borromean rangeproof for `value` under `blinding`.  Returns
    /// the total commitment and the proof; the digit commitments inside the
    /// proof always sum to the returned commitment, and the proof passes
    /// verification against it.
    #[verifier::rlimit(100)]
    #[verifier::spinoff_prover]
    pub fn prove(value: u64, blinding: GroupScalar) -> (r: Result<
        (Commitment, BorromeanRangeProof),
        RangeProofError,
    >)
        ensures
            r is Ok,
            r matches Ok(out) ==> crate::curve::reduce(sum_coms_nat(out.1.spec_cs()) as int)
                == out.0@,
            r matches Ok(out) ==> out.0@ == crate::pedersen::commit_spec(
                value as nat,
                blinding@,
            ),
            r matches Ok(out) ==> out.1.valid(out.0@),
    {
        if value > MAX_VALUE {
            return Err(RangeProofError::OutOfRange);
        }
        let digits = quaternary(value);
        let (pos_table, neg_table) = borromean_h_tables();

        let mut r_scalars: Vec<GroupScalar> = Vec::new();
        let mut r_total = GroupScalar::zero();
        let mut coms: Vec<Commitment> = Vec::new();
        let mut rings: Vec<Vec<GroupPoint>> = Vec::new();
        proof {
            lemma_mod_small(0);
            assert(r_scalars@.map_values(|x: GroupScalar| x@) =~= Seq::<nat>::empty());
        }
        let mut i: usize = 0;
        while i < 32
            invariant
                i <= 32,
                digits@.len() == 32,
                forall|k: int| 0 <= k < 32 ==> digits@[k] < 4,
                pos_table@.len() == 32,
                neg_table@.len() == 32,
                forall|a: int| 0 <= a < 32 ==> (#[trigger] pos_table@[a])@.len() == 4,
                forall|a: int| 0 <= a < 32 ==> (#[trigger] neg_table@[a])@.len() == 4,
                forall|a: int, j: int|
                    0 <= a < 32 && 0 <= j < 4 ==> (#[trigger] pos_table@[a]@[j])@ == borr_pos(
                        a as nat,
                        j as nat,
                    ),
                forall|a: int, j: int|
                    0 <= a < 32 && 0 <= j < 4 ==> (#[trigger] neg_table@[a]@[j])@ == borr_neg(
                        a as nat,
                        j as nat,
                    ),
                r_scalars@.len() == i,
                coms@.len() == i,
                rings@.len() == i,
                forall|a: int| 0 <= a < i ==> (#[trigger] rings@[a])@.len() == 4,
                forall|k: int|
                    0 <= k < i ==> (#[trigger] coms@[k])@ == crate::curve::sadd(
                        r_scalars@[k]@,
                        borr_pos(k as nat, digits@[k] as nat),
                    ),
                forall|a: int| 0 <= a < i ==> (#[trigger] r_scalars@[a])@ < group_order(),
                forall|a: int|
                    0 <= a < i ==> (#[trigger] rings@[a])@.map_values(|p: GroupPoint| p@)
                        == borr_verify_ring(coms@[a]@, a as nat),
                forall|a: int|
                    0 <= a < i ==> (#[trigger] rings@[a])@[digits@[a] as int]@ == r_scalars@[a]@,
                r_total@ == crate::curve::reduce(
                    crate::laws::sum_nats(r_scalars@.map_values(|x: GroupScalar| x@)) as int,
                ),
                i == 32 ==> crate::curve::reduce(
                    crate::laws::sum_nats(r_scalars@.map_values(|x: GroupScalar| x@)) as int,
                ) == blinding@,
            decreases 32 - i,
        {
            let ghost pre_rv = r_scalars@.map_values(|x: GroupScalar| x@);
            let r_i = if i == 31 {
                blinding.sub(r_total)
            } else {
                crate::curve::random_scalar()
            };
            r_scalars.push(r_i);
            let ghost prev_total = r_total@;
            r_total = r_total.add(r_i);
            proof {
                let rv = r_scalars@.map_values(|x: GroupScalar| x@);
                assert(rv =~= pre_rv.push(r_i@));
                assert(rv.drop_last() =~= pre_rv);
                let s_pre = crate::laws::sum_nats(pre_rv) as int;
                crate::modmath::lemma_add_mod_left(s_pre, r_i@ as int);
                assert(r_total@ == crate::curve::reduce(crate::laws::sum_nats(rv) as int));
                if i == 31 {
                    // The last blinding closes the sum: modulo the order, the
                    // 32 digit blindings add up to the caller's blinding.
                    use_type_invariant(&blinding);
                    assert(r_i@ == crate::curve::ssub(blinding@, prev_total));
                    let oi = crate::modmath::order_int();
                    let b = blinding@ as int;
                    let t = prev_total as int;
                    crate::modmath::lemma_add_mod_right(s_pre, (b + crate::curve::group_order()
                        - t) % oi);
                    crate::modmath::lemma_add_mod_left(s_pre, b + crate::curve::group_order()
                        - t);
                    assert((t + (b + crate::curve::group_order() - t)) % oi == (b
                        + crate::curve::group_order()) % oi);
                    vstd::arithmetic::div_mod::lemma_mod_add_multiples_vanish(b, oi);
                    lemma_mod_small(b);
                    assert(crate::curve::reduce(crate::laws::sum_nats(rv) as int) == blinding@);
                }
            }

            let c_0 = GroupPoint::basepoint().mul(r_i);
            let digit = digits[i] as usize;
            let c_x = c_0.add(pos_table[i][digit]);
            let ghost riv = r_i@;
            proof {
                use_type_invariant(&r_i);
                lemma_mod_small(r_i@ as int);
                crate::modmath::lemma_smul_one(riv);
                assert(c_0@ == riv);
                assert(c_x@ == crate::curve::sadd(r_i@, borr_pos(i as nat, digits@[i as int] as nat)));
            }
            coms.push(Commitment(c_x));

            let mut ring: Vec<GroupPoint> = Vec::new();
            ring.push(c_x);
            let mut j: usize = 1;
            while j < 4
                invariant
                    1 <= j <= 4,
                    ring@.len() == j,
                    i < 32,
                    digit < 4,
                    riv < group_order(),
                    c_0@ == riv,
                    c_x@ == sadd(riv, borr_pos(i as nat, digit as nat)),
                    ring@[0]@ == c_x@,
                    forall|q: int|
                        1 <= q < j ==> (#[trigger] ring@[q])@ == sadd(
                            borr_neg(i as nat, q as nat),
                            c_x@,
                        ),
                    neg_table@.len() == 32,
                    forall|a: int| 0 <= a < 32 ==> (#[trigger] neg_table@[a])@.len() == 4,
                    forall|a: int, b: int|
                        0 <= a < 32 && 0 <= b < 4 ==> (#[trigger] neg_table@[a]@[b])@ == borr_neg(
                            a as nat,
                            b as nat,
                        ),
                decreases 4 - j,
            {
                if j == digit {
                    proof {
                        crate::modmath::lemma_sneg_cancel(riv, borr_pos(i as nat, j as nat));
                    }
                    ring.push(c_0);
                } else {
                    ring.push(neg_table[i][j].add(c_x));
                }
                j = j + 1;
            }
            proof {
                if digit >= 1 {
                    crate::modmath::lemma_sneg_cancel(riv, borr_pos(i as nat, digit as nat));
                } else {
                    lemma_mod_small(riv as int);
                }
                assert(ring@.map_values(|p: GroupPoint| p@) =~= borr_verify_ring(
                    c_x@,
                    i as nat,
                ));
                assert(ring@[digit as int]@ == riv);
            }
            rings.push(ring);
            i = i + 1;
        }

        // Total commitment.
        let mut c_total = GroupPoint::identity();
        let mut i: usize = 0;
        proof {
            lemma_mod_small(0);
            assert(coms@.map_values(|c: Commitment| c@).subrange(0, 0) =~= Seq::<nat>::empty());
        }
        let ghost cvs = coms@.map_values(|c: Commitment| c@);
        while i < coms.len()
            invariant
                i <= coms@.len(),
                cvs == coms@.map_values(|c: Commitment| c@),
                c_total@ == crate::curve::reduce(sum_coms_nat(cvs.subrange(0, i as int)) as int),
            decreases coms@.len() - i,
        {
            c_total = c_total.add(coms[i].0);
            proof {
                assert(cvs.subrange(0, i + 1).drop_last() =~= cvs.subrange(0, i as int));
                assert(cvs.subrange(0, i + 1).last() == cvs[i as int]);
                crate::modmath::lemma_add_mod_left(
                    sum_coms_nat(cvs.subrange(0, i as int)) as int,
                    cvs[i as int] as int,
                );
            }
            i = i + 1;
        }
        proof {
            assert(cvs.subrange(0, cvs.len() as int) =~= cvs);
            // The digit commitments open to the caller's blinding and value.
            let rv = r_scalars@.map_values(|x: GroupScalar| x@);
            lemma_borr_opening_sum(cvs, rv, digits@);
            lemma_digits_value(value, digits@);
            use_type_invariant(&blinding);
            let oi = crate::modmath::order_int();
            let h = pedersen_h();
            let w = (weighted_digit_sum(digits@) * h) as int;
            crate::modmath::lemma_add_mod_left(crate::laws::sum_nats(rv) as int, w);
            crate::modmath::lemma_add_mod_left(blinding@ as int, w);
            lemma_mod_small(blinding@ as int);
            assert(c_total@ == crate::pedersen::commit_spec(value as nat, blinding@));
        }

        // Borromean aggregate signature over the 32 rings.
        let m = create_m(&rings, encode_point(&c_total).as_slice());
        let ghost ringdl = rings@.map_values(
            |rv: Vec<GroupPoint>| rv@.map_values(|p: GroupPoint| p@),
        );
        let ghost rsv = r_scalars@.map_values(|x: GroupScalar| x@);

        let mut s: Vec<Vec<GroupScalar>> = Vec::new();
        let mut i: usize = 0;
        while i < 32
            invariant
                i <= 32,
                s@.len() == i,
                forall|a: int| 0 <= a < i ==> (#[trigger] s@[a])@.len() == 4,
                forall|a: int, q: int|
                    0 <= a < i && 0 <= q < 4 ==> (#[trigger] s@[a]@[q])@ < group_order(),
            decreases 32 - i,
        {
            let mut row: Vec<GroupScalar> = Vec::new();
            let mut j: usize = 0;
            while j < 4
                invariant
                    j <= 4,
                    row@.len() == j,
                    forall|q: int| 0 <= q < j ==> (#[trigger] row@[q])@ < group_order(),
                decreases 4 - j,
            {
                let rs = crate::curve::random_scalar();
                proof {
                    use_type_invariant(&rs);
                }
                row.push(rs);
                j = j + 1;
            }
            s.push(row);
            i = i + 1;
        }
        let ghost sv0 = s@.map_values(
            |row: Vec<GroupScalar>| row@.map_values(|x: GroupScalar| x@),
        );
        let mut e_start: Vec<GroupScalar> = Vec::new();
        let mut i: usize = 0;
        while i < 32
            invariant
                i <= 32,
                e_start@.len() == i,
                forall|a: int| 0 <= a < i ==> (#[trigger] e_start@[a])@ < group_order(),
            decreases 32 - i,
        {
            let es = crate::curve::random_scalar();
            proof {
                use_type_invariant(&es);
            }
            e_start.push(es);
            i = i + 1;
        }
        let ghost esv = e_start@.map_values(|x: GroupScalar| x@);

        // First pass: from each digit slot to the last ring member, then the
        // shared seed.
        let mut final_pts: Vec<GroupPoint> = Vec::new();
        let mut i: usize = 0;
        while i < 32
            invariant
                i <= 32,
                final_pts@.len() == i,
                digits@.len() == 32,
                forall|k: int| 0 <= k < 32 ==> digits@[k] < 4,
                s@.len() == 32,
                forall|a: int| 0 <= a < 32 ==> (#[trigger] s@[a])@.len() == 4,
                e_start@.len() == 32,
                rings@.len() == 32,
                forall|a: int| 0 <= a < 32 ==> (#[trigger] rings@[a])@.len() == 4,
                sv0 == s@.map_values(
                    |row: Vec<GroupScalar>| row@.map_values(|x: GroupScalar| x@),
                ),
                esv == e_start@.map_values(|x: GroupScalar| x@),
                ringdl == rings@.map_values(
                    |rv: Vec<GroupPoint>| rv@.map_values(|p: GroupPoint| p@),
                ),
                forall|a: int|
                    0 <= a < i ==> (#[trigger] final_pts@[a])@ == cham_point(
                        borr_walk_steps(m@, esv[a], sv0[a], ringdl[a], digits@[a] as int, 3),
                        sv0[a][3],
                        ringdl[a][3],
                    ),
            decreases 32 - i,
        {
            let ghost ii = i as int;
            let ghost dd = digits@[ii] as int;
            let mut eij = e_start[i];
            let mut j: usize = digits[i] as usize;
            proof {
                assert(eij@ == esv[ii]);
                assert(eij@ == borr_walk_steps(m@, esv[ii], sv0[ii], ringdl[ii], dd, dd));
            }
            while j < 3
                invariant
                    dd <= j <= 3,
                    i < 32,
                    ii == i as int,
                    dd == digits@[ii] as int,
                    0 <= dd < 4,
                    s@.len() == 32,
                    forall|a: int| 0 <= a < 32 ==> (#[trigger] s@[a])@.len() == 4,
                    rings@.len() == 32,
                    forall|a: int| 0 <= a < 32 ==> (#[trigger] rings@[a])@.len() == 4,
                    sv0 == s@.map_values(
                        |row: Vec<GroupScalar>| row@.map_values(|x: GroupScalar| x@),
                    ),
                    ringdl == rings@.map_values(
                        |rv: Vec<GroupPoint>| rv@.map_values(|p: GroupPoint| p@),
                    ),
                    eij@ == borr_walk_steps(m@, esv[ii], sv0[ii], ringdl[ii], dd, j as int),
                decreases 3 - j,
            {
                let e_new = chameleon_step(&m, eij, s[i][j], rings[i][j]);
                proof {
                    assert(s@[ii]@[j as int]@ == sv0[ii][j as int]);
                    assert(rings@[ii]@[j as int]@ == ringdl[ii][j as int]);
                    lemma_steps_concat(m@, esv[ii], sv0[ii], ringdl[ii], dd, j as int, j + 1);
                    lemma_steps_one(m@, eij@, sv0[ii], ringdl[ii], j as int);
                }
                eij = e_new;
                j = j + 1;
            }
            let fin = cham_point_of(eij, s[i][3], rings[i][3]);
            proof {
                assert(s@[ii]@[3]@ == sv0[ii][3]);
                assert(rings@[ii]@[3]@ == ringdl[ii][3]);
            }
            final_pts.push(fin);
            i = i + 1;
        }
        let mut buf = vstd::slice::slice_to_vec(m.as_slice());
        let enc = batch_encode_points(&final_pts);
        let cat = crate::byteops::concat_byte_vecs(&enc);
        append_bytes(&mut buf, cat.as_slice());
        let e_0 = h_scalar(buf.as_slice());
        let ghost fdl = final_pts@.map_values(|p: GroupPoint| p@);
        proof {
            assert(enc@.map_values(|b: Vec<u8>| b@) =~= fdl.map_values(|p: nat| batch_repr(p)));
            assert(buf@ =~= m@ + flatten_bytes(fdl.map_values(|p: nat| batch_repr(p))));
            assert(e_0@ == h_scalar_spec(m@ + flatten_bytes(fdl.map_values(|p: nat| batch_repr(p)))));
        }

        // Second pass: close each ring from the shared seed and patch the
        // digit slot, so that every patched ring's walk from the shared seed
        // ends on the final point hashed into it.
        let mut i: usize = 0;
        while i < 32
            invariant
                i <= 32,
                digits@.len() == 32,
                forall|k: int| 0 <= k < 32 ==> digits@[k] < 4,
                s@.len() == 32,
                forall|a: int| 0 <= a < 32 ==> (#[trigger] s@[a])@.len() == 4,
                e_start@.len() == 32,
                r_scalars@.len() == 32,
                rings@.len() == 32,
                forall|a: int| 0 <= a < 32 ==> (#[trigger] rings@[a])@.len() == 4,
                esv == e_start@.map_values(|x: GroupScalar| x@),
                rsv == r_scalars@.map_values(|x: GroupScalar| x@),
                forall|a: int| 0 <= a < 32 ==> rsv[a] < group_order(),
                forall|a: int| 0 <= a < 32 ==> (#[trigger] ringdl[a]).len() == 4,
                forall|a: int| 0 <= a < 32 ==> #[trigger] ringdl[a][digits@[a] as int] == rsv[a],
                forall|a: int, q: int|
                    0 <= a < 32 && 0 <= q < 4 ==> #[trigger] sv0[a][q] < group_order(),
                forall|a: int| 0 <= a < 32 ==> (#[trigger] sv0[a]).len() == 4,
                ringdl == rings@.map_values(
                    |rv: Vec<GroupPoint>| rv@.map_values(|p: GroupPoint| p@),
                ),
                e_0@ < group_order(),
                fdl.len() == 32,
                forall|a: int|
                    i <= a < 32 ==> (#[trigger] s@[a])@.map_values(|x: GroupScalar| x@)
                        == sv0[a],
                forall|a: int|
                    0 <= a < 32 ==> #[trigger] fdl[a] == cham_point(
                        borr_walk_steps(m@, esv[a], sv0[a], ringdl[a], digits@[a] as int, 3),
                        sv0[a][3],
                        ringdl[a][3],
                    ),
                forall|a: int|
                    0 <= a < i ==> cham_point(
                        borr_ring_walk(
                            m@,
                            e_0@,
                            (#[trigger] s@[a])@.map_values(|x: GroupScalar| x@),
                            ringdl[a],
                            0,
                        ),
                        s@[a]@.map_values(|x: GroupScalar| x@)[3],
                        ringdl[a][3],
                    ) == fdl[a],
            decreases 32 - i,
        {
            let ghost ii = i as int;
            let ghost dd = digits@[ii] as int;
            let mut eij = e_0;
            let digit = digits[i] as usize;
            let mut j: usize = 0;
            proof {
                assert(eij@ == borr_walk_steps(m@, e_0@, sv0[ii], ringdl[ii], 0, 0));
            }
            while j < digit
                invariant
                    j <= digit,
                    digit < 4,
                    i < 32,
                    ii == i as int,
                    dd == digit as int,
                    dd == digits@[ii] as int,
                    s@.len() == 32,
                    forall|a: int| 0 <= a < 32 ==> (#[trigger] s@[a])@.len() == 4,
                    rings@.len() == 32,
                    forall|a: int| 0 <= a < 32 ==> (#[trigger] rings@[a])@.len() == 4,
                    (s@[ii])@.map_values(|x: GroupScalar| x@) == sv0[ii],
                    ringdl == rings@.map_values(
                        |rv: Vec<GroupPoint>| rv@.map_values(|p: GroupPoint| p@),
                    ),
                    eij@ == borr_walk_steps(m@, e_0@, sv0[ii], ringdl[ii], 0, j as int),
                decreases digit - j,
            {
                let e_new = chameleon_step(&m, eij, s[i][j], rings[i][j]);
                proof {
                    assert(s@[ii]@[j as int]@ == sv0[ii][j as int]);
                    assert(rings@[ii]@[j as int]@ == ringdl[ii][j as int]);
                    lemma_steps_concat(m@, e_0@, sv0[ii], ringdl[ii], 0, j as int, j + 1);
                    lemma_steps_one(m@, eij@, sv0[ii], ringdl[ii], j as int);
                }
                eij = e_new;
                j = j + 1;
            }
            let ghost ed = eij@;
            let patched = s[i][digit].add(r_scalars[i].mul(e_start[i].sub(eij)));
            let ghost old_s = s@;
            let mut row = s.remove(i);
            row[digit] = patched;
            s.insert(i, row);
            proof {
                assert(s@ =~= old_s.update(ii, row));
                let rowv = s@[ii]@.map_values(|x: GroupScalar| x@);
                assert(rowv =~= sv0[ii].update(dd, patched@));
                assert(patched@ == sadd(sv0[ii][dd], smul(rsv[ii], ssub(esv[ii], ed))));
                lemma_steps_bound(m@, e_0@, sv0[ii], ringdl[ii], 0, dd);
                // The walk with the patched row agrees up to the digit slot.
                lemma_steps_agree(m@, e_0@, rowv, sv0[ii], ringdl[ii], 0, dd);
                // The patched chameleon point at the digit slot equals the
                // first-pass one.
                crate::modmath::lemma_patch_add(sv0[ii][dd], rsv[ii], esv[ii], ed);
                assert(cham_point(ed, patched@, rsv[ii]) == cham_point(
                    esv[ii],
                    sv0[ii][dd],
                    rsv[ii],
                ));
                assert(ringdl[ii][dd] == rsv[ii]);
                if dd < 3 {
                    assert(chameleon(m@, ed, rowv[dd], ringdl[ii][dd]) == chameleon(
                        m@,
                        esv[ii],
                        sv0[ii][dd],
                        ringdl[ii][dd],
                    ));
                    let mid = chameleon(m@, esv[ii], sv0[ii][dd], ringdl[ii][dd]);
                    lemma_steps_concat(m@, e_0@, rowv, ringdl[ii], 0, dd, 3);
                    lemma_steps_one(m@, ed, rowv, ringdl[ii], dd);
                    lemma_steps_concat(m@, ed, rowv, ringdl[ii], dd, dd + 1, 3);
                    lemma_steps_one(m@, esv[ii], sv0[ii], ringdl[ii], dd);
                    lemma_steps_concat(m@, esv[ii], sv0[ii], ringdl[ii], dd, dd + 1, 3);
                    lemma_steps_agree(m@, mid, rowv, sv0[ii], ringdl[ii], dd + 1, 3);
                    assert(borr_walk_steps(m@, e_0@, rowv, ringdl[ii], 0, 3) == borr_walk_steps(
                        m@,
                        esv[ii],
                        sv0[ii],
                        ringdl[ii],
                        dd,
                        3,
                    ));
                    assert(rowv[3] == sv0[ii][3]);
                } else {
                    lemma_steps_agree(m@, e_0@, rowv, sv0[ii], ringdl[ii], 0, 3);
                    assert(borr_walk_steps(m@, e_0@, rowv, ringdl[ii], 0, 3) == ed);
                    assert(borr_walk_steps(m@, esv[ii], sv0[ii], ringdl[ii], 3, 3) == esv[ii]);
                    assert(rowv[3] == patched@);
                }
                lemma_walk_is_steps(m@, e_0@, rowv, ringdl[ii], 0);
                assert(cham_point(
                    borr_ring_walk(m@, e_0@, rowv, ringdl[ii], 0),
                    rowv[3],
                    ringdl[ii][3],
                ) == fdl[ii]);
            }
            i = i + 1;
        }

        let result = BorromeanRangeProof { c_i: coms, e_0, s };
        proof {
            assert(result.spec_cs() =~= cvs);
            let sv_fin = result.spec_s();
            assert(sv_fin =~= s@.map_values(
                |row: Vec<GroupScalar>| row@.map_values(|x: GroupScalar| x@),
            ));
            let rseq = Seq::new(32, |a: int| borr_verify_ring(result.spec_cs()[a], a as nat));
            assert(ringdl =~~= rseq);
            assert(m@ == borr_m(rseq, point_repr(c_total@)));
            let pts = Seq::new(
                rseq.len(),
                |a: int|
                    cham_point(
                        borr_ring_walk(m@, result.spec_e0(), sv_fin[a], rseq[a], 0),
                        sv_fin[a][rseq[a].len() - 1],
                        rseq[a][rseq[a].len() - 1],
                    ),
            );
            assert(pts =~= fdl);
            assert(borr_final(m@, result.spec_e0(), sv_fin, rseq) == e_0@);
            assert(result.valid(c_total@));
        }
        Ok((Commitment(c_total), result))
    }

    /// Verify a Borromean rangeproof against its total commitment.
    pub fn verify(commitment: Commitment, proof: BorromeanRangeProof) -> (r: Result<
        (),
        RangeProofError,
    >)
        ensures
            r is Ok <==> proof.valid(commitment@),
            r matches Err(e) ==> e is Invalid,
    {
        let ghost cvs = proof.spec_cs();
        let ghost sv = proof.spec_s();

        // Shape checks: 32 digit commitments, 32 rows of 4 responses.
        proof {
            assert(cvs.len() == proof.c_i@.len());
            assert(sv.len() == proof.s@.len());
        }
        if proof.c_i.len() != 32 || proof.s.len() != 32 {
            return Err(RangeProofError::Invalid);
        }
        let mut i: usize = 0;
        while i < 32
            invariant
                i <= 32,
                sv == proof.spec_s(),
                proof.s@.len() == 32,
                forall|a: int| 0 <= a < i ==> (#[trigger] proof.s@[a])@.len() == 4,
            decreases 32 - i,
        {
            if proof.s[i].len() != 4 {
                proof {
                    assert(sv[i as int].len() == proof.s@[i as int]@.len());
                }
                return Err(RangeProofError::Invalid);
            }
            i = i + 1;
        }
        proof {
            assert(forall|a: int| 0 <= a < 32 ==> (#[trigger] sv[a]).len() == 4);
        }

        // The digit commitments must sum to the total commitment.
        let mut sum = GroupPoint::identity();
        let mut i: usize = 0;
        proof {
            lemma_mod_small(0);
            assert(cvs.subrange(0, 0) =~= Seq::<nat>::empty());
        }
        while i < proof.c_i.len()
            invariant
                i <= proof.c_i@.len(),
                cvs == proof.spec_cs(),
                proof.c_i@.len() == 32,
                sum@ == crate::curve::reduce(sum_coms_nat(cvs.subrange(0, i as int)) as int),
            decreases proof.c_i@.len() - i,
        {
            sum = sum.add(proof.c_i[i].0);
            proof {
                assert(cvs.subrange(0, i + 1).drop_last() =~= cvs.subrange(0, i as int));
                assert(cvs.subrange(0, i + 1).last() == cvs[i as int]);
                crate::modmath::lemma_add_mod_left(
                    sum_coms_nat(cvs.subrange(0, i as int)) as int,
                    cvs[i as int] as int,
                );
            }
            i = i + 1;
        }
        proof {
            assert(cvs.subrange(0, cvs.len() as int) =~= cvs);
        }
        if !(commitment.0 == sum) {
            return Err(RangeProofError::Invalid);
        }

        // Rebuild the candidate rings from the digit commitments.
        let (_, neg_table) = borromean_h_tables();
        let mut rings: Vec<Vec<GroupPoint>> = Vec::new();
        let mut i: usize = 0;
        while i < 32
            invariant
                i <= 32,
                cvs == proof.spec_cs(),
                proof.c_i@.len() == 32,
                neg_table@.len() == 32,
                forall|a: int| 0 <= a < 32 ==> (#[trigger] neg_table@[a])@.len() == 4,
                forall|a: int, j: int|
                    0 <= a < 32 && 0 <= j < 4 ==> (#[trigger] neg_table@[a]@[j])@ == borr_neg(
                        a as nat,
                        j as nat,
                    ),
                rings@.len() == i,
                forall|a: int|
                    0 <= a < i ==> (#[trigger] rings@[a])@.len() == 4 && rings@[a]@.map_values(
                        |p: GroupPoint| p@,
                    ) == borr_verify_ring(cvs[a], a as nat),
            decreases 32 - i,
        {
            let c_pt = proof.c_i[i].0;
            let mut ring: Vec<GroupPoint> = Vec::new();
            ring.push(c_pt);
            ring.push(neg_table[i][1].add(c_pt));
            ring.push(neg_table[i][2].add(c_pt));
            ring.push(neg_table[i][3].add(c_pt));
            proof {
                assert(ring@.map_values(|p: GroupPoint| p@) =~= borr_verify_ring(
                    cvs[i as int],
                    i as nat,
                ));
            }
            rings.push(ring);
            i = i + 1;
        }
        let ghost rseq = Seq::new(32, |i: int| borr_verify_ring(cvs[i], i as nat));
        proof {
            assert(rings@.map_values(|rv: Vec<GroupPoint>| rv@.map_values(|p: GroupPoint| p@))
                =~~= rseq);
        }

        let m = create_m(&rings, encode_point(&commitment.0).as_slice());
        let ghost msp = borr_m(rseq, point_repr(commitment@));
        proof {
            assert(m@ == msp);
        }

        // Walk every ring from the stored seed, collecting the final points.
        let mut final_pts: Vec<GroupPoint> = Vec::new();
        let mut i: usize = 0;
        while i < 32
            invariant
                i <= 32,
                cvs == proof.spec_cs(),
                sv == proof.spec_s(),
                m@ == msp,
                m@.len() == 32,
                proof.c_i@.len() == 32,
                proof.s@.len() == 32,
                forall|a: int| 0 <= a < 32 ==> (#[trigger] proof.s@[a])@.len() == 4,
                rings@.len() == 32,
                forall|a: int|
                    0 <= a < 32 ==> (#[trigger] rings@[a])@.len() == 4 && rings@[a]@.map_values(
                        |p: GroupPoint| p@,
                    ) == borr_verify_ring(cvs[a], a as nat),
                forall|a: int| 0 <= a < 32 ==> rseq[a] == borr_verify_ring(cvs[a], a as nat),
                final_pts@.len() == i,
                forall|a: int|
                    0 <= a < i ==> (#[trigger] final_pts@[a])@ == cham_point(
                        borr_ring_walk(msp, proof.spec_e0(), sv[a], rseq[a], 0),
                        sv[a][3],
                        rseq[a][3],
                    ),
            decreases 32 - i,
        {
            let fin = walk_one_ring(&m, proof.e_0, &proof.s[i], &rings[i]);
            proof {
                assert(proof.s@[i as int]@.map_values(|x: GroupScalar| x@) == sv[i as int]);
                assert(rings@[i as int]@.map_values(|p: GroupPoint| p@) == rseq[i as int]);
                assert(rseq[i as int].len() == 4);
            }
            final_pts.push(fin);
            i = i + 1;
        }

        let mut buf = vstd::slice::slice_to_vec(m.as_slice());
        let enc = batch_encode_points(&final_pts);
        let cat = crate::byteops::concat_byte_vecs(&enc);
        append_bytes(&mut buf, cat.as_slice());
        let e_check = h_scalar(buf.as_slice());
        proof {
            let pts = Seq::new(
                rseq.len(),
                |i: int|
                    cham_point(
                        borr_ring_walk(msp, proof.spec_e0(), sv[i], rseq[i], 0),
                        sv[i][rseq[i].len() - 1],
                        rseq[i][rseq[i].len() - 1],
                    ),
            );
            assert(final_pts@.map_values(|p: GroupPoint| p@) =~= pts);
            assert(enc@.map_values(|b: Vec<u8>| b@) =~= pts.map_values(|p: nat| batch_repr(p)));
            assert(buf@ =~= msp + flatten_bytes(pts.map_values(|p: nat| batch_repr(p))));
            assert(e_check@ == borr_final(msp, proof.spec_e0(), sv, rseq));
        }
        if e_check == proof.e_0 {
            Ok(())
        } else {
            Err(RangeProofError::Invalid)
        }
    }
}

/// Walk one 4-member ring from the shared seed to its final chameleon point.
fn walk_one_ring(
    m: &Vec<u8>,
    e_0: GroupScalar,
    s_row: &Vec<GroupScalar>,
    ring: &Vec<GroupPoint>,
) -> (r: GroupPoint)
    requires
        s_row@.len() == 4,
        ring@.len() == 4,
    ensures
        r@ == cham_point(
            borr_ring_walk(
                m@,
                e_0@,
                s_row@.map_values(|x: GroupScalar| x@),
                ring@.map_values(|p: GroupPoint| p@),
                0,
            ),
            s_row@.map_values(|x: GroupScalar| x@)[3],
            ring@.map_values(|p: GroupPoint| p@)[3],
        ),
{
    let ghost srow = s_row@.map_values(|x: GroupScalar| x@);
    let ghost ringv = ring@.map_values(|p: GroupPoint| p@);
    let mut eij = e_0;
    let mut j: usize = 0;
    while j < 3
        invariant
            j <= 3,
            s_row@.len() == 4,
            ring@.len() == 4,
            srow == s_row@.map_values(|x: GroupScalar| x@),
            ringv == ring@.map_values(|p: GroupPoint| p@),
            borr_ring_walk(m@, e_0@, srow, ringv, 0) == borr_ring_walk(
                m@,
                eij@,
                srow,
                ringv,
                j as int,
            ),
        decreases 3 - j,
    {
        let s_ij = s_row[j];
        proof {
            use_type_invariant(&s_ij);
            lemma_mod_small(s_ij@ as int);
            assert(srow[j as int] == s_ij@);
        }
        let pt = GroupPoint::basepoint().mul(s_ij).add(ring[j].mul(eij));
        let mut buf = vstd::slice::slice_to_vec(m.as_slice());
        let enc = encode_point(&pt);
        append_bytes(&mut buf, enc.as_slice());
        let ghost e_prev = eij@;
        eij = h_scalar(buf.as_slice());
        proof {
            assert(buf@ =~= m@ + point_repr(pt@));
            assert(pt@ == cham_point(e_prev, srow[j as int], ringv[j as int]));
            assert(eij@ == chameleon(m@, e_prev, srow[j as int], ringv[j as int]));
        }
        j = j + 1;
    }
    let s_3 = s_row[3];
    proof {
        use_type_invariant(&s_3);
        lemma_mod_small(s_3@ as int);
        assert(srow[3] == s_3@);
        assert(borr_ring_walk(m@, eij@, srow, ringv, 3) == eij@);
    }
    GroupPoint::basepoint().mul(s_3).add(ring[3].mul(eij))
}


/// The wire form of a Borromean rangeproof: the shared seed, the 32 digit
/// commitments, then the 32 rows of 4 response scalars; 5152 bytes in all.
pub open spec fn borr_proof_bytes(p: BorromeanRangeProof) -> Seq<u8> {
    crate::curve::le_bytes(p.spec_e0(), 32) + flatten_bytes(
        p.spec_cs().map_values(|c: nat| point_repr(c)),
    ) + flatten_bytes(
        p.spec_s().map_values(|row: Seq<nat>| crate::tobytes::scalar_list_bytes(row)),
    )
}

impl BorromeanRangeProof {
    /// Serialize the proof into its 5152-byte wire form; the output of a
    /// well-formed proof is always accepted back by `from_bytes`.
    pub fn to_bytes(&self) -> (r: Result<Vec<u8>, crate::errors::SerializationError>)
        ensures
            r matches Ok(b) ==> b@ == borr_proof_bytes(*self),
            r matches Ok(b) ==> (self.well_formed() ==> (b@.len() == 5152
                && crate::curve::le_val(b@.subrange(0, 32)) < group_order()
                && crate::tobytes::point_chunks_decodable(b@, 32, 32)
                && crate::tobytes::scalar_chunks_canonical(b@, 1056, 128))),
            r is Ok,
    {
        let ghost cvs = self.spec_cs();
        let ghost sv = self.spec_s();
        let mut buf = self.e_0.to_bytes();
        let ghost cblocks = cvs.map_values(|c: nat| point_repr(c));
        let ghost head = buf@;
        proof {
            assert(cblocks.subrange(0, 0) =~= Seq::<Seq<u8>>::empty());
        }
        let mut i: usize = 0;
        while i < self.c_i.len()
            invariant
                i <= self.c_i@.len(),
                cvs == self.spec_cs(),
                cblocks == cvs.map_values(|c: nat| point_repr(c)),
                head == crate::curve::le_bytes(self.spec_e0(), 32),
                buf@ == head + flatten_bytes(cblocks.subrange(0, i as int)),
                forall|a: int| 0 <= a < i ==> (#[trigger] cblocks[a]).len() == 32,
                forall|a: int| 0 <= a < i ==> #[trigger] cvs[a] < group_order(),
            decreases self.c_i@.len() - i,
        {
            let cpt = self.c_i[i].0;
            proof {
                use_type_invariant(&cpt);
            }
            let enc = cpt.encode();
            proof {
                crate::byteops::lemma_flatten_bytes_push(
                    cblocks.subrange(0, i as int),
                    cblocks[i as int],
                );
                assert(cblocks.subrange(0, i + 1) =~= cblocks.subrange(0, i as int).push(
                    cblocks[i as int],
                ));
            }
            append_bytes(&mut buf, enc.as_slice());
            i = i + 1;
        }
        proof {
            assert(cblocks.subrange(0, cblocks.len() as int) =~= cblocks);
        }
        let ghost mid = buf@;
        let ghost sblocks = sv.map_values(
            |row: Seq<nat>| crate::tobytes::scalar_list_bytes(row),
        );
        proof {
            assert(sblocks.subrange(0, 0) =~= Seq::<Seq<u8>>::empty());
        }
        let mut i: usize = 0;
        while i < self.s.len()
            invariant
                i <= self.s@.len(),
                sv == self.spec_s(),
                sblocks == sv.map_values(
                    |row: Seq<nat>| crate::tobytes::scalar_list_bytes(row),
                ),
                mid == head + flatten_bytes(cblocks),
                cblocks == cvs.map_values(|c: nat| point_repr(c)),
                head == crate::curve::le_bytes(self.spec_e0(), 32),
                cvs == self.spec_cs(),
                buf@ == mid + flatten_bytes(sblocks.subrange(0, i as int)),
                forall|a: int, q: int|
                    0 <= a < i && 0 <= q < sv[a].len() ==> #[trigger] sv[a][q]
                        < group_order(),
            decreases self.s@.len() - i,
        {
            proof {
                crate::byteops::lemma_flatten_bytes_push(
                    sblocks.subrange(0, i as int),
                    sblocks[i as int],
                );
                assert(sblocks.subrange(0, i + 1) =~= sblocks.subrange(0, i as int).push(
                    sblocks[i as int],
                ));
            }
            crate::tobytes::append_scalar_list(&mut buf, &self.s[i]);
            i = i + 1;
        }
        proof {
            assert(sblocks.subrange(0, sblocks.len() as int) =~= sblocks);
            assert(buf@ =~= borr_proof_bytes(*self));
            if self.well_formed() {
                use_type_invariant(&self.e_0);
                crate::tobytes::lemma_scalar_codec_round_trip(self.spec_e0());
                assert forall|a: int| 0 <= a < 32 implies (#[trigger] point_repr(
                    cvs[a],
                )).len() == 32 by {
                    assert(cblocks[a] == point_repr(cvs[a]));
                }
                crate::byteops::lemma_flatten_uniform(cblocks, 32);
                assert forall|a: int| 0 <= a < 32 implies (#[trigger] sblocks[a]).len()
                    == 128 by {
                    let rb = sv[a].map_values(|v: nat| crate::curve::le_bytes(v, 32));
                    assert forall|q: int| 0 <= q < rb.len() implies (#[trigger] rb[q]).len()
                        == 32 by {
                        crate::tobytes::lemma_le_bytes_val(sv[a][q], 32);
                    }
                    crate::byteops::lemma_flatten_uniform(rb, 32);
                }
                crate::byteops::lemma_flatten_uniform(sblocks, 128);
                assert(buf@.len() == 5152);
                assert(buf@.subrange(0, 32) =~= crate::curve::le_bytes(self.spec_e0(), 32));
                assert(buf@.subrange(32, 1056) =~= flatten_bytes(cblocks));
                crate::tobytes::lemma_point_list_decodable(buf@, 32, cvs);
                assert(buf@.subrange(1056, 5152) =~= flatten_bytes(sblocks));
                crate::tobytes::lemma_scalar_rows_canonical(buf@, 1056, sv);
            }
        }
        Ok(buf)
    }

    /// Deserialize a proof from its 5152-byte wire form; accepts exactly
    /// 5152 bytes with a canonical seed scalar, 32 canonical point
    /// encodings and 128 canonical response scalars, and a decoded proof is
    /// well formed and serializes back to the given bytes.
    pub fn from_bytes(bytes: &[u8]) -> (r: Result<
        BorromeanRangeProof,
        crate::errors::SerializationError,
    >)
        ensures
            r is Ok <==> (bytes@.len() == 5152 && crate::curve::le_val(bytes@.subrange(0, 32))
                < group_order() && crate::tobytes::point_chunks_decodable(bytes@, 32, 32)
                && crate::tobytes::scalar_chunks_canonical(bytes@, 1056, 128)),
            r matches Ok(p) ==> borr_proof_bytes(p) == bytes@ && p.well_formed(),
            r matches Err(e) ==> e is DecodingError,
    {
        if bytes.len() != 5152 {
            return Err(crate::errors::SerializationError::DecodingError);
        }
        let e_0 = match GroupScalar::from_canonical_bytes(
            vstd::slice::slice_subrange(bytes, 0, 32),
        ) {
            Some(s) => s,
            None => {
                return Err(crate::errors::SerializationError::DecodingError);
            },
        };
        let mut c_i: Vec<Commitment> = Vec::new();
        let mut i: usize = 0;
        while i < 32
            invariant
                i <= 32,
                bytes@.len() == 5152,
                c_i@.len() == i,
                crate::tobytes::point_chunks_decodable(bytes@, 32, i as int),
                flatten_bytes(
                    c_i@.map_values(|c: Commitment| c@).map_values(|c: nat| point_repr(c)),
                ) == bytes@.subrange(32, 32 + 32 * i),
            decreases 32 - i,
        {
            let ghost pre = c_i@.map_values(|c: Commitment| c@).map_values(
                |c: nat| point_repr(c),
            );
            let lo = 32 + 32 * i;
            let chunk = vstd::slice::slice_subrange(bytes, lo, lo + 32);
            let p = match GroupPoint::decode(chunk) {
                Some(p) => p,
                None => {
                    proof {
                        if crate::tobytes::point_chunks_decodable(bytes@, 32, 32) {
                            crate::tobytes::lemma_point_chunk_at(bytes@, 32, 32, i as int);
                        }
                    }
                    return Err(crate::errors::SerializationError::DecodingError);
                },
            };
            proof {
                assert(bytes@.subrange(32 + 32 * ((i + 1) - 1), 32 + 32 * (i + 1)) =~= chunk@);
                assert(crate::tobytes::decodable_point(chunk@));
            }
            c_i.push(Commitment(p));
            proof {
                let post = c_i@.map_values(|c: Commitment| c@).map_values(
                    |c: nat| point_repr(c),
                );
                assert(post =~= pre.push(point_repr(p@)));
                crate::byteops::lemma_flatten_bytes_push(pre, point_repr(p@));
                assert(point_repr(p@) == chunk@);
                assert(bytes@.subrange(32, 32 + 32 * (i + 1)) =~= bytes@.subrange(
                    32,
                    32 + 32 * i,
                ) + chunk@);
            }
            i = i + 1;
        }
        let mut rows: Vec<Vec<GroupScalar>> = Vec::new();
        let mut i: usize = 0;
        while i < 32
            invariant
                i <= 32,
                bytes@.len() == 5152,
                rows@.len() == i,
                forall|a: int| 0 <= a < i ==> (#[trigger] rows@[a])@.len() == 4,
                crate::tobytes::scalar_chunks_canonical(bytes@, 1056, 4 * i),
                flatten_bytes(
                    rows@.map_values(
                        |row: Vec<GroupScalar>| crate::tobytes::scalar_list_bytes(
                            row@.map_values(|x: GroupScalar| x@),
                        ),
                    ),
                ) == bytes@.subrange(1056, 1056 + 128 * i),
            decreases 32 - i,
        {
            let ghost pre = rows@.map_values(
                |row: Vec<GroupScalar>| crate::tobytes::scalar_list_bytes(
                    row@.map_values(|x: GroupScalar| x@),
                ),
            );
            let lo = 1056 + 128 * i;
            let row = match crate::tobytes::parse_scalar_list(bytes, lo, 4) {
                Ok(v) => v,
                Err(e) => {
                    proof {
                        if crate::tobytes::scalar_chunks_canonical(bytes@, 1056, 128) {
                            crate::tobytes::lemma_scalar_chunks_split(
                                bytes@,
                                1056,
                                4 * i,
                                128 - 4 * i,
                            );
                            crate::tobytes::lemma_scalar_chunks_split(
                                bytes@,
                                1056 + 32 * (4 * i),
                                4,
                                128 - 4 * i - 4,
                            );
                        }
                    }
                    return Err(e);
                },
            };
            proof {
                crate::tobytes::lemma_scalar_chunks_split(bytes@, 1056, 4 * i, 4);
            }
            rows.push(row);
            proof {
                let rv = rows@[i as int]@.map_values(|x: GroupScalar| x@);
                let post = rows@.map_values(
                    |row: Vec<GroupScalar>| crate::tobytes::scalar_list_bytes(
                        row@.map_values(|x: GroupScalar| x@),
                    ),
                );
                assert(post =~= pre.push(crate::tobytes::scalar_list_bytes(rv)));
                crate::byteops::lemma_flatten_bytes_push(
                    pre,
                    crate::tobytes::scalar_list_bytes(rv),
                );
                assert(bytes@.subrange(1056, 1056 + 128 * (i + 1)) =~= bytes@.subrange(
                    1056,
                    1056 + 128 * i,
                ) + bytes@.subrange(lo as int, lo + 128));
            }
            i = i + 1;
        }
        let pf = BorromeanRangeProof { c_i, e_0, s: rows };
        proof {
            crate::tobytes::lemma_le_val_bytes(bytes@.subrange(0, 32));
            assert(pf.spec_s() =~= rows@.map_values(
                |row: Vec<GroupScalar>| row@.map_values(|x: GroupScalar| x@),
            ));
            assert(pf.spec_s().map_values(
                |row: Seq<nat>| crate::tobytes::scalar_list_bytes(row),
            ) =~= rows@.map_values(
                |row: Vec<GroupScalar>| crate::tobytes::scalar_list_bytes(
                    row@.map_values(|x: GroupScalar| x@),
                ),
            ));
            assert(borr_proof_bytes(pf) =~= bytes@);
        }
        Ok(pf)
    }
}

} // verus!\n