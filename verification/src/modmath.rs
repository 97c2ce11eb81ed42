//! Arithmetic lemmas about residues modulo the group order, shared by the
//! commitment and signature proofs.

use vstd::prelude::*;

use vstd::arithmetic::div_mod::{
    lemma_add_mod_noop, lemma_fundamental_div_mod, lemma_mod_multiples_vanish, lemma_mod_twice,
    lemma_mul_mod_noop_left, lemma_mul_mod_noop_right, lemma_small_mod,
};

use crate::curve::{group_order, sadd, smul, sneg, ssub};

verus! {

/// The group order as an `int`.
pub open spec fn order_int() -> int {
    group_order() as int
}

/// Reducing the left summand first does not change a sum modulo the order.
pub proof fn lemma_add_mod_left(x: int, y: int)
    ensures
        ((x % order_int()) + y) % order_int() == (x + y) % order_int(),
{
    lemma_add_mod_noop(x % order_int(), y, order_int());
    lemma_mod_twice(x, order_int());
    lemma_add_mod_noop(x, y, order_int());
}

/// Reducing the right summand first does not change a sum modulo the order.
pub proof fn lemma_add_mod_right(x: int, y: int)
    ensures
        (x + (y % order_int())) % order_int() == (x + y) % order_int(),
{
    lemma_add_mod_left(y, x);
}

/// A residue below the order is its own reduction.
pub proof fn lemma_mod_small(x: int)
    requires
        0 <= x < order_int(),
    ensures
        x % order_int() == x,
{
    lemma_small_mod(x as nat, group_order());
}

/// Reduction of a value already within twice the modulus: either the value
/// itself or the value less one modulus.
pub proof fn lemma_mod_double_range(x: int, n: int)
    requires
        n > 0,
        0 <= x < 2 * n,
    ensures
        x % n == if x < n {
            x
        } else {
            x - n
        },
{
    if x < n {
        lemma_small_mod(x as nat, n as nat);
    } else {
        lemma_mod_multiples_vanish(1, x - n, n);
        lemma_small_mod((x - n) as nat, n as nat);
    }
}

/// Reducing both operands of a difference first does not change it modulo
/// the order (the difference is taken by adding one order first).
pub proof fn lemma_sub_mod(x: int, y: int)
    requires
        x >= 0,
        y >= 0,
    ensures
        ((x % order_int()) + order_int() - (y % order_int())) % order_int() == (x - y)
            % order_int(),
{
    let o = order_int();
    lemma_add_mod_left(x, o - (y % o));
    lemma_fundamental_div_mod(y, o);
    assert(x + o - (y % o) == o * (1 + y / o) + (x - y));
    lemma_mod_multiples_vanish(1 + y / o, x - y, o);
}

/// Multiplication of residues commutes.
pub proof fn lemma_smul_comm(a: nat, b: nat)
    ensures
        smul(a, b) == smul(b, a),
{
    assert(a * b == b * a) by (nonlinear_arith);
}

/// Multiplication of residues is associative.
pub proof fn lemma_smul_assoc(a: nat, b: nat, c: nat)
    ensures
        smul(smul(a, b), c) == smul(a, smul(b, c)),
{
    let o = order_int();
    lemma_mul_mod_noop_left((a * b) as int, c as int, o);
    lemma_mul_mod_noop_right(a as int, (b * c) as int, o);
    assert((a * b) * c == a * (b * c)) by (nonlinear_arith);
}

/// Multiplication of residues distributes over their addition.
pub proof fn lemma_smul_sadd(a: nat, b: nat, c: nat)
    ensures
        smul(a, sadd(b, c)) == sadd(smul(a, b), smul(a, c)),
{
    let o = order_int();
    lemma_mul_mod_noop_right(a as int, (b + c) as int, o);
    assert(a * (b + c) == a * b + a * c) by (nonlinear_arith);
    lemma_add_mod_left((a * b) as int, (a * c) as int);
    lemma_add_mod_right(((a * b) as int % o), (a * c) as int);
}

/// Multiplication of residues distributes over their subtraction.
pub proof fn lemma_smul_ssub(a: nat, b: nat, c: nat)
    requires
        c < group_order(),
    ensures
        smul(a, ssub(b, c)) == ssub(smul(a, b), smul(a, c)),
{
    let o = order_int();
    lemma_mul_mod_noop_right(a as int, (b + group_order() - c) as int, o);
    assert(a * ((b + group_order() - c) as int) == o * (a as int) + (a * b - a * c)) by (nonlinear_arith)
        requires
            o == group_order() as int,
    ;
    lemma_mod_multiples_vanish(a as int, (a * b) as int - (a * c) as int, o);
    lemma_sub_mod((a * b) as int, (a * c) as int);
}

/// Addition of residues is associative.
pub proof fn lemma_sadd_assoc(a: nat, b: nat, c: nat)
    ensures
        sadd(sadd(a, b), c) == sadd(a, sadd(b, c)),
{
    lemma_add_mod_left((a + b) as int, c as int);
    lemma_add_mod_right(a as int, (b + c) as int);
}

/// Subtracting a residue and adding it back cancels.
pub proof fn lemma_sadd_ssub_cancel(a: nat, b: nat)
    requires
        a < group_order(),
        b < group_order(),
    ensures
        sadd(ssub(a, b), b) == a,
{
    let o = order_int();
    lemma_add_mod_left((a + group_order() - b) as int, b as int);
    lemma_mod_multiples_vanish(1, a as int, o);
    lemma_mod_small(a as int);
}

/// Negating a residue and adding it to a sum that contains it cancels.
pub proof fn lemma_sneg_cancel(r: nat, p: nat)
    requires
        r < group_order(),
        p < group_order(),
    ensures
        sadd(sneg(p), sadd(r, p)) == r,
{
    let o = order_int();
    lemma_add_mod_left((group_order() - p) as int, ((r + p) as int % o));
    lemma_add_mod_right((group_order() - p) as int, (r + p) as int);
    lemma_mod_multiples_vanish(1, r as int, o);
    lemma_mod_small(r as int);
}

/// Multiplying a residue by one is the identity.
pub proof fn lemma_smul_one(a: nat)
    requires
        a < group_order(),
    ensures
        smul(1, a) == a,
{
    assert(1 * a == a) by (nonlinear_arith);
    lemma_mod_small(a as int);
}

/// Shifting a commitment by another commitment to the same value leaves
/// exactly the difference of the blindings.
pub proof fn lemma_commit_shift(v: nat, b: nat, p: nat)
    requires
        b < group_order(),
        p < group_order(),
    ensures
        ssub(
            crate::pedersen::commit_spec(v, b),
            crate::pedersen::commit_spec(v, p),
        ) == ssub(b, p),
{
    let o = order_int();
    let h = crate::pedersen::pedersen_h();
    lemma_sub_mod((b + v * h) as int, (p + v * h) as int);
    lemma_mod_multiples_vanish(1, b as int - p as int, o);
    lemma_sub_mod(b as int, p as int);
    lemma_mod_small(b as int);
    lemma_mod_small(p as int);
}

/// The subtraction patch: adding back the multiple that was subtracted
/// restores the original residue.
pub proof fn lemma_patch_sub(s: nat, w: nat, e: nat)
    requires
        s < group_order(),
    ensures
        sadd(ssub(s, smul(e, w)), smul(w, e)) == s,
{
    lemma_smul_comm(e, w);
    lemma_sadd_ssub_cancel(s, smul(e, w));
}

/// The addition patch: a residue raised by a multiple of a difference, then
/// by the multiple of the subtrahend, equals it raised by the multiple of
/// the minuend.
pub proof fn lemma_patch_add(a: nat, r: nat, x: nat, y: nat)
    requires
        y < group_order(),
    ensures
        sadd(sadd(a, smul(r, ssub(x, y))), smul(r, y)) == sadd(a, smul(r, x)),
{
    lemma_smul_ssub(r, x, y);
    lemma_sadd_assoc(a, ssub(smul(r, x), smul(r, y)), smul(r, y));
    lemma_sadd_ssub_cancel(smul(r, x), smul(r, y));
    lemma_mod_small(smul(r, x) as int);
}

/// Two successive subtractions fold into a subtraction of the sum.
pub proof fn lemma_ssub_ssub(a: nat, b: nat, c: nat)
    requires
        b < group_order(),
        c < group_order(),
    ensures
        ssub(ssub(a, b), c) == ssub(a, sadd(b, c)),
{
    let o = order_int();
    let g = group_order();
    lemma_add_mod_left((a + g - b) as int, (g - c) as int);
    assert(a + g - b + (g - c) == o * 2 + (a as int - b - c));
    lemma_mod_multiples_vanish(2, a as int - b - c, o);
    lemma_fundamental_div_mod((b + c) as int, o);
    let q = (b + c) as int / o;
    assert(a + g - sadd(b, c) == o * (1 + q) + (a as int - b - c));
    lemma_mod_multiples_vanish(1 + q, a as int - b - c, o);
}

} // verus!
