//! Pedersen commitments' two generators.
//!
//! `G` is the canonical basepoint of the group; `H` is derived once and
//! deterministically by hashing the encoding of `G` onto the curve, so no
//! discrete-log relation between the two is known.

use vstd::prelude::*;

use crate::curve::{encode_point, point_repr, reduce, GroupPoint};
use crate::hashes::{h_point, h_point_spec};

verus! {

/// Discrete logarithm of the Pedersen value generator `H`: the hash-to-point
/// of the canonical encoding of the basepoint.
pub open spec fn pedersen_h() -> nat {
    h_point_spec(point_repr(1))
}

/// The commitment to `value` under `blinding`:
/// `blinding * G + value * H`, as a discrete logarithm modulo the order.
pub open spec fn commit_spec(value: nat, blinding: nat) -> nat {
    reduce((blinding + value * pedersen_h()) as int)
}

/// The Pedersen blinding generator `G`: the basepoint itself.
pub fn pedersen_g_point() -> (r: GroupPoint)
    ensures
        r@ == 1,
{
    GroupPoint::basepoint()
}

/// The Pedersen value generator `H`, derived by hashing the encoding of `G`
/// onto the curve.
pub fn pedersen_h_point() -> (r: GroupPoint)
    ensures
        r@ == pedersen_h(),
{
    let g = GroupPoint::basepoint();
    let encoded = encode_point(&g);
    h_point(encoded.as_slice())
}

} // verus!
