//! Elliptic-curve layer: scalars and points of the Ristretto prime-order group.
//!
//! The group is cyclic of prime order, so every point is a unique multiple of
//! the basepoint `G`.  A `GroupScalar` is modelled by its residue modulo the group
//! order and a `GroupPoint` by its discrete logarithm with respect to `G`; both are
//! natural numbers below `group_order()`.  All group arithmetic is delegated
//! to `curve25519_dalek` through trusted wrappers whose contracts speak of
//! these models.

use vstd::prelude::*;

verus! {

/// The order of the Ristretto group: 2^252 + 27742317777372353535851937790883648493.
pub open spec fn group_order() -> nat {
    0x1000000000000000000000000000000014def9dea2f79cd65812631a5cf5d3ednat
}

/// Value of a little-endian byte string.
pub open spec fn le_val(s: Seq<u8>) -> nat
    decreases s.len(),
{
    if s.len() == 0 {
        0
    } else {
        (s[0] + 256 * le_val(s.skip(1))) as nat
    }
}

/// The `n`-byte little-endian encoding of `v` (mod 256^n).
pub open spec fn le_bytes(v: nat, n: nat) -> Seq<u8>
    decreases n,
{
    if n == 0 {
        Seq::empty()
    } else {
        seq![(v % 256) as u8] + le_bytes(v / 256, (n - 1) as nat)
    }
}

/// Reduction modulo the group order.
pub open spec fn reduce(x: int) -> nat {
    (x % (group_order() as int)) as nat
}

/// Addition modulo the group order.
pub open spec fn sadd(a: nat, b: nat) -> nat {
    reduce((a + b) as int)
}

/// Subtraction modulo the group order.
pub open spec fn ssub(a: nat, b: nat) -> nat {
    reduce(a + group_order() - b)
}

/// Multiplication modulo the group order.
pub open spec fn smul(a: nat, b: nat) -> nat {
    reduce((a * b) as int)
}

/// Negation modulo the group order.
pub open spec fn sneg(a: nat) -> nat {
    reduce((group_order() - a) as int)
}

/// The canonical 32-byte compressed Ristretto encoding of the point whose
/// discrete logarithm is `dl`; the encoding is injective on the group.
pub uninterp spec fn point_repr(dl: nat) -> Seq<u8>;

/// Discrete logarithm of the point produced by the uniform-bytes map from a
/// 64-byte string.
pub uninterp spec fn uniform_point(bytes: Seq<u8>) -> nat;

#[verifier::external_type_specification]
#[verifier::external_body]
pub struct ExScalar(curve25519_dalek::scalar::Scalar);

#[verifier::external_type_specification]
#[verifier::external_body]
pub struct ExPoint(curve25519_dalek::ristretto::RistrettoPoint);

/// An element of the scalar field of the Ristretto group, modelled by its
/// residue modulo `group_order()`.
#[derive(Clone, Copy)]
pub struct GroupScalar {
    pub(crate) inner: curve25519_dalek::scalar::Scalar,
    pub(crate) residue: Ghost<nat>,
}

impl View for GroupScalar {
    type V = nat;

    closed spec fn view(&self) -> nat {
        self.residue@
    }
}

impl GroupScalar {
    #[verifier::type_invariant]
    pub open spec fn type_inv(self) -> bool {
        self@ < group_order()
    }

    /// Relies on `curve25519_dalek::scalar::Scalar::ZERO`.
    #[verifier::external_body]
    pub fn zero() -> (r: GroupScalar)
        ensures
            r@ == 0,
    {
        GroupScalar { inner: curve25519_dalek::scalar::Scalar::ZERO, residue: Ghost(0) }
    }

    /// Relies on `curve25519_dalek::scalar::Scalar::ONE`.
    #[verifier::external_body]
    pub fn one() -> (r: GroupScalar)
        ensures
            r@ == 1,
    {
        GroupScalar { inner: curve25519_dalek::scalar::Scalar::ONE, residue: Ghost(0) }
    }

    /// Relies on `curve25519_dalek::scalar::Scalar::from(u64)`, which embeds a
    /// 64-bit integer (always below the group order) into the field.
    #[verifier::external_body]
    pub fn from_u64(v: u64) -> (r: GroupScalar)
        ensures
            r@ == v,
    {
        GroupScalar { inner: curve25519_dalek::scalar::Scalar::from(v), residue: Ghost(0) }
    }

    /// Relies on `curve25519_dalek` scalar addition, which is addition modulo
    /// the group order.
    #[verifier::external_body]
    pub fn add(self, rhs: GroupScalar) -> (r: GroupScalar)
        ensures
            r@ == sadd(self@, rhs@),
    {
        GroupScalar { inner: self.inner + rhs.inner, residue: Ghost(0) }
    }

    /// Relies on `curve25519_dalek` scalar subtraction modulo the group order.
    #[verifier::external_body]
    pub fn sub(self, rhs: GroupScalar) -> (r: GroupScalar)
        ensures
            r@ == ssub(self@, rhs@),
    {
        GroupScalar { inner: self.inner - rhs.inner, residue: Ghost(0) }
    }

    /// Relies on `curve25519_dalek` scalar multiplication modulo the group order.
    #[verifier::external_body]
    pub fn mul(self, rhs: GroupScalar) -> (r: GroupScalar)
        ensures
            r@ == smul(self@, rhs@),
    {
        GroupScalar { inner: self.inner * rhs.inner, residue: Ghost(0) }
    }

    /// Relies on `curve25519_dalek::scalar::Scalar::from_bytes_mod_order`:
    /// the 256-bit little-endian value reduced modulo the group order.
    #[verifier::external_body]
    pub fn from_bytes_mod_order(bytes: &[u8]) -> (r: GroupScalar)
        requires
            bytes@.len() == 32,
        ensures
            r@ == le_val(bytes@) % group_order(),
    {
        let arr: [u8; 32] = bytes.try_into().unwrap();
        GroupScalar {
            inner: curve25519_dalek::scalar::Scalar::from_bytes_mod_order(arr),
            residue: Ghost(0),
        }
    }

    /// Relies on `curve25519_dalek::scalar::Scalar::from_bytes_mod_order_wide`:
    /// the 512-bit little-endian value reduced modulo the group order.
    #[verifier::external_body]
    pub fn from_bytes_mod_order_wide(bytes: &[u8]) -> (r: GroupScalar)
        requires
            bytes@.len() == 64,
        ensures
            r@ == le_val(bytes@) % group_order(),
    {
        let arr: [u8; 64] = bytes.try_into().unwrap();
        GroupScalar {
            inner: curve25519_dalek::scalar::Scalar::from_bytes_mod_order_wide(&arr),
            residue: Ghost(0),
        }
    }

    /// Relies on `curve25519_dalek::scalar::Scalar::from_canonical_bytes`:
    /// accepts exactly the 32-byte little-endian encodings of values below
    /// the group order.
    #[verifier::external_body]
    pub fn from_canonical_bytes(bytes: &[u8]) -> (r: Option<GroupScalar>)
        ensures
            match r {
                Some(s) => bytes@.len() == 32 && le_val(bytes@) < group_order() && s@ == le_val(
                    bytes@,
                ),
                None => !(bytes@.len() == 32 && le_val(bytes@) < group_order()),
            },
    {
        let arr: [u8; 32] = match bytes.try_into() {
            Ok(arr) => arr,
            Err(_) => {
                return None;
            },
        };
        let ct = curve25519_dalek::scalar::Scalar::from_canonical_bytes(arr);
        if bool::from(ct.is_some()) {
            Some(GroupScalar { inner: ct.unwrap(), residue: Ghost(0) })
        } else {
            None
        }
    }

    /// Relies on `curve25519_dalek::scalar::Scalar::to_bytes`: the canonical
    /// 32-byte little-endian encoding of the reduced representative.
    #[verifier::external_body]
    pub fn to_bytes(&self) -> (r: Vec<u8>)
        ensures
            r@ == le_bytes(self@, 32),
            r@.len() == 32,
    {
        self.inner.to_bytes().to_vec()
    }

    /// Relies on `curve25519_dalek` scalar equality, which holds exactly when
    /// the residues are equal.
    #[verifier::external_body]
    fn eq_scalar(&self, rhs: &GroupScalar) -> (r: bool)
        ensures
            r == (self@ == rhs@),
    {
        self.inner == rhs.inner
    }
}

impl PartialEq for GroupScalar {
    fn eq(&self, other: &GroupScalar) -> (r: bool) {
        self.eq_scalar(other)
    }
}

impl Eq for GroupScalar {

}

impl vstd::std_specs::cmp::PartialEqSpecImpl for GroupScalar {
    open spec fn obeys_eq_spec() -> bool {
        true
    }

    open spec fn eq_spec(&self, other: &GroupScalar) -> bool {
        self@ == other@
    }
}

/// An element of the Ristretto group, modelled by its discrete logarithm
/// with respect to the basepoint.
#[derive(Clone, Copy)]
pub struct GroupPoint {
    pub(crate) inner: curve25519_dalek::ristretto::RistrettoPoint,
    pub(crate) dlog: Ghost<nat>,
}

impl View for GroupPoint {
    type V = nat;

    closed spec fn view(&self) -> nat {
        self.dlog@
    }
}

impl GroupPoint {
    #[verifier::type_invariant]
    pub open spec fn type_inv(self) -> bool {
        self@ < group_order()
    }

    /// Relies on `curve25519_dalek::constants::RISTRETTO_BASEPOINT_POINT`,
    /// the basepoint `G` itself.
    #[verifier::external_body]
    pub fn basepoint() -> (r: GroupPoint)
        ensures
            r@ == 1,
    {
        GroupPoint {
            inner: curve25519_dalek::constants::RISTRETTO_BASEPOINT_POINT,
            dlog: Ghost(0),
        }
    }

    /// Relies on `curve25519_dalek::traits::Identity` for `RistrettoPoint`.
    #[verifier::external_body]
    pub fn identity() -> (r: GroupPoint)
        ensures
            r@ == 0,
    {
        GroupPoint {
            inner: <curve25519_dalek::ristretto::RistrettoPoint as curve25519_dalek::traits::Identity>::identity(),
            dlog: Ghost(0),
        }
    }

    /// Relies on `curve25519_dalek` point addition; discrete logarithms add
    /// modulo the group order.
    #[verifier::external_body]
    pub fn add(self, rhs: GroupPoint) -> (r: GroupPoint)
        ensures
            r@ == sadd(self@, rhs@),
    {
        GroupPoint { inner: self.inner + rhs.inner, dlog: Ghost(0) }
    }

    /// Relies on `curve25519_dalek` point subtraction.
    #[verifier::external_body]
    pub fn sub(self, rhs: GroupPoint) -> (r: GroupPoint)
        ensures
            r@ == ssub(self@, rhs@),
    {
        GroupPoint { inner: self.inner - rhs.inner, dlog: Ghost(0) }
    }

    /// Relies on `curve25519_dalek` point negation.
    #[verifier::external_body]
    pub fn neg(self) -> (r: GroupPoint)
        ensures
            r@ == sneg(self@),
    {
        GroupPoint { inner: -self.inner, dlog: Ghost(0) }
    }

    /// Relies on `curve25519_dalek` scalar-by-point multiplication; the
    /// discrete logarithm is multiplied modulo the group order.
    #[verifier::external_body]
    pub fn mul(self, rhs: GroupScalar) -> (r: GroupPoint)
        ensures
            r@ == smul(self@, rhs@),
    {
        GroupPoint { inner: self.inner * rhs.inner, dlog: Ghost(0) }
    }

    /// Relies on `RistrettoPoint::compress` followed by
    /// `CompressedRistretto::to_bytes`: the canonical 32-byte encoding.
    #[verifier::external_body]
    pub fn encode(&self) -> (r: Vec<u8>)
        ensures
            r@ == point_repr(self@),
            r@.len() == 32,
    {
        self.inner.compress().to_bytes().to_vec()
    }

    /// Relies on `CompressedRistretto::decompress`, which accepts exactly the
    /// canonical encodings; the encoding is injective on the group.
    #[verifier::external_body]
    pub fn decode(bytes: &[u8]) -> (r: Option<GroupPoint>)
        ensures
            match r {
                Some(p) => p@ < group_order() && point_repr(p@) == bytes@ && (forall|dl: nat|
                    dl < group_order() && point_repr(dl) == bytes@ ==> dl == p@),
                None => forall|dl: nat| dl < group_order() ==> point_repr(dl) != bytes@,
            },
    {
        if bytes.len() != 32 {
            return None;
        }
        let compressed = match curve25519_dalek::ristretto::CompressedRistretto::from_slice(
            bytes,
        ) {
            Ok(c) => c,
            Err(_) => {
                return None;
            },
        };
        match compressed.decompress() {
            Some(p) => Some(GroupPoint { inner: p, dlog: Ghost(0) }),
            None => None,
        }
    }

    /// Relies on `RistrettoPoint::from_uniform_bytes`, a deterministic map
    /// from 64-byte strings into the group.
    #[verifier::external_body]
    pub fn from_uniform_bytes(bytes: &[u8]) -> (r: GroupPoint)
        requires
            bytes@.len() == 64,
        ensures
            r@ == uniform_point(bytes@),
    {
        let arr: [u8; 64] = bytes.try_into().unwrap();
        GroupPoint {
            inner: curve25519_dalek::ristretto::RistrettoPoint::from_uniform_bytes(&arr),
            dlog: Ghost(0),
        }
    }

    /// Relies on `curve25519_dalek` point equality, which holds exactly when
    /// the two group elements (hence their discrete logarithms) are equal.
    #[verifier::external_body]
    fn eq_point(&self, rhs: &GroupPoint) -> (r: bool)
        ensures
            r == (self@ == rhs@),
    {
        self.inner == rhs.inner
    }
}

impl PartialEq for GroupPoint {
    fn eq(&self, other: &GroupPoint) -> (r: bool) {
        self.eq_point(other)
    }
}

impl Eq for GroupPoint {

}

impl vstd::std_specs::cmp::PartialEqSpecImpl for GroupPoint {
    open spec fn obeys_eq_spec() -> bool {
        true
    }

    open spec fn eq_spec(&self, other: &GroupPoint) -> bool {
        self@ == other@
    }
}

/// The batch encoding of a point: the canonical encoding of its double.
pub open spec fn batch_repr(dl: nat) -> Seq<u8> {
    point_repr(smul(2, dl))
}

/// Encode a point to a 32-byte array for hashing purposes.
pub fn encode_point(point: &GroupPoint) -> (r: Vec<u8>)
    ensures
        r@ == point_repr(point@),
        r@.len() == 32,
{
    point.encode()
}

/// Efficient batch encoding of points for hashing purposes.
///
/// The batched path encodes the *double* of each point, so its output differs
/// from `encode_point` on the same input; any one protocol step must use one
/// of the two consistently.
///
/// Relies on `RistrettoPoint::double_and_compress_batch`, which returns the
/// canonical encodings of the doubles of the input points.
#[verifier::external_body]
pub fn batch_encode_points(points: &Vec<GroupPoint>) -> (r: Vec<Vec<u8>>)
    ensures
        r@.len() == points@.len(),
        forall|i: int|
            0 <= i < r@.len() ==> r@[i]@ == batch_repr(points@[i]@) && r@[i]@.len() == 32,
{
    let inner: Vec<curve25519_dalek::ristretto::RistrettoPoint> =
        points.iter().map(|p| p.inner).collect();
    curve25519_dalek::ristretto::RistrettoPoint::double_and_compress_batch(&inner)
        .into_iter()
        .map(|c| c.to_bytes().to_vec())
        .collect()
}

/// Relies on `rand::Rng::fill` over `rand::thread_rng` to draw uniform bytes.
#[verifier::external_body]
fn random_bytes_64() -> (r: Vec<u8>)
    ensures
        r@.len() == 64,
{
    let mut bytes = [0u8; 64];
    rand::Rng::fill(&mut rand::thread_rng(), &mut bytes[..]);
    bytes.to_vec()
}

/// Return a uniformly random scalar, from 64 random bytes reduced modulo the
/// group order.
pub fn random_scalar() -> GroupScalar {
    let bytes = random_bytes_64();
    GroupScalar::from_bytes_mod_order_wide(bytes.as_slice())
}

/// Return a random point on the curve.
pub fn random_point() -> GroupPoint {
    GroupPoint::basepoint().mul(random_scalar())
}

} // verus!
