//! Bulletproofs+ rangeproofs.
//!
//! Aggregated logarithmic-size range proofs over this library's Pedersen
//! generators, with batched verification.  The inner protocol is delegated
//! to the `tari_bulletproofs_plus` crate through trusted wrappers; the
//! validation, padding and batch-sharding rules around it are verified here.
//!
//! The aggregation size of a proof is rounded up to the next power of two,
//! and the missing slots are filled with openings of the zero commitment
//! (value 0, blinding 0), *prepended* to the real slots; this orientation is
//! part of the wire contract.  Batches of more than `MAX_BATCH_GROUP_SIZE`
//! proofs are verified in shards of that size.

use vstd::prelude::*;

use tari_bulletproofs_plus::commitment_opening::CommitmentOpening;
use tari_bulletproofs_plus::generators::pedersen_gens::{ExtensionDegree, PedersenGens};
use tari_bulletproofs_plus::range_parameters::RangeParameters;
use tari_bulletproofs_plus::range_proof::{RangeProof, VerifyAction};
use tari_bulletproofs_plus::range_statement::RangeStatement;
use tari_bulletproofs_plus::range_witness::RangeWitness;
use tari_bulletproofs_plus::Transcript;

use crate::curve::{GroupPoint, GroupScalar};
use crate::errors::RangeProofError;
use crate::pedersen::{commit_spec, pedersen_g_point, pedersen_h_point};
use crate::types::Commitment;

verus! {

/// Maximum number of proofs allowed in one shard of batch verification;
/// larger batches are split into shards of this size.
pub const MAX_BATCH_GROUP_SIZE: usize = 256;

/// Whether `RangeProof::from_bytes` of `tari_bulletproofs_plus` accepts
/// these bytes as a canonical serialized proof.
pub uninterp spec fn bp_wellformed(bytes: Seq<u8>) -> bool;

/// Whether one shard of Bulletproofs+ batch verification succeeds: parsing
/// each serialized proof, building the range statements for these (already
/// padded) commitment groups over this library's generators with 64-bit
/// range, and running `RangeProof::verify_batch` in verify-only mode.  The
/// verifier derives its batch weights from a transcript with no outside
/// randomness, so the outcome is a function of these arguments alone.
pub uninterp spec fn bp_batch_accepts(groups: Seq<Seq<nat>>, proofs: Seq<Seq<u8>>) -> bool;

/// A Bulletproofs+ rangeproof, held as its canonical serialization.
pub struct BulletPlusRangeProof {
    bytes: Vec<u8>,
}

impl View for BulletPlusRangeProof {
    type V = Seq<u8>;

    closed spec fn view(&self) -> Seq<u8> {
        self.bytes@
    }
}

impl BulletPlusRangeProof {
    #[verifier::type_invariant]
    spec fn parses_inv(self) -> bool {
        bp_wellformed(self@)
    }
}

impl Clone for BulletPlusRangeProof {
    fn clone(&self) -> (r: BulletPlusRangeProof)
        ensures
            r@ == self@,
    {
        proof {
            use_type_invariant(self);
        }
        BulletPlusRangeProof { bytes: vstd::slice::slice_to_vec(self.bytes.as_slice()) }
    }
}

/// Relies on `RangeProof::from_bytes` of `tari_bulletproofs_plus`: whether
/// the bytes parse as a canonical serialized proof.
#[verifier::external_body]
fn bp_parses(bytes: &[u8]) -> (r: bool)
    ensures
        r == bp_wellformed(bytes@),
{
    RangeProof::<curve25519_dalek::ristretto::RistrettoPoint>::from_bytes(bytes).is_ok()
}

/// The commitment openings and commitment points a proving call consumes.
/// The witness and statement types of `tari_bulletproofs_plus` carry trait
/// bounds Verus cannot declare, so this input is held opaquely, with its
/// contents named below.
#[verifier::external_body]
pub struct BpProveInput {
    openings: Vec<CommitmentOpening>,
    points: Vec<curve25519_dalek::ristretto::RistrettoPoint>,
}

/// The (value, blinding residue) openings a proving input holds.
pub uninterp spec fn bp_input_openings(inp: BpProveInput) -> Seq<(u64, nat)>;

/// The discrete logarithms of the commitment points a proving input holds.
pub uninterp spec fn bp_input_points(inp: BpProveInput) -> Seq<nat>;

/// Start an empty proving input.
#[verifier::external_body]
fn bp_prove_input_new() -> (r: BpProveInput)
    ensures
        bp_input_openings(r) == Seq::<(u64, nat)>::empty(),
        bp_input_points(r) == Seq::<nat>::empty(),
{
    BpProveInput { openings: Vec::new(), points: Vec::new() }
}

/// Relies on `CommitmentOpening::new` of `tari_bulletproofs_plus`: append
/// one (value, blinding) opening and its commitment point.
#[verifier::external_body]
fn bp_prove_input_push(
    inp: &mut BpProveInput,
    value: u64,
    blinding: &GroupScalar,
    commitment: &GroupPoint,
)
    ensures
        bp_input_openings(*final(inp)) == bp_input_openings(*old(inp)).push((value, blinding@)),
        bp_input_points(*final(inp)) == bp_input_points(*old(inp)).push(commitment@),
{
    inp.openings.push(CommitmentOpening::new(value, vec![blinding.inner]));
    inp.points.push(commitment.inner);
}

/// Relies on `RangeParameters::init`, `RangeWitness::init`,
/// `RangeStatement::init`, `RangeProof::prove` and `RangeProof::to_bytes` of
/// `tari_bulletproofs_plus`, over this library's two Pedersen generators,
/// 64-bit range, default extension degree and the fixed transcript label.
/// Proving draws randomness, so no serialization is named; what is promised
/// of a returned proof is the protocol's completeness, which the prover
/// upholds by construction after checking the witness against the statement
/// (`prove_with_rng`'s opening checks): the proof parses back and passes
/// the deterministic batch verification against its own commitments.
#[verifier::external_body]
fn bp_prove_run(g: &GroupPoint, h: &GroupPoint, inp: BpProveInput) -> (r: Option<Vec<u8>>)
    requires
        g@ == 1,
        h@ == crate::pedersen::pedersen_h(),
        bp_input_openings(inp).len() == bp_input_points(inp).len(),
        forall|i: int|
            0 <= i < bp_input_points(inp).len() ==> #[trigger] bp_input_points(inp)[i]
                == commit_spec(
                bp_input_openings(inp)[i].0 as nat,
                bp_input_openings(inp)[i].1,
            ),
    ensures
        r matches Some(b) ==> bp_wellformed(b@),
        r matches Some(b) ==> bp_batch_accepts(seq![bp_input_points(inp)], seq![b@]),
{
    let gens = PedersenGens {
        h_base: h.inner,
        h_base_compressed: h.inner.compress(),
        g_base_vec: vec![g.inner],
        g_base_compressed_vec: vec![g.inner.compress()],
        extension_degree: ExtensionDegree::DefaultPedersen,
    };
    let params = RangeParameters::init(64, inp.points.len(), gens).ok()?;
    let witness = RangeWitness::init(inp.openings).ok()?;
    let n = inp.points.len();
    let statement = RangeStatement::init(params, inp.points, vec![None; n], None).ok()?;
    let mut transcript = Transcript::new(b"Bulletproofs+ Rangeproofs");
    Some(RangeProof::prove(&mut transcript, &statement, &witness).ok()?.to_bytes())
}

/// One shard of batch verification under construction: the statements,
/// their transcripts, and the parsed proofs.  The statement type of
/// `tari_bulletproofs_plus` carries trait bounds Verus cannot declare, so
/// the shard is held opaquely, with its contents named below.
#[verifier::external_body]
pub struct BpBatch {
    statements: Vec<RangeStatement<curve25519_dalek::ristretto::RistrettoPoint>>,
    transcripts: Vec<Transcript>,
    proofs: Vec<RangeProof<curve25519_dalek::ristretto::RistrettoPoint>>,
}

/// The commitment groups (as discrete logarithms) of the statements a
/// shard holds.
pub uninterp spec fn bp_batch_groups(b: BpBatch) -> Seq<Seq<nat>>;

/// The serialized proofs a shard holds.
pub uninterp spec fn bp_batch_proofs(b: BpBatch) -> Seq<Seq<u8>>;

/// Start an empty verification shard.
#[verifier::external_body]
fn bp_batch_new() -> (r: BpBatch)
    ensures
        bp_batch_groups(r) == Seq::<Seq<nat>>::empty(),
        bp_batch_proofs(r) == Seq::<Seq<u8>>::empty(),
{
    BpBatch { statements: Vec::new(), transcripts: Vec::new(), proofs: Vec::new() }
}

/// Relies on `RangeParameters::init` and `RangeStatement::init` of
/// `tari_bulletproofs_plus`, over this library's two Pedersen generators and
/// 64-bit range: with a power-of-two group size of at most 256 both
/// succeed, and the group is appended to the shard's statements with a
/// fresh fixed-label transcript.
#[verifier::external_body]
fn bp_batch_add_statement(
    b: &mut BpBatch,
    g: &GroupPoint,
    h: &GroupPoint,
    group: &Vec<GroupPoint>,
)
    requires
        g@ == 1,
        h@ == crate::pedersen::pedersen_h(),
        is_bp_aggregation_len(group@.len()),
    ensures
        bp_batch_groups(*final(b)) == bp_batch_groups(*old(b)).push(
            group@.map_values(|p: GroupPoint| p@),
        ),
        bp_batch_proofs(*final(b)) == bp_batch_proofs(*old(b)),
{
    let gens = PedersenGens {
        h_base: h.inner,
        h_base_compressed: h.inner.compress(),
        g_base_vec: vec![g.inner],
        g_base_compressed_vec: vec![g.inner.compress()],
        extension_degree: ExtensionDegree::DefaultPedersen,
    };
    let params = RangeParameters::init(64, group.len(), gens).unwrap();
    let coms: Vec<curve25519_dalek::ristretto::RistrettoPoint> =
        group.iter().map(|c| c.inner).collect();
    let n = coms.len();
    b.statements.push(RangeStatement::init(params, coms, vec![None; n], None).unwrap());
    b.transcripts.push(Transcript::new(b"Bulletproofs+ Rangeproofs"));
}

/// Relies on `RangeProof::from_bytes` of `tari_bulletproofs_plus`: a
/// well-formed serialization parses, and the parsed proof is appended to
/// the shard.
#[verifier::external_body]
fn bp_batch_add_proof(b: &mut BpBatch, proof_bytes: &Vec<u8>)
    requires
        bp_wellformed(proof_bytes@),
    ensures
        bp_batch_proofs(*final(b)) == bp_batch_proofs(*old(b)).push(proof_bytes@),
        bp_batch_groups(*final(b)) == bp_batch_groups(*old(b)),
{
    b.proofs.push(RangeProof::from_bytes(proof_bytes).unwrap());
}

/// Relies on `RangeProof::verify_batch` of `tari_bulletproofs_plus` in
/// verify-only mode: the call succeeds exactly when the deterministic batch
/// verification of the shard accepts.  On failure, `Err(true)` means the
/// proof equation failed and `Err(false)` any other error.
#[verifier::external_body]
fn bp_batch_run(b: &mut BpBatch) -> (r: Result<(), bool>)
    ensures
        r is Ok <==> bp_batch_accepts(bp_batch_groups(*old(b)), bp_batch_proofs(*old(b))),
{
    let outcome = RangeProof::verify_batch(
        &mut b.transcripts,
        &b.statements,
        &b.proofs,
        VerifyAction::VerifyOnly,
    );
    match outcome {
        Ok(_) => Ok(()),
        Err(tari_bulletproofs_plus::errors::ProofError::VerificationFailed(_)) => Err(true),
        Err(_) => Err(false),
    }
}

impl BulletPlusRangeProof {
    /// Serialize the proof: its canonical byte form.
    pub fn to_bytes(&self) -> (r: Result<Vec<u8>, crate::errors::SerializationError>)
        ensures
            r matches Ok(b) ==> b@ == self@,
            r is Ok,
    {
        proof {
            use_type_invariant(self);
        }
        Ok(vstd::slice::slice_to_vec(self.bytes.as_slice()))
    }

    /// Deserialize a proof, rejecting bytes that do not parse as a
    /// canonical Bulletproofs+ proof.
    pub fn from_bytes(bytes: &[u8]) -> (r: Result<
        BulletPlusRangeProof,
        crate::errors::SerializationError,
    >)
        ensures
            r is Ok <==> bp_wellformed(bytes@),
            r matches Ok(p) ==> p@ == bytes@,
            r matches Err(e) ==> e is DecodingError,
    {
        if bp_parses(bytes) {
            Ok(BulletPlusRangeProof { bytes: vstd::slice::slice_to_vec(bytes) })
        } else {
            Err(crate::errors::SerializationError::DecodingError)
        }
    }
}

/// The aggregation sizes a statement can have: the powers of two up to 256.
pub open spec fn is_bp_aggregation_len(n: nat) -> bool {
    n == 1 || n == 2 || n == 4 || n == 8 || n == 16 || n == 32 || n == 64 || n == 128 || n == 256
}

/// The aggregation size after padding: the least power of two at or above
/// `n` (and at least 1), for `n` up to 256.
pub open spec fn padded_len(n: nat) -> nat {
    if n <= 1 {
        1
    } else if n <= 2 {
        2
    } else if n <= 4 {
        4
    } else if n <= 8 {
        8
    } else if n <= 16 {
        16
    } else if n <= 32 {
        32
    } else if n <= 64 {
        64
    } else if n <= 128 {
        128
    } else {
        256
    }
}

/// A commitment group with zero commitments prepended up to the padded
/// length.
pub open spec fn padded_group(grp: Seq<nat>) -> Seq<nat> {
    Seq::new((padded_len(grp.len()) - grp.len()) as nat, |i: int| 0nat) + grp
}

/// Whether every shard of at most `MAX_BATCH_GROUP_SIZE` proofs passes
/// batch verification, each group padded to its power-of-two size.
pub open spec fn bp_shards_accept(groups: Seq<Seq<nat>>, proofs: Seq<Seq<u8>>) -> bool
    decreases groups.len(),
{
    if groups.len() == 0 {
        true
    } else {
        let k = if groups.len() <= 256 {
            groups.len() as int
        } else {
            256
        };
        &&& bp_batch_accepts(
            groups.take(k).map_values(|grp: Seq<nat>| padded_group(grp)),
            proofs.take(k),
        )
        &&& bp_shards_accept(groups.skip(k), proofs.skip(k))
    }
}

/// The least power of two at or above `n`, for `n <= 256`.
fn next_power_of_two(n: usize) -> (r: usize)
    requires
        n <= 256,
    ensures
        r == padded_len(n as nat),
        n <= r <= 256,
        r >= 1,
{
    if n <= 1 {
        1
    } else if n <= 2 {
        2
    } else if n <= 4 {
        4
    } else if n <= 8 {
        8
    } else if n <= 16 {
        16
    } else if n <= 32 {
        32
    } else if n <= 64 {
        64
    } else if n <= 128 {
        128
    } else {
        256
    }
}

/// Pad a commitment group with zero commitments prepended up to the next
/// power of two.
fn pad_group(grp: &Vec<Commitment>) -> (r: Vec<GroupPoint>)
    requires
        grp@.len() <= 256,
    ensures
        r@.map_values(|p: GroupPoint| p@) == padded_group(grp@.map_values(|c: Commitment| c@)),
        r@.len() == padded_len(grp@.len() as nat),
        is_bp_aggregation_len(r@.len() as nat),
{
    let n = next_power_of_two(grp.len());
    let pad = n - grp.len();
    let mut out: Vec<GroupPoint> = Vec::new();
    let mut i: usize = 0;
    while i < pad
        invariant
            i <= pad,
            out@.len() == i,
            forall|k: int| 0 <= k < i ==> out@[k]@ == 0,
        decreases pad - i,
    {
        out.push(GroupPoint::identity());
        i = i + 1;
    }
    let mut i: usize = 0;
    while i < grp.len()
        invariant
            i <= grp@.len(),
            out@.len() == pad + i,
            forall|k: int| 0 <= k < pad ==> out@[k]@ == 0,
            forall|k: int| 0 <= k < i ==> out@[pad + k]@ == grp@[k]@,
        decreases grp@.len() - i,
    {
        out.push(grp[i].0);
        i = i + 1;
    }
    proof {
        assert(out@.map_values(|p: GroupPoint| p@) =~= padded_group(
            grp@.map_values(|c: Commitment| c@),
        ));
    }
    out
}

impl BulletPlusRangeProof {
    /// Create a Bulletproofs+ rangeproof for a vector of values and matching
    /// blinding factors.  Returns the commitments and the proof.
    pub fn prove(values: Vec<u64>, blindings: Vec<GroupScalar>) -> (r: Result<
        (Vec<Commitment>, BulletPlusRangeProof),
        RangeProofError,
    >)
        ensures
            r matches Err(e) && e is Malformed <==> values@.len() != blindings@.len(),
            r matches Err(e) && e is TooLargeAggregationSize <==> values@.len()
                == blindings@.len() && values@.len() > 256,
            r matches Err(e) ==> e is Malformed || e is TooLargeAggregationSize
                || e is Unspecified,
            r matches Ok(out) ==> out.0@.len() == values@.len() && (forall|i: int|
                0 <= i < values@.len() ==> (#[trigger] out.0@[i])@ == commit_spec(
                    values@[i] as nat,
                    blindings@[i]@,
                )),
            r matches Ok(out) ==> bp_shards_accept(
                seq![out.0@.map_values(|c: Commitment| c@)],
                seq![out.1@],
            ),
    {
        if values.len() != blindings.len() {
            return Err(RangeProofError::Malformed);
        }
        if values.len() > crate::rangeproof::MAX_AGGREGATION_SIZE {
            return Err(RangeProofError::TooLargeAggregationSize);
        }
        let mut i: usize = 0;
        while i < values.len()
            invariant
                i <= values@.len(),
            decreases values@.len() - i,
        {
            if values[i] > crate::rangeproof::MAX_VALUE {
                return Err(RangeProofError::OutOfRange);
            }
            i = i + 1;
        }

        let mut commitments: Vec<Commitment> = Vec::new();
        let mut i: usize = 0;
        while i < values.len()
            invariant
                i <= values@.len(),
                values@.len() == blindings@.len(),
                commitments@.len() == i,
                forall|k: int|
                    0 <= k < i ==> (#[trigger] commitments@[k])@ == commit_spec(
                        values@[k] as nat,
                        blindings@[k]@,
                    ),
            decreases values@.len() - i,
        {
            commitments.push(Commitment::commit(values[i], blindings[i]));
            i = i + 1;
        }

        // Pad the witness with zero-commitment openings, prepended to the
        // real slots, and hand the padded statement to the prover.
        let pad = next_power_of_two(values.len()) - values.len();
        let padded_points = pad_group(&commitments);
        let ghost pp = padded_points@.map_values(|p: GroupPoint| p@);
        let mut input = bp_prove_input_new();
        let zero = GroupScalar::zero();
        proof {
            crate::modmath::lemma_mod_small(0);
            assert(0nat * crate::pedersen::pedersen_h() == 0) by (nonlinear_arith);
            assert(commit_spec(0, 0) == 0);
        }
        let mut i: usize = 0;
        while i < pad
            invariant
                i <= pad,
                pad <= padded_points@.len(),
                zero@ == 0,
                pp == padded_points@.map_values(|p: GroupPoint| p@),
                forall|k: int| 0 <= k < pad ==> pp[k] == 0,
                commit_spec(0, 0) == 0,
                bp_input_points(input) == pp.take(i as int),
                bp_input_openings(input).len() == i,
                forall|k: int|
                    0 <= k < i ==> bp_input_points(input)[k] == commit_spec(
                        (#[trigger] bp_input_openings(input)[k]).0 as nat,
                        bp_input_openings(input)[k].1,
                    ),
            decreases pad - i,
        {
            bp_prove_input_push(&mut input, 0, &zero, &padded_points[i]);
            proof {
                assert(pp.take(i + 1) =~= pp.take(i as int).push(pp[i as int]));
            }
            i = i + 1;
        }
        let mut i: usize = 0;
        while i < values.len()
            invariant
                i <= values@.len(),
                values@.len() == blindings@.len(),
                pad + values@.len() == padded_points@.len(),
                padded_points@.len() <= 256,
                pp == padded_points@.map_values(|p: GroupPoint| p@),
                forall|k: int|
                    0 <= k < values@.len() ==> pp[pad + k] == (#[trigger] commitments@[k])@,
                commitments@.len() == values@.len(),
                forall|k: int|
                    0 <= k < values@.len() ==> (#[trigger] commitments@[k])@ == commit_spec(
                        values@[k] as nat,
                        blindings@[k]@,
                    ),
                bp_input_points(input) == pp.take(pad + i),
                bp_input_openings(input).len() == pad + i,
                forall|k: int|
                    0 <= k < pad + i ==> bp_input_points(input)[k] == commit_spec(
                        (#[trigger] bp_input_openings(input)[k]).0 as nat,
                        bp_input_openings(input)[k].1,
                    ),
            decreases values@.len() - i,
        {
            bp_prove_input_push(&mut input, values[i], &blindings[i], &padded_points[pad + i]);
            proof {
                assert(pp.take(pad + i + 1) =~= pp.take(pad + i).push(pp[pad + i]));
                assert(bp_input_openings(input)[pad + i as int] == (
                    values@[i as int],
                    blindings@[i as int]@,
                ));
                assert(bp_input_points(input)[pad + i as int] == pp[pad + i as int]);
                assert(pp[pad + i as int] == commitments@[i as int]@);
            }
            i = i + 1;
        }
        proof {
            assert(pp.take(pp.len() as int) =~= pp);
            assert(bp_input_points(input) == pp);
        }

        let g = pedersen_g_point();
        let h = pedersen_h_point();
        let outcome = bp_prove_run(&g, &h, input);
        match outcome {
            Some(bytes) => {
                let result = (commitments, BulletPlusRangeProof { bytes });
                proof {
                    let gvs = result.0@.map_values(|c: Commitment| c@);
                    assert(bp_batch_accepts(seq![pp], seq![result.1@]));
                    assert(pp == padded_group(gvs));
                    assert(seq![gvs].take(1) =~= seq![gvs]);
                    assert(seq![result.1@].take(1) =~= seq![result.1@]);
                    assert(seq![gvs].map_values(|grp: Seq<nat>| padded_group(grp)) =~= seq![pp]);
                    assert(bp_batch_accepts(
                        seq![gvs].take(1).map_values(|grp: Seq<nat>| padded_group(grp)),
                        seq![result.1@].take(1),
                    ));
                    assert(seq![gvs].skip(1) =~= Seq::<Seq<nat>>::empty());
                    assert(seq![result.1@].skip(1) =~= Seq::<Seq<u8>>::empty());
                    assert(bp_shards_accept(seq![gvs].skip(1), seq![result.1@].skip(1)));
                    assert(bp_shards_accept(seq![gvs], seq![result.1@]));
                }
                Ok(result)
            },
            None => Err(RangeProofError::Unspecified(unspecified_prove_message())),
        }
    }

    /// Verify a single Bulletproofs+ rangeproof against its commitments.
    /// `batch_verify` should be preferred when verifying multiple proofs.
    pub fn verify(commitments: Vec<Commitment>, proof: BulletPlusRangeProof) -> (r: Result<
        (),
        RangeProofError,
    >)
        ensures
            r matches Err(e) && e is TooLargeAggregationSize <==> commitments@.len() > 256,
            r is Ok <==> commitments@.len() <= 256 && bp_shards_accept(
                seq![commitments@.map_values(|c: Commitment| c@)],
                seq![proof@],
            ),
            r matches Err(e) ==> e is TooLargeAggregationSize || e is Invalid
                || e is Unspecified,
    {
        let mut groups: Vec<Vec<Commitment>> = Vec::new();
        groups.push(commitments);
        let mut proofs: Vec<BulletPlusRangeProof> = Vec::new();
        proofs.push(proof);
        let ghost gv = groups@.map_values(
            |grp: Vec<Commitment>| grp@.map_values(|c: Commitment| c@),
        );
        let ghost pv = proofs@.map_values(|p: BulletPlusRangeProof| p@);
        let r = BulletPlusRangeProof::batch_verify(groups, proofs);
        proof {
            assert(gv =~= seq![gv[0]]);
            assert(pv =~= seq![pv[0]]);
        }
        r
    }

    /// Batch-verify several Bulletproofs+ rangeproofs against their
    /// commitment groups, sharding batches of more than
    /// `MAX_BATCH_GROUP_SIZE` proofs.  A single failing shard fails the
    /// whole batch.
    pub fn batch_verify(
        commitments: Vec<Vec<Commitment>>,
        proofs: Vec<BulletPlusRangeProof>,
    ) -> (r: Result<(), RangeProofError>)
        ensures
            r matches Err(e) && e is Malformed <==> commitments@.len() != proofs@.len(),
            r matches Err(e) && e is TooLargeAggregationSize <==> commitments@.len()
                == proofs@.len() && (exists|i: int|
                0 <= i < commitments@.len() && (#[trigger] commitments@[i])@.len() > 256),
            r is Ok <==> commitments@.len() == proofs@.len() && (forall|i: int|
                0 <= i < commitments@.len() ==> (#[trigger] commitments@[i])@.len() <= 256)
                && bp_shards_accept(
                commitments@.map_values(
                    |grp: Vec<Commitment>| grp@.map_values(|c: Commitment| c@),
                ),
                proofs@.map_values(|p: BulletPlusRangeProof| p@),
            ),
            r matches Err(e) ==> e is Malformed || e is TooLargeAggregationSize || e is Invalid
                || e is Unspecified,
    {
        let ghost gv = commitments@.map_values(
            |grp: Vec<Commitment>| grp@.map_values(|c: Commitment| c@),
        );
        let ghost pv = proofs@.map_values(|p: BulletPlusRangeProof| p@);

        if commitments.len() != proofs.len() {
            return Err(RangeProofError::Malformed);
        }
        let mut i: usize = 0;
        while i < commitments.len()
            invariant
                i <= commitments@.len(),
                commitments@.len() == proofs@.len(),
                gv == commitments@.map_values(
                    |grp: Vec<Commitment>| grp@.map_values(|c: Commitment| c@),
                ),
                forall|k: int| 0 <= k < i ==> (#[trigger] commitments@[k])@.len() <= 256,
            decreases commitments@.len() - i,
        {
            if commitments[i].len() > crate::rangeproof::MAX_AGGREGATION_SIZE {
                proof {
                    assert(0 <= i < commitments@.len() && commitments@[i as int]@.len() > 256);
                }
                return Err(RangeProofError::TooLargeAggregationSize);
            }
            i = i + 1;
        }

        let g = pedersen_g_point();
        let h = pedersen_h_point();
        let total = commitments.len();
        proof {
            assert(gv.skip(0) =~= gv);
            assert(pv.skip(0) =~= pv);
        }
        let mut start: usize = 0;
        while start < total
            invariant
                start <= total,
                total == commitments@.len(),
                total == proofs@.len(),
                g@ == 1,
                h@ == crate::pedersen::pedersen_h(),
                gv == commitments@.map_values(
                    |grp: Vec<Commitment>| grp@.map_values(|c: Commitment| c@),
                ),
                pv == proofs@.map_values(|p: BulletPlusRangeProof| p@),
                forall|k: int| 0 <= k < total ==> (#[trigger] commitments@[k])@.len() <= 256,
                bp_shards_accept(gv, pv) == bp_shards_accept(
                    gv.skip(start as int),
                    pv.skip(start as int),
                ),
            decreases total - start,
        {
            let chunk = if total - start < MAX_BATCH_GROUP_SIZE {
                total - start
            } else {
                MAX_BATCH_GROUP_SIZE
            };
            let mut shard = bp_batch_new();
            let mut k: usize = 0;
            while k < chunk
                invariant
                    k <= chunk,
                    start + chunk <= total,
                    total == commitments@.len(),
                    total == proofs@.len(),
                    g@ == 1,
                    h@ == crate::pedersen::pedersen_h(),
                    gv == commitments@.map_values(
                        |grp: Vec<Commitment>| grp@.map_values(|c: Commitment| c@),
                    ),
                    pv == proofs@.map_values(|p: BulletPlusRangeProof| p@),
                    forall|kk: int|
                        0 <= kk < total ==> (#[trigger] commitments@[kk])@.len() <= 256,
                    bp_batch_groups(shard) == Seq::new(
                        k as nat,
                        |kk: int| padded_group(gv[start + kk]),
                    ),
                    bp_batch_proofs(shard) == Seq::new(k as nat, |kk: int| pv[start + kk]),
                decreases chunk - k,
            {
                let padded = pad_group(&commitments[start + k]);
                bp_batch_add_statement(&mut shard, &g, &h, &padded);
                let current = &proofs[start + k];
                proof {
                    use_type_invariant(current);
                }
                bp_batch_add_proof(&mut shard, &current.bytes);
                proof {
                    assert(Seq::new((k + 1) as nat, |kk: int| padded_group(gv[start + kk]))
                        =~= Seq::new(k as nat, |kk: int| padded_group(gv[start + kk])).push(
                        padded_group(gv[start + k]),
                    ));
                    assert(Seq::new((k + 1) as nat, |kk: int| pv[start + kk]) =~= Seq::new(
                        k as nat,
                        |kk: int| pv[start + kk],
                    ).push(pv[start + k]));
                }
                k = k + 1;
            }
            let outcome = bp_batch_run(&mut shard);
            proof {
                let rest_g = gv.skip(start as int);
                let rest_p = pv.skip(start as int);
                let kk = if rest_g.len() <= 256 {
                    rest_g.len() as int
                } else {
                    256
                };
                assert(kk == chunk as int);
                assert(Seq::new(chunk as nat, |kk: int| padded_group(gv[start + kk]))
                    =~= rest_g.take(kk).map_values(|grp: Seq<nat>| padded_group(grp)));
                assert(Seq::new(chunk as nat, |kk: int| pv[start + kk]) =~= rest_p.take(kk));
                assert(rest_g.skip(kk) =~= gv.skip(start + chunk));
                assert(rest_p.skip(kk) =~= pv.skip(start + chunk));
            }
            match outcome {
                Ok(_) => {
                },
                Err(failed) => {
                    if failed {
                        return Err(RangeProofError::Invalid);
                    } else {
                        return Err(RangeProofError::Unspecified(unspecified_verify_message()));
                    }
                },
            }
            start = start + chunk;
        }
        proof {
            assert(gv.skip(total as int) =~= Seq::<Seq<nat>>::empty());
            assert(pv.skip(total as int) =~= Seq::<Seq<u8>>::empty());
        }
        Ok(())
    }
}

/// Error text for a proving failure inside the inner protocol.
fn unspecified_prove_message() -> String {
    let s: String = "failed to create rangeproof".to_string();
    s
}

/// Error text for a verification failure other than a failed proof equation.
fn unspecified_verify_message() -> String {
    let s: String = "failed to verify rangeproof".to_string();
    s
}

} // verus!
