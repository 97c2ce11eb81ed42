//! Fixed-width byte codecs (little-endian, no framing) for the core types:
//! scalars and points are 32 bytes, an enote is 64, enote keys are 72.
//! Decoding rejects non-canonical or malformed input with a typed error.

use vstd::prelude::*;

use vstd::arithmetic::div_mod::lemma_mod_breakdown;

use crate::byteops::{append_bytes, u64_from_le, u64_to_le};
use crate::curve::{group_order, le_bytes, le_val, point_repr, GroupPoint, GroupScalar};
use crate::errors::SerializationError;
use crate::types::{Commitment, Enote, EnoteKeys};

verus! {

/// 256 raised to the power `n`.
pub open spec fn pow256(n: nat) -> nat
    decreases n,
{
    if n == 0 {
        1
    } else {
        256 * pow256((n - 1) as nat)
    }
}

/// 256^n is positive.
pub proof fn lemma_pow256_pos(n: nat)
    ensures
        pow256(n) >= 1,
    decreases n,
{
    if n > 0 {
        lemma_pow256_pos((n - 1) as nat);
    }
}

/// The little-endian encoding of `v` in `n` bytes decodes to `v` modulo
/// `256^n`.
pub proof fn lemma_le_bytes_val(v: nat, n: nat)
    ensures
        le_bytes(v, n).len() == n,
        le_val(le_bytes(v, n)) == v % pow256(n),
    decreases n,
{
    if n == 0 {
        assert(v % 1 == 0) by (nonlinear_arith);
    } else {
        lemma_le_bytes_val(v / 256, (n - 1) as nat);
        let s = le_bytes(v, n);
        assert(s[0] == (v % 256) as u8);
        assert(s.skip(1) =~= le_bytes(v / 256, (n - 1) as nat));
        assert(pow256(n) == 256 * pow256((n - 1) as nat));
        lemma_pow256_pos((n - 1) as nat);
        lemma_mod_breakdown(v as int, 256, pow256((n - 1) as nat) as int);
    }
}

/// The codec on scalars is a round trip: the canonical 32-byte encoding of a
/// reduced scalar decodes to the same scalar, and is accepted as canonical.
pub proof fn lemma_scalar_codec_round_trip(v: nat)
    requires
        v < group_order(),
    ensures
        le_bytes(v, 32).len() == 32,
        le_val(le_bytes(v, 32)) == v,
        le_val(le_bytes(v, 32)) < group_order(),
{
    lemma_le_bytes_val(v, 32);
    assert(group_order() < pow256(32)) by {
        reveal_with_fuel(pow256, 33);
    }
    vstd::arithmetic::div_mod::lemma_small_mod(v, pow256(32));
}

/// A 32-byte string is the encoding of its own little-endian value.
pub proof fn lemma_le_val_bytes(s: Seq<u8>)
    ensures
        le_bytes(le_val(s), s.len()) == s,
    decreases s.len(),
{
    if s.len() == 0 {
        assert(le_bytes(le_val(s), 0) =~= s);
    } else {
        let head: int = s[0] as int;
        let tail: int = le_val(s.skip(1)) as int;
        assert(le_val(s) == head + 256 * tail);
        assert((head + 256 * tail) % 256 == head && (head + 256 * tail) / 256 == tail) by (
        nonlinear_arith)
            requires
                0 <= head < 256,
                0 <= tail,
        ;
        lemma_le_val_bytes(s.skip(1));
        assert(le_bytes(le_val(s), s.len()) =~= s);
    }
}

/// The concatenated 32-byte encodings of a list of scalars.
pub open spec fn scalar_list_bytes(s: Seq<nat>) -> Seq<u8> {
    crate::byteops::flatten_bytes(s.map_values(|v: nat| le_bytes(v, 32)))
}

/// Whether a byte string is the canonical encoding of some point.
pub open spec fn decodable_point(bytes: Seq<u8>) -> bool {
    exists|dl: nat| dl < group_order() && #[trigger] point_repr(dl) == bytes
}

/// Whether each of `count` consecutive 32-byte chunks of `bytes`, starting
/// at `start`, is a canonical scalar encoding.
pub open spec fn scalar_chunks_canonical(bytes: Seq<u8>, start: int, count: int) -> bool
    decreases count,
{
    count <= 0 || (le_val(bytes.subrange(start + 32 * (count - 1), start + 32 * count))
        < group_order() && scalar_chunks_canonical(bytes, start, count - 1))
}

/// Every chunk of a canonical run is canonical.
pub proof fn lemma_scalar_chunk_at(bytes: Seq<u8>, start: int, count: int, i: int)
    requires
        scalar_chunks_canonical(bytes, start, count),
        0 <= i < count,
    ensures
        le_val(bytes.subrange(start + 32 * i, start + 32 * i + 32)) < group_order(),
    decreases count,
{
    if i == count - 1 {
        assert(bytes.subrange(start + 32 * (count - 1), start + 32 * count) =~= bytes.subrange(
            start + 32 * i,
            start + 32 * i + 32,
        ));
    } else {
        lemma_scalar_chunk_at(bytes, start, count - 1, i);
    }
}

/// A run of canonical chunks splits at any point.
pub proof fn lemma_scalar_chunks_split(bytes: Seq<u8>, start: int, m: int, n: int)
    requires
        m >= 0,
        n >= 0,
    ensures
        scalar_chunks_canonical(bytes, start, m + n) == (scalar_chunks_canonical(bytes, start, m)
            && scalar_chunks_canonical(bytes, start + 32 * m, n)),
    decreases n,
{
    if n == 0 {
    } else {
        lemma_scalar_chunks_split(bytes, start, m, n - 1);
        assert(bytes.subrange(start + 32 * (m + n - 1), start + 32 * (m + n)) =~= bytes.subrange(
            start + 32 * m + 32 * (n - 1),
            start + 32 * m + 32 * n,
        ));
    }
}

/// Whether each of `count` consecutive 32-byte chunks of `bytes`, starting
/// at `start`, is a canonical point encoding.
pub open spec fn point_chunks_decodable(bytes: Seq<u8>, start: int, count: int) -> bool
    decreases count,
{
    count <= 0 || (decodable_point(bytes.subrange(start + 32 * (count - 1), start + 32 * count))
        && point_chunks_decodable(bytes, start, count - 1))
}

/// Every chunk of a decodable run is decodable.
pub proof fn lemma_point_chunk_at(bytes: Seq<u8>, start: int, count: int, i: int)
    requires
        point_chunks_decodable(bytes, start, count),
        0 <= i < count,
    ensures
        decodable_point(bytes.subrange(start + 32 * i, start + 32 * i + 32)),
    decreases count,
{
    if i == count - 1 {
        assert(bytes.subrange(start + 32 * (count - 1), start + 32 * count) =~= bytes.subrange(
            start + 32 * i,
            start + 32 * i + 32,
        ));
    } else {
        lemma_point_chunk_at(bytes, start, count - 1, i);
    }
}

/// A region of a buffer that holds the encodings of reduced scalars is a
/// canonical run of scalar chunks.
pub proof fn lemma_scalar_list_canonical(bytes: Seq<u8>, start: int, row: Seq<nat>)
    requires
        0 <= start,
        start + 32 * row.len() <= bytes.len(),
        forall|q: int| 0 <= q < row.len() ==> row[q] < group_order(),
        bytes.subrange(start, start + 32 * row.len()) == scalar_list_bytes(row),
    ensures
        scalar_chunks_canonical(bytes, start, row.len() as int),
        scalar_list_bytes(row).len() == 32 * row.len(),
    decreases row.len(),
{
    let blocks = row.map_values(|v: nat| le_bytes(v, 32));
    assert forall|a: int| 0 <= a < blocks.len() implies (#[trigger] blocks[a]).len() == 32 by {
        lemma_le_bytes_val(row[a], 32);
    }
    crate::byteops::lemma_flatten_uniform(blocks, 32);
    if row.len() > 0 {
        let n = row.len() as int;
        assert(bytes.subrange(start + 32 * (n - 1), start + 32 * n) =~= blocks[n - 1]);
        lemma_scalar_codec_round_trip(row[n - 1]);
        let pre = row.drop_last();
        assert(blocks =~= pre.map_values(|v: nat| le_bytes(v, 32)).push(blocks[n - 1]));
        crate::byteops::lemma_flatten_bytes_push(
            pre.map_values(|v: nat| le_bytes(v, 32)),
            blocks[n - 1],
        );
        assert(bytes.subrange(start, start + 32 * (n - 1)) =~= scalar_list_bytes(pre));
        lemma_scalar_list_canonical(bytes, start, pre);
    }
}

/// A region of a buffer that holds the canonical encodings of points is a
/// decodable run of point chunks.
pub proof fn lemma_point_list_decodable(bytes: Seq<u8>, start: int, pts: Seq<nat>)
    requires
        0 <= start,
        start + 32 * pts.len() <= bytes.len(),
        forall|q: int| 0 <= q < pts.len() ==> #[trigger] pts[q] < group_order(),
        forall|q: int| 0 <= q < pts.len() ==> (#[trigger] point_repr(pts[q])).len() == 32,
        bytes.subrange(start, start + 32 * pts.len()) == crate::byteops::flatten_bytes(
            pts.map_values(|c: nat| point_repr(c)),
        ),
    ensures
        point_chunks_decodable(bytes, start, pts.len() as int),
    decreases pts.len(),
{
    let blocks = pts.map_values(|c: nat| point_repr(c));
    crate::byteops::lemma_flatten_uniform(blocks, 32);
    if pts.len() > 0 {
        let n = pts.len() as int;
        assert(bytes.subrange(start + 32 * (n - 1), start + 32 * n) =~= blocks[n - 1]);
        assert(decodable_point(bytes.subrange(start + 32 * (n - 1), start + 32 * n))) by {
            assert(point_repr(pts[n - 1]) == bytes.subrange(
                start + 32 * (n - 1),
                start + 32 * n,
            ));
        }
        let pre = pts.drop_last();
        assert(blocks =~= pre.map_values(|c: nat| point_repr(c)).push(blocks[n - 1]));
        crate::byteops::lemma_flatten_bytes_push(
            pre.map_values(|c: nat| point_repr(c)),
            blocks[n - 1],
        );
        assert(bytes.subrange(start, start + 32 * (n - 1)) =~= crate::byteops::flatten_bytes(
            pre.map_values(|c: nat| point_repr(c)),
        ));
        assert forall|q: int| 0 <= q < pre.len() implies #[trigger] pre[q] < group_order() by {
            assert(pre[q] == pts[q]);
        }
        assert forall|q: int|
            0 <= q < pre.len() implies (#[trigger] point_repr(pre[q])).len() == 32 by {
            assert(pre[q] == pts[q]);
            assert(point_repr(pts[q]).len() == 32);
        }
        lemma_point_list_decodable(bytes, start, pre);
    }
}

/// A region of a buffer that holds rows of four reduced scalars each is a
/// canonical run, four chunks per row.
pub proof fn lemma_scalar_rows_canonical(bytes: Seq<u8>, start: int, rows: Seq<Seq<nat>>)
    requires
        0 <= start,
        start + 128 * rows.len() <= bytes.len(),
        forall|a: int| 0 <= a < rows.len() ==> (#[trigger] rows[a]).len() == 4,
        forall|a: int, q: int|
            0 <= a < rows.len() && 0 <= q < 4 ==> #[trigger] rows[a][q] < group_order(),
        bytes.subrange(start, start + 128 * rows.len()) == crate::byteops::flatten_bytes(
            rows.map_values(|row: Seq<nat>| scalar_list_bytes(row)),
        ),
    ensures
        scalar_chunks_canonical(bytes, start, 4 * rows.len() as int),
    decreases rows.len(),
{
    let blocks = rows.map_values(|row: Seq<nat>| scalar_list_bytes(row));
    assert forall|a: int| 0 <= a < blocks.len() implies (#[trigger] blocks[a]).len() == 128 by {
        let rb = rows[a].map_values(|v: nat| le_bytes(v, 32));
        assert forall|q: int| 0 <= q < rb.len() implies (#[trigger] rb[q]).len() == 32 by {
            lemma_le_bytes_val(rows[a][q], 32);
        }
        crate::byteops::lemma_flatten_uniform(rb, 32);
    }
    crate::byteops::lemma_flatten_uniform(blocks, 128);
    if rows.len() > 0 {
        let n = rows.len() as int;
        assert(bytes.subrange(start + 128 * (n - 1), start + 128 * n) =~= blocks[n - 1]);
        assert(bytes.subrange(start + 128 * (n - 1), start + 128 * (n - 1) + 32 * 4)
            == scalar_list_bytes(rows[n - 1]));
        lemma_scalar_list_canonical(bytes, start + 128 * (n - 1), rows[n - 1]);
        let pre = rows.drop_last();
        assert(blocks =~= pre.map_values(|row: Seq<nat>| scalar_list_bytes(row)).push(
            blocks[n - 1],
        ));
        crate::byteops::lemma_flatten_bytes_push(
            pre.map_values(|row: Seq<nat>| scalar_list_bytes(row)),
            blocks[n - 1],
        );
        assert(bytes.subrange(start, start + 128 * (n - 1)) =~= crate::byteops::flatten_bytes(
            pre.map_values(|row: Seq<nat>| scalar_list_bytes(row)),
        ));
        lemma_scalar_rows_canonical(bytes, start, pre);
        lemma_scalar_chunks_split(bytes, start, 4 * (n - 1), 4);
    }
}

/// Append the canonical encodings of a list of scalars to a buffer.
pub fn append_scalar_list(buf: &mut Vec<u8>, scalars: &Vec<GroupScalar>)
    ensures
        final(buf)@ == old(buf)@ + scalar_list_bytes(
            scalars@.map_values(|x: GroupScalar| x@),
        ),
        forall|q: int| 0 <= q < scalars@.len() ==> (#[trigger] scalars@[q])@ < group_order(),
{
    let ghost start = buf@;
    let ghost sv = scalars@.map_values(|x: GroupScalar| x@);
    let ghost blocks = sv.map_values(|v: nat| le_bytes(v, 32));
    proof {
        assert(blocks.subrange(0, 0) =~= Seq::<Seq<u8>>::empty());
    }
    let mut i: usize = 0;
    while i < scalars.len()
        invariant
            i <= scalars@.len(),
            sv == scalars@.map_values(|x: GroupScalar| x@),
            blocks == sv.map_values(|v: nat| le_bytes(v, 32)),
            buf@ == start + crate::byteops::flatten_bytes(blocks.subrange(0, i as int)),
            forall|q: int| 0 <= q < i ==> (#[trigger] scalars@[q])@ < group_order(),
        decreases scalars@.len() - i,
    {
        let sq = scalars[i];
        proof {
            use_type_invariant(&sq);
        }
        let b = sq.to_bytes();
        proof {
            crate::byteops::lemma_flatten_bytes_push(
                blocks.subrange(0, i as int),
                blocks[i as int],
            );
            assert(blocks.subrange(0, i + 1) =~= blocks.subrange(0, i as int).push(
                blocks[i as int],
            ));
        }
        append_bytes(buf, b.as_slice());
        i = i + 1;
    }
    proof {
        assert(blocks.subrange(0, blocks.len() as int) =~= blocks);
    }
}

/// Parse `count` canonical 32-byte scalars from `bytes` starting at `start`.
pub fn parse_scalar_list(bytes: &[u8], start: usize, count: usize) -> (r: Result<
    Vec<GroupScalar>,
    SerializationError,
>)
    requires
        start + 32 * count <= bytes@.len(),
    ensures
        r is Ok <==> scalar_chunks_canonical(bytes@, start as int, count as int),
        r matches Ok(v) ==> v@.len() == count && scalar_list_bytes(
            v@.map_values(|x: GroupScalar| x@),
        ) == bytes@.subrange(start as int, start + 32 * count),
        r matches Err(e) ==> e is DecodingError,
{
    let total = bytes.len();
    let mut out: Vec<GroupScalar> = Vec::new();
    let mut i: usize = 0;
    while i < count
        invariant
            i <= count,
            total == bytes@.len(),
            start + 32 * count <= total,
            out@.len() == i,
            scalar_chunks_canonical(bytes@, start as int, i as int),
            scalar_list_bytes(out@.map_values(|x: GroupScalar| x@)) == bytes@.subrange(
                start as int,
                start + 32 * i,
            ),
        decreases count - i,
    {
        let ghost pre = out@.map_values(|x: GroupScalar| x@);
        let lo = start + 32 * i;
        let chunk = vstd::slice::slice_subrange(bytes, lo, lo + 32);
        let s = match GroupScalar::from_canonical_bytes(chunk) {
            Some(s) => s,
            None => {
                proof {
                    if scalar_chunks_canonical(bytes@, start as int, count as int) {
                        lemma_scalar_chunk_at(bytes@, start as int, count as int, i as int);
                    }
                }
                return Err(SerializationError::DecodingError);
            },
        };
        out.push(s);
        proof {
            lemma_le_val_bytes(chunk@);
            let post = out@.map_values(|x: GroupScalar| x@);
            assert(post =~= pre.push(s@));
            assert(post.map_values(|v: nat| le_bytes(v, 32)) =~= pre.map_values(
                |v: nat| le_bytes(v, 32),
            ).push(le_bytes(s@, 32)));
            crate::byteops::lemma_flatten_bytes_push(
                pre.map_values(|v: nat| le_bytes(v, 32)),
                le_bytes(s@, 32),
            );
            assert(le_bytes(s@, 32) == chunk@);
            assert(bytes@.subrange(start as int, start + 32 * (i + 1)) =~= bytes@.subrange(
                start as int,
                start + 32 * i,
            ) + chunk@);
        }
        i = i + 1;
    }
    Ok(out)
}

impl GroupScalar {
    /// Decode a scalar from its canonical 32-byte little-endian encoding;
    /// non-canonical or wrongly sized input is rejected.
    pub fn from_bytes(bytes: &[u8]) -> (r: Result<GroupScalar, SerializationError>)
        ensures
            r is Ok <==> (bytes@.len() == 32 && le_val(bytes@) < group_order()),
            r matches Ok(s) ==> s@ == le_val(bytes@),
            r matches Err(e) ==> e is DecodingError,
    {
        match GroupScalar::from_canonical_bytes(bytes) {
            Some(s) => Ok(s),
            None => Err(SerializationError::DecodingError),
        }
    }
}

impl GroupPoint {
    /// Decode a point from its canonical 32-byte compressed encoding;
    /// invalid encodings are rejected.
    pub fn from_bytes(bytes: &[u8]) -> (r: Result<GroupPoint, SerializationError>)
        ensures
            r matches Ok(p) ==> point_repr(p@) == bytes@ && (forall|dl: nat|
                dl < group_order() && point_repr(dl) == bytes@ ==> dl == p@),
            r is Err ==> (forall|dl: nat| dl < group_order() ==> point_repr(dl) != bytes@),
            r matches Err(e) ==> e is DecodingError,
    {
        match GroupPoint::decode(bytes) {
            Some(p) => Ok(p),
            None => Err(SerializationError::DecodingError),
        }
    }
}

impl Commitment {
    /// Encode the commitment as the 32-byte compressed encoding of its point.
    pub fn to_bytes(&self) -> (r: Result<Vec<u8>, SerializationError>)
        ensures
            r matches Ok(b) ==> b@ == point_repr(self@) && b@.len() == 32,
            r is Ok,
    {
        Ok(self.0.encode())
    }

    /// Decode a commitment from a 32-byte compressed point encoding.
    pub fn from_bytes(bytes: &[u8]) -> (r: Result<Commitment, SerializationError>)
        ensures
            r matches Ok(c) ==> point_repr(c@) == bytes@ && (forall|dl: nat|
                dl < group_order() && point_repr(dl) == bytes@ ==> dl == c@),
            r is Err ==> (forall|dl: nat| dl < group_order() ==> point_repr(dl) != bytes@),
            r matches Err(e) ==> e is DecodingError,
    {
        match GroupPoint::decode(bytes) {
            Some(p) => Ok(Commitment(p)),
            None => Err(SerializationError::DecodingError),
        }
    }
}

/// The 64-byte wire form of an enote: owner encoding then commitment encoding.
pub open spec fn enote_bytes(e: Enote) -> Seq<u8> {
    point_repr(e.owner@) + point_repr(e.commitment@)
}

impl Enote {
    /// Encode the enote as owner followed by commitment, 64 bytes; the
    /// output is always accepted back by `from_bytes`.
    pub fn to_bytes(&self) -> (r: Result<Vec<u8>, SerializationError>)
        ensures
            r matches Ok(b) ==> b@ == enote_bytes(*self) && b@.len() == 64,
            r matches Ok(b) ==> decodable_point(b@.subrange(0, 32)) && decodable_point(
                b@.subrange(32, 64),
            ),
            r is Ok,
    {
        let mut out = self.owner.encode();
        let com = self.commitment.0.encode();
        append_bytes(&mut out, com.as_slice());
        proof {
            use_type_invariant(&self.owner);
            use_type_invariant(&self.commitment.0);
            assert(out@.subrange(0, 32) =~= point_repr(self.owner@));
            assert(out@.subrange(32, 64) =~= point_repr(self.commitment@));
        }
        Ok(out)
    }

    /// Decode an enote from its 64-byte wire form; accepts exactly 64 bytes
    /// whose halves are canonical point encodings.
    pub fn from_bytes(bytes: &[u8]) -> (r: Result<Enote, SerializationError>)
        ensures
            r is Ok <==> (bytes@.len() == 64 && decodable_point(bytes@.subrange(0, 32))
                && decodable_point(bytes@.subrange(32, 64))),
            r matches Ok(e) ==> bytes@.len() == 64 && enote_bytes(e) == bytes@,
            r matches Err(e) ==> e is DecodingError,
    {
        if bytes.len() != 64 {
            return Err(SerializationError::DecodingError);
        }
        let owner = match GroupPoint::decode(vstd::slice::slice_subrange(bytes, 0, 32)) {
            Some(p) => p,
            None => {
                return Err(SerializationError::DecodingError);
            },
        };
        let commitment = match GroupPoint::decode(vstd::slice::slice_subrange(bytes, 32, 64)) {
            Some(p) => p,
            None => {
                return Err(SerializationError::DecodingError);
            },
        };
        proof {
            assert(bytes@.subrange(0, 32) + bytes@.subrange(32, 64) =~= bytes@);
        }
        Ok(Enote { owner, commitment: Commitment(commitment) })
    }
}

/// The 72-byte wire form of enote keys: owner scalar, value (little endian),
/// blinding scalar.
pub open spec fn enote_keys_bytes(k: EnoteKeys) -> Seq<u8> {
    le_bytes(k.owner@, 32) + vstd::bytes::spec_u64_to_le_bytes(k.value) + le_bytes(
        k.blinding@,
        32,
    )
}

impl EnoteKeys {
    /// Encode the keys as owner scalar, value, and blinding scalar, 72 bytes.
    pub fn to_bytes(&self) -> (r: Result<Vec<u8>, SerializationError>)
        ensures
            r matches Ok(b) ==> b@ == enote_keys_bytes(*self) && b@.len() == 72,
            r is Ok,
    {
        let mut out = self.owner.to_bytes();
        let value = u64_to_le(self.value);
        append_bytes(&mut out, value.as_slice());
        let blinding = self.blinding.to_bytes();
        append_bytes(&mut out, blinding.as_slice());
        Ok(out)
    }

    /// Decode enote keys from their 72-byte wire form; either scalar being
    /// non-canonical is rejected.
    pub fn from_bytes(bytes: &[u8]) -> (r: Result<EnoteKeys, SerializationError>)
        ensures
            r is Ok <==> (bytes@.len() == 72 && le_val(bytes@.subrange(0, 32)) < group_order()
                && le_val(bytes@.subrange(40, 72)) < group_order()),
            r matches Ok(k) ==> k.owner@ == le_val(bytes@.subrange(0, 32)) && k.value
                == vstd::bytes::spec_u64_from_le_bytes(bytes@.subrange(32, 40)) && k.blinding@
                == le_val(bytes@.subrange(40, 72)),
            r matches Err(e) ==> e is DecodingError,
    {
        if bytes.len() != 72 {
            return Err(SerializationError::DecodingError);
        }
        let owner = match GroupScalar::from_canonical_bytes(
            vstd::slice::slice_subrange(bytes, 0, 32),
        ) {
            Some(s) => s,
            None => {
                return Err(SerializationError::DecodingError);
            },
        };
        let value = u64_from_le(vstd::slice::slice_subrange(bytes, 32, 40));
        let blinding = match GroupScalar::from_canonical_bytes(
            vstd::slice::slice_subrange(bytes, 40, 72),
        ) {
            Some(s) => s,
            None => {
                return Err(SerializationError::DecodingError);
            },
        };
        Ok(EnoteKeys { owner, value, blinding })
    }
}

} // verus!
