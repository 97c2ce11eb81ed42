//! Small verified helpers for byte buffers: concatenation and fixed-width
//! integer codecs used throughout the wire formats.

use vstd::prelude::*;

verus! {

/// Append all of `src` to `dst`.
pub fn append_bytes(dst: &mut Vec<u8>, src: &[u8])
    ensures
        final(dst)@ == old(dst)@ + src@,
{
    let ghost start = dst@;
    let mut i: usize = 0;
    while i < src.len()
        invariant
            i <= src@.len(),
            dst@ == start + src@.subrange(0, i as int),
        decreases src@.len() - i,
    {
        let b = src[i];
        dst.push(b);
        proof {
            assert(src@.subrange(0, i + 1) =~= src@.subrange(0, i as int) + seq![src@[i as int]]);
        }
        i = i + 1;
    }
    proof {
        assert(src@.subrange(0, src@.len() as int) =~= src@);
    }
}

/// Concatenation of a sequence of byte strings.
pub open spec fn flatten_bytes(parts: Seq<Seq<u8>>) -> Seq<u8>
    decreases parts.len(),
{
    if parts.len() == 0 {
        Seq::empty()
    } else {
        parts[0] + flatten_bytes(parts.skip(1))
    }
}

/// Concatenate a list of byte vectors into one buffer.
pub fn concat_byte_vecs(parts: &Vec<Vec<u8>>) -> (r: Vec<u8>)
    ensures
        r@ == flatten_bytes(parts@.map_values(|p: Vec<u8>| p@)),
{
    let ghost model = parts@.map_values(|p: Vec<u8>| p@);
    let mut out: Vec<u8> = Vec::new();
    let mut i: usize = 0;
    while i < parts.len()
        invariant
            i <= parts@.len(),
            model == parts@.map_values(|p: Vec<u8>| p@),
            out@ == flatten_bytes(model.subrange(0, i as int)),
        decreases parts@.len() - i,
    {
        append_bytes(&mut out, parts[i].as_slice());
        proof {
            lemma_flatten_bytes_push(model.subrange(0, i as int), model[i as int]);
            assert(model.subrange(0, i + 1) =~= model.subrange(0, i as int).push(
                model[i as int],
            ));
        }
        i = i + 1;
    }
    proof {
        assert(model.subrange(0, model.len() as int) =~= model);
    }
    out
}

/// Flattening distributes over appending one more part at the end.
pub proof fn lemma_flatten_bytes_push(parts: Seq<Seq<u8>>, last: Seq<u8>)
    ensures
        flatten_bytes(parts.push(last)) == flatten_bytes(parts) + last,
    decreases parts.len(),
{
    if parts.len() == 0 {
        assert(parts.push(last)[0] == last);
        assert(parts.push(last).skip(1) =~= Seq::<Seq<u8>>::empty());
        assert(flatten_bytes(parts.push(last)) == last + flatten_bytes(
            Seq::<Seq<u8>>::empty(),
        ));
        assert(last + Seq::<u8>::empty() =~= last);
        assert(flatten_bytes(parts) + last =~= last);
    } else {
        assert(parts.push(last).skip(1) =~= parts.skip(1).push(last));
        lemma_flatten_bytes_push(parts.skip(1), last);
        assert(flatten_bytes(parts.push(last)) =~= parts[0] + (flatten_bytes(parts.skip(1))
            + last));
        assert(flatten_bytes(parts) + last =~= parts[0] + (flatten_bytes(parts.skip(1)) + last));
    }
}

/// Strict lexicographic order on byte strings.
/// The flattening of uniformly sized blocks has their total length, and
/// each block sits whole at its offset.
pub proof fn lemma_flatten_uniform(parts: Seq<Seq<u8>>, w: int)
    requires
        w >= 0,
        forall|a: int| 0 <= a < parts.len() ==> (#[trigger] parts[a]).len() == w,
    ensures
        flatten_bytes(parts).len() == w * parts.len(),
        forall|a: int|
            0 <= a < parts.len() ==> flatten_bytes(parts).subrange(w * a, w * a + w)
                == #[trigger] parts[a],
    decreases parts.len(),
{
    if parts.len() == 0 {
        assert(w * 0 == 0) by (nonlinear_arith);
    } else {
        lemma_flatten_uniform(parts.skip(1), w);
        assert(w * parts.len() == w + w * (parts.len() - 1)) by (nonlinear_arith);
        assert forall|a: int|
            0 <= a < parts.len() implies flatten_bytes(parts).subrange(w * a, w * a + w)
            == #[trigger] parts[a] by {
            if a == 0 {
                assert(flatten_bytes(parts).subrange(0, w) =~= parts[0]);
            } else {
                assert(parts.skip(1)[a - 1] == parts[a]);
                assert(w * (a - 1) == w * a - w) by (nonlinear_arith);
                assert(0 <= w * (a - 1)) by (nonlinear_arith)
                    requires
                        w >= 0,
                        a >= 1,
                ;
                assert(w * a + w <= w * parts.len()) by (nonlinear_arith)
                    requires
                        w >= 0,
                        a < parts.len(),
                ;
                assert(flatten_bytes(parts.skip(1)).subrange(w * (a - 1), w * (a - 1) + w)
                    == parts[a]);
                assert(flatten_bytes(parts).subrange(w * a, w * a + w) =~= flatten_bytes(
                    parts.skip(1),
                ).subrange(w * (a - 1), w * (a - 1) + w));
            }
        }
    }
}

pub open spec fn bytes_lt(a: Seq<u8>, b: Seq<u8>) -> bool
    decreases a.len(),
{
    if b.len() == 0 {
        false
    } else if a.len() == 0 {
        true
    } else if a[0] != b[0] {
        a[0] < b[0]
    } else {
        bytes_lt(a.skip(1), b.skip(1))
    }
}

/// On strings of equal length, the lexicographic order is trichotomous.
pub proof fn lemma_bytes_lt_trichotomy(a: Seq<u8>, b: Seq<u8>)
    requires
        a.len() == b.len(),
    ensures
        bytes_lt(a, b) || bytes_lt(b, a) || a == b,
    decreases a.len(),
{
    if a.len() != 0 && a[0] == b[0] {
        lemma_bytes_lt_trichotomy(a.skip(1), b.skip(1));
        if a.skip(1) == b.skip(1) {
            assert forall|i: int| 0 <= i < a.len() implies a[i] == b[i] by {
                if i >= 1 {
                    assert(a[i] == a.skip(1)[i - 1]);
                    assert(b[i] == b.skip(1)[i - 1]);
                }
            }
            assert(a =~= b);
        }
    }
}

/// On strings of equal length, the lexicographic order is transitive.
pub proof fn lemma_bytes_lt_trans(a: Seq<u8>, b: Seq<u8>, c: Seq<u8>)
    requires
        a.len() == b.len(),
        b.len() == c.len(),
        bytes_lt(a, b),
        bytes_lt(b, c),
    ensures
        bytes_lt(a, c),
    decreases a.len(),
{
    if a.len() != 0 && a[0] == b[0] && b[0] == c[0] {
        lemma_bytes_lt_trans(a.skip(1), b.skip(1), c.skip(1));
    }
}

/// Dropping an equal first byte from both strings keeps the order.
proof fn lemma_bytes_lt_skip_one(a: Seq<u8>, b: Seq<u8>, i: int)
    requires
        0 <= i < a.len(),
        i < b.len(),
        a[i] == b[i],
    ensures
        bytes_lt(a.skip(i), b.skip(i)) == bytes_lt(a.skip(i + 1), b.skip(i + 1)),
{
    assert(a.skip(i).len() != 0 && b.skip(i).len() != 0);
    assert(a.skip(i)[0] == a[i] && b.skip(i)[0] == b[i]);
    assert(a.skip(i).skip(1) =~= a.skip(i + 1));
    assert(b.skip(i).skip(1) =~= b.skip(i + 1));
}

/// Compare two byte strings in lexicographic order.
pub fn bytes_less(a: &[u8], b: &[u8]) -> (r: bool)
    ensures
        r == bytes_lt(a@, b@),
{
    proof {
        assert(a@.skip(0) =~= a@);
        assert(b@.skip(0) =~= b@);
    }
    let mut i: usize = 0;
    while i < a.len() && i < b.len()
        invariant
            i <= a@.len(),
            i <= b@.len(),
            bytes_lt(a@, b@) == bytes_lt(a@.skip(i as int), b@.skip(i as int)),
        decreases a@.len() - i,
    {
        if a[i] != b[i] {
            proof {
                assert(a@.skip(i as int)[0] == a@[i as int]);
                assert(b@.skip(i as int)[0] == b@[i as int]);
            }
            return a[i] < b[i];
        }
        proof {
            lemma_bytes_lt_skip_one(a@, b@, i as int);
        }
        i = i + 1;
    }
    proof {
        if i == a@.len() {
            assert(a@.skip(i as int).len() == 0);
        } else {
            assert(b@.skip(i as int).len() == 0);
        }
    }
    a.len() < b.len()
}

/// Test two byte strings for equality.
pub fn bytes_eq(a: &[u8], b: &[u8]) -> (r: bool)
    ensures
        r == (a@ == b@),
{
    if a.len() != b.len() {
        proof {
            assert(a@.len() != b@.len());
        }
        return false;
    }
    let mut i: usize = 0;
    while i < a.len()
        invariant
            i <= a@.len(),
            a@.len() == b@.len(),
            forall|j: int| 0 <= j < i ==> a@[j] == b@[j],
        decreases a@.len() - i,
    {
        if a[i] != b[i] {
            return false;
        }
        i = i + 1;
    }
    proof {
        assert(a@ =~= b@);
    }
    true
}

/// Little-endian decode of 8 bytes into a `u64`.
pub fn u64_from_le(bytes: &[u8]) -> (r: u64)
    requires
        bytes@.len() == 8,
    ensures
        r == vstd::bytes::spec_u64_from_le_bytes(bytes@),
{
    vstd::bytes::u64_from_le_bytes(bytes)
}

/// Little-endian encode of a `u64` into 8 bytes.
pub fn u64_to_le(x: u64) -> (r: Vec<u8>)
    ensures
        r@ == vstd::bytes::spec_u64_to_le_bytes(x),
        r@.len() == 8,
{
    let r = vstd::bytes::u64_to_le_bytes(x);
    proof {
        vstd::bytes::lemma_auto_spec_u64_to_from_le_bytes();
    }
    r
}

/// Big-endian decode of 8 bytes into a `u64`: the little-endian decode of the
/// reversed bytes.
pub fn u64_from_be(bytes: &[u8]) -> (r: u64)
    requires
        bytes@.len() == 8,
    ensures
        r == vstd::bytes::spec_u64_from_le_bytes(bytes@.reverse()),
{
    let mut rev: Vec<u8> = Vec::new();
    let mut i: usize = 0;
    while i < 8
        invariant
            i <= 8,
            bytes@.len() == 8,
            rev@.len() == i,
            forall|j: int| 0 <= j < i ==> rev@[j] == bytes@[7 - j],
        decreases 8 - i,
    {
        rev.push(bytes[7 - i]);
        i = i + 1;
    }
    proof {
        assert(rev@ =~= bytes@.reverse());
    }
    u64_from_le(rev.as_slice())
}

} // verus!
