//! Small operations on byte strings that the codecs and the maps share.

use vstd::prelude::*;

verus! {

/// The two bytes of a 16-bit integer, least significant first.
pub open spec fn spec_u16_le(x: u16) -> Seq<u8> {
    seq![(x % 256) as u8, (x / 256) as u8]
}

/// The 16-bit integer that two bytes spell, least significant first.
pub open spec fn spec_u16_from_le(low: u8, high: u8) -> u16 {
    (low + 256 * high) as u16
}

/// Returns the two bytes of `x`, least significant first.
pub fn u16_le(x: u16) -> (r: Vec<u8>)
    ensures
        r@ == spec_u16_le(x),
{
    let low: u8 = (x % 256) as u8;
    let high: u8 = (x / 256) as u8;
    let mut r: Vec<u8> = Vec::new();
    r.push(low);
    r.push(high);
    assert(r@ =~= spec_u16_le(x));
    r
}

/// Returns the integer that `low` and `high` spell, least significant first.
pub fn u16_from_le(low: u8, high: u8) -> (r: u16)
    ensures
        r == spec_u16_from_le(low, high),
{
    let l: u16 = low as u16;
    let h: u16 = high as u16;
    l + 256 * h
}

/// Reading back the two bytes of an integer gives the integer, and two
/// integers with the same bytes are the same.
pub proof fn lemma_u16_le(x: u16, y: u16)
    ensures
        spec_u16_le(x).len() == 2,
        spec_u16_from_le(spec_u16_le(x)[0], spec_u16_le(x)[1]) == x,
        spec_u16_le(x) == spec_u16_le(y) ==> x == y,
{
    if spec_u16_le(x) == spec_u16_le(y) {
        assert(spec_u16_le(x)[0] == spec_u16_le(y)[0]);
        assert(spec_u16_le(x)[1] == spec_u16_le(y)[1]);
    }
}

/// Appends `src` to `dst`.
pub fn append_bytes(dst: &mut Vec<u8>, src: &[u8])
    ensures
        final(dst)@ == old(dst)@ + src@,
{
    let mut i: usize = 0;
    while i < src.len()
        invariant
            i <= src@.len(),
            dst@ == old(dst)@ + src@.take(i as int),
        decreases src@.len() - i,
    {
        dst.push(src[i]);
        assert(src@.take(i + 1) =~= src@.take(i as int).push(src@[i as int]));
        i += 1;
    }
    assert(src@.take(i as int) =~= src@);
}

/// Returns `a` followed by `b`.
pub fn concat_bytes(a: &[u8], b: &[u8]) -> (r: Vec<u8>)
    ensures
        r@ == a@ + b@,
{
    let mut r: Vec<u8> = Vec::new();
    append_bytes(&mut r, a);
    append_bytes(&mut r, b);
    assert(r@ =~= a@ + b@);
    r
}

/// Returns a copy of `bytes`.
pub fn clone_bytes(bytes: &[u8]) -> (r: Vec<u8>)
    ensures
        r@ == bytes@,
{
    let mut r: Vec<u8> = Vec::new();
    append_bytes(&mut r, bytes);
    assert(r@ =~= bytes@);
    r
}

/// Returns the bytes of `bytes` from position `from` up to `to`.
pub fn copy_range(bytes: &[u8], from: usize, to: usize) -> (r: Vec<u8>)
    requires
        from <= to <= bytes@.len(),
    ensures
        r@ == bytes@.subrange(from as int, to as int),
{
    let mut r: Vec<u8> = Vec::new();
    let mut i: usize = from;
    while i < to
        invariant
            from <= i <= to <= bytes@.len(),
            r@ == bytes@.subrange(from as int, i as int),
        decreases to - i,
    {
        r.push(bytes[i]);
        assert(bytes@.subrange(from as int, i + 1) =~= bytes@.subrange(from as int, i as int).push(
            bytes@[i as int],
        ));
        i += 1;
    }
    r
}

/// Tells whether two byte strings are the same.
pub fn bytes_equal(a: &[u8], b: &[u8]) -> (r: bool)
    ensures
        r == (a@ == b@),
{
    if a.len() != b.len() {
        return false;
    }
    let mut i: usize = 0;
    while i < a.len()
        invariant
            i <= a@.len(),
            a@.len() == b@.len(),
            forall|j: int| 0 <= j < i ==> a@[j] == b@[j],
        decreases a@.len() - i,
    {
        if a[i] != b[i] {
            return false;
        }
        i += 1;
    }
    assert(a@ =~= b@);
    true
}

/// Tells whether `bytes` begins with `prefix`.
pub fn starts_with(bytes: &[u8], prefix: &[u8]) -> (r: bool)
    ensures
        r == prefix@.is_prefix_of(bytes@),
{
    if prefix.len() > bytes.len() {
        return false;
    }
    let mut i: usize = 0;
    while i < prefix.len()
        invariant
            i <= prefix@.len() <= bytes@.len(),
            forall|j: int| 0 <= j < i ==> prefix@[j] == bytes@[j],
        decreases prefix@.len() - i,
    {
        if prefix[i] != bytes[i] {
            assert(bytes@.subrange(0, prefix@.len() as int)[i as int] != prefix@[i as int]);
            return false;
        }
        i += 1;
    }
    assert(prefix@ =~= bytes@.subrange(0, prefix@.len() as int));
    true
}

} // verus!
