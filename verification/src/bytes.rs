//! Byte-level helpers shared by the wire formats.

use vstd::prelude::*;
use vstd::utf8::*;

verus! {

/// The two bytes of `v` in network (big-endian) order.
pub open spec fn be16_bytes(v: u16) -> Seq<u8> {
    seq![(v / 256) as u8, (v % 256) as u8]
}

/// The value of two bytes read in network (big-endian) order.
pub open spec fn be16_value(hi: u8, lo: u8) -> u16 {
    (hi as int * 256 + lo as int) as u16
}

pub proof fn lemma_be16_roundtrip(v: u16)
    ensures
        be16_value(be16_bytes(v)[0], be16_bytes(v)[1]) == v,
{
}

pub proof fn lemma_be16_bytes_of_value(hi: u8, lo: u8)
    ensures
        be16_bytes(be16_value(hi, lo)) == seq![hi, lo],
{
    assert(be16_bytes(be16_value(hi, lo)) =~= seq![hi, lo]);
}

/// Reads a big-endian `u16` at `at`.
pub fn read_be16(buf: &[u8], at: usize) -> (v: u16)
    requires
        at + 2 <= buf@.len(),
    ensures
        v == be16_value(buf@[at as int], buf@[at + 1]),
{
    let hi = buf[at] as u16;
    let lo = buf[at + 1] as u16;
    hi * 256 + lo
}

/// Appends `v` in big-endian order.
pub fn push_be16(out: &mut Vec<u8>, v: u16)
    ensures
        final(out)@ == old(out)@ + be16_bytes(v),
{
    out.push((v / 256) as u8);
    out.push((v % 256) as u8);
    assert(final(out)@ =~= old(out)@ + be16_bytes(v));
}

/// Appends every byte of `src`.
pub fn push_all(out: &mut Vec<u8>, src: &[u8])
    ensures
        final(out)@ == old(out)@ + src@,
{
    let ghost start = out@;
    let mut i: usize = 0;
    while i < src.len()
        invariant
            i <= src@.len(),
            out@ == start + src@.subrange(0, i as int),
        decreases src@.len() - i,
    {
        out.push(src[i]);
        i = i + 1;
        assert(out@ =~= start + src@.subrange(0, i as int));
    }
    assert(src@.subrange(0, i as int) =~= src@);
}

/// A fresh vector holding `buf[start..end]`.
pub fn copy_range(buf: &[u8], start: usize, end: usize) -> (r: Vec<u8>)
    requires
        start <= end <= buf@.len(),
    ensures
        r@ == buf@.subrange(start as int, end as int),
{
    let mut r: Vec<u8> = Vec::new();
    let mut i: usize = start;
    while i < end
        invariant
            start <= i <= end <= buf@.len(),
            r@ == buf@.subrange(start as int, i as int),
        decreases end - i,
    {
        r.push(buf[i]);
        i = i + 1;
        assert(r@ =~= buf@.subrange(start as int, i as int));
    }
    r
}

/// Decodes `bytes` as UTF-8 text through `std::str::from_utf8`.
/// The contract claims what the standard library documents: the call succeeds
/// exactly when the bytes are valid UTF-8, and the text then holds the
/// characters those bytes encode.
#[verifier::external_body]
pub(crate) fn decode_utf8_text(bytes: &[u8]) -> (r: Option<String>)
    ensures
        r.is_some() <==> valid_utf8(bytes@),
        r matches Some(s) ==> s@ == decode_utf8(bytes@),
{
    match std::str::from_utf8(bytes) {
        Ok(s) => Some(s.to_string()),
        Err(_) => None,
    }
}

/// The UTF-8 bytes of `s`.
pub fn utf8_bytes(s: &String) -> (r: Vec<u8>)
    ensures
        r@ == encode_utf8(s@),
{
    let b = s.as_str().as_bytes();
    let mut r: Vec<u8> = Vec::new();
    push_all(&mut r, b);
    assert(r@ =~= b@);
    r
}

} // verus!
