use vstd::prelude::*;
use bucky_raw_codec::{RawConvertTo, RawDecode};

verus! {

/// Big-endian bytes of a `u16`.
pub open spec fn spec_be16(v: u16) -> Seq<u8> {
    seq![(v / 256) as u8, (v % 256) as u8]
}

/// Big-endian bytes of a `u32`.
pub open spec fn spec_be32(v: u32) -> Seq<u8> {
    spec_be16((v / 65536) as u16) + spec_be16((v % 65536) as u16)
}

/// Big-endian bytes of a `u64`.
pub open spec fn spec_be64(v: u64) -> Seq<u8> {
    spec_be32((v / 0x1_0000_0000) as u32) + spec_be32((v % 0x1_0000_0000) as u32)
}

/// The `u16` whose big-endian bytes start `s`.
pub open spec fn spec_from_be16(s: Seq<u8>) -> u16 {
    (s[0] * 256 + s[1]) as u16
}

/// The `u32` whose big-endian bytes start `s`.
pub open spec fn spec_from_be32(s: Seq<u8>) -> u32 {
    (spec_from_be16(s) * 65536 + spec_from_be16(s.subrange(2, 4))) as u32
}

/// The `u64` whose big-endian bytes start `s`.
pub open spec fn spec_from_be64(s: Seq<u8>) -> u64 {
    (spec_from_be32(s) * 0x1_0000_0000 + spec_from_be32(s.subrange(4, 8))) as u64
}

/// A `u16` reads back from its big-endian bytes.
pub proof fn lemma_be16_roundtrip(v: u16)
    ensures
        spec_be16(v).len() == 2,
        spec_from_be16(spec_be16(v)) == v,
{
}

/// A `u32` reads back from its big-endian bytes.
pub proof fn lemma_be32_roundtrip(v: u32)
    ensures
        spec_be32(v).len() == 4,
        spec_from_be32(spec_be32(v)) == v,
{
    let hi = (v / 65536) as u16;
    let lo = (v % 65536) as u16;
    lemma_be16_roundtrip(hi);
    lemma_be16_roundtrip(lo);
    assert(spec_be32(v).subrange(2, 4) =~= spec_be16(lo));
    assert(spec_from_be16(spec_be32(v)) == hi);
}

/// A `u64` reads back from its big-endian bytes.
pub proof fn lemma_be64_roundtrip(v: u64)
    ensures
        spec_be64(v).len() == 8,
        spec_from_be64(spec_be64(v)) == v,
{
    let hi = (v / 0x1_0000_0000) as u32;
    let lo = (v % 0x1_0000_0000) as u32;
    lemma_be32_roundtrip(hi);
    lemma_be32_roundtrip(lo);
    let s = spec_be64(v);
    assert(s.subrange(4, 8) =~= spec_be32(lo));
    assert(s.subrange(2, 4) =~= spec_be32(hi).subrange(2, 4));
    assert(spec_from_be32(s) == spec_from_be32(spec_be32(hi)));
}

/// The prefix of `s` decides what a big-endian read of it gives.
pub proof fn lemma_from_be_prefix(s: Seq<u8>, t: Seq<u8>)
    ensures
        s.len() >= 2 && t.len() >= 2 && s.subrange(0, 2) == t.subrange(0, 2) ==> spec_from_be16(s)
            == spec_from_be16(t),
        s.len() >= 4 && t.len() >= 4 && s.subrange(0, 4) == t.subrange(0, 4) ==> spec_from_be32(s)
            == spec_from_be32(t),
        s.len() >= 8 && t.len() >= 8 && s.subrange(0, 8) == t.subrange(0, 8) ==> spec_from_be64(s)
            == spec_from_be64(t),
{
    if s.len() >= 2 && t.len() >= 2 && s.subrange(0, 2) == t.subrange(0, 2) {
        assert(s[0] == s.subrange(0, 2)[0] && s[1] == s.subrange(0, 2)[1]);
        assert(t[0] == t.subrange(0, 2)[0] && t[1] == t.subrange(0, 2)[1]);
    }
    if s.len() >= 4 && t.len() >= 4 && s.subrange(0, 4) == t.subrange(0, 4) {
        assert(s[0] == s.subrange(0, 4)[0] && s[1] == s.subrange(0, 4)[1]);
        assert(t[0] == t.subrange(0, 4)[0] && t[1] == t.subrange(0, 4)[1]);
        assert(s.subrange(2, 4) =~= s.subrange(0, 4).subrange(2, 4));
        assert(t.subrange(2, 4) =~= t.subrange(0, 4).subrange(2, 4));
    }
    if s.len() >= 8 && t.len() >= 8 && s.subrange(0, 8) == t.subrange(0, 8) {
        assert(s[0] == s.subrange(0, 8)[0] && s[1] == s.subrange(0, 8)[1]);
        assert(t[0] == t.subrange(0, 8)[0] && t[1] == t.subrange(0, 8)[1]);
        assert(s.subrange(2, 4) =~= s.subrange(0, 8).subrange(2, 4));
        assert(t.subrange(2, 4) =~= t.subrange(0, 8).subrange(2, 4));
        let s4 = s.subrange(4, 8);
        let t4 = t.subrange(4, 8);
        assert(s4 =~= s.subrange(0, 8).subrange(4, 8));
        assert(t4 =~= t.subrange(0, 8).subrange(4, 8));
        assert(s4.subrange(2, 4) =~= t4.subrange(2, 4));
    }
}

/// Calls `<u8 as RawDecode>::raw_decode`, which reads one byte and fails on
/// an empty buffer.
#[verifier::external_body]
pub(crate) fn decode_u8(buf: &[u8]) -> (r: Option<u8>)
    ensures
        r is Some <==> buf@.len() >= 1,
        r matches Some(v) ==> v == buf@[0],
{
    match u8::raw_decode(buf) {
        Ok((v, _)) => Some(v),
        Err(_) => None,
    }
}

/// Calls `<u16 as RawDecode>::raw_decode`, which reads two bytes big-endian
/// and fails on a shorter buffer.
#[verifier::external_body]
pub(crate) fn decode_u16(buf: &[u8]) -> (r: Option<u16>)
    ensures
        r is Some <==> buf@.len() >= 2,
        r matches Some(v) ==> v == spec_from_be16(buf@),
{
    match u16::raw_decode(buf) {
        Ok((v, _)) => Some(v),
        Err(_) => None,
    }
}

/// Calls `<u32 as RawDecode>::raw_decode`, which reads four bytes big-endian
/// and fails on a shorter buffer.
#[verifier::external_body]
pub(crate) fn decode_u32(buf: &[u8]) -> (r: Option<u32>)
    ensures
        r is Some <==> buf@.len() >= 4,
        r matches Some(v) ==> v == spec_from_be32(buf@),
{
    match u32::raw_decode(buf) {
        Ok((v, _)) => Some(v),
        Err(_) => None,
    }
}

/// Calls `<u64 as RawDecode>::raw_decode`, which reads eight bytes big-endian
/// and fails on a shorter buffer.
#[verifier::external_body]
pub(crate) fn decode_u64(buf: &[u8]) -> (r: Option<u64>)
    ensures
        r is Some <==> buf@.len() >= 8,
        r matches Some(v) ==> v == spec_from_be64(buf@),
{
    match u64::raw_decode(buf) {
        Ok((v, _)) => Some(v),
        Err(_) => None,
    }
}

/// Calls `RawConvertTo::to_vec` on a `u8`: the one byte itself (the encoding
/// never fails).
#[verifier::external_body]
pub(crate) fn encode_u8(v: u8) -> (r: Vec<u8>)
    ensures
        r@ == seq![v],
{
    match v.to_vec() {
        Ok(bytes) => bytes,
        Err(_) => Vec::new(),
    }
}

/// Calls `RawConvertTo::to_vec` on a `u16`: its two big-endian bytes (the
/// encoding never fails).
#[verifier::external_body]
pub(crate) fn encode_u16(v: u16) -> (r: Vec<u8>)
    ensures
        r@ == spec_be16(v),
{
    match v.to_vec() {
        Ok(bytes) => bytes,
        Err(_) => Vec::new(),
    }
}

/// Calls `RawConvertTo::to_vec` on a `u32`: its four big-endian bytes (the
/// encoding never fails).
#[verifier::external_body]
pub(crate) fn encode_u32(v: u32) -> (r: Vec<u8>)
    ensures
        r@ == spec_be32(v),
{
    match v.to_vec() {
        Ok(bytes) => bytes,
        Err(_) => Vec::new(),
    }
}

/// Calls `RawConvertTo::to_vec` on a `u64`: its eight big-endian bytes (the
/// encoding never fails).
#[verifier::external_body]
pub(crate) fn encode_u64(v: u64) -> (r: Vec<u8>)
    ensures
        r@ == spec_be64(v),
{
    match v.to_vec() {
        Ok(bytes) => bytes,
        Err(_) => Vec::new(),
    }
}

/// Appends `tail` to `out`.
pub fn append_bytes(out: &mut Vec<u8>, tail: &[u8])
    ensures
        final(out)@ == old(out)@ + tail@,
{
    let ghost start = out@;
    let mut i: usize = 0;
    while i < tail.len()
        invariant
            i <= tail@.len(),
            out@ == start + tail@.subrange(0, i as int),
        decreases tail.len() - i,
    {
        out.push(tail[i]);
        i = i + 1;
        assert(out@ =~= start + tail@.subrange(0, i as int));
    }
    assert(tail@.subrange(0, tail@.len() as int) =~= tail@);
}

} // verus!
