use vstd::prelude::*;
use crate::endpoint::{Endpoint, EndpointArea, IpAddr, Protocol, SocketAddr};
use crate::types::P2pId;
use crate::codec::{
    append_bytes, decode_u16, decode_u32, decode_u64, decode_u8, encode_u16, encode_u32,
    encode_u64, encode_u8, lemma_be16_roundtrip, lemma_be32_roundtrip, lemma_be64_roundtrip,
    lemma_from_be_prefix, spec_be16, spec_be32, spec_be64, spec_from_be16, spec_from_be32,
    spec_from_be64,
};

verus! {

/// Largest size a variable-size field can carry.
pub const VARSIZE_MAX: u64 = 0x3FFF_FFFF_FFFF_FFFF;

/// Largest element count a list field may announce when it is read.
pub const MAX_LIST_LEN: u64 = 0x07FF_FFFF;

/// Bytes of a variable-size count: one byte up to 63, else two, four or
/// eight big-endian bytes whose top two bits say which (`01`, `11`, `10`).
pub open spec fn spec_varsize(v: nat) -> Seq<u8> {
    if v <= 63 {
        seq![v as u8]
    } else if v <= 16383 {
        spec_be16((v + 0x4000) as u16)
    } else if v <= 0x3FFF_FFFF {
        spec_be32((v + 0xC000_0000) as u32)
    } else {
        spec_be64((v + 0x8000_0000_0000_0000) as u64)
    }
}

/// A variable-size count read from the start of `b`, and what follows it.
pub open spec fn spec_parse_varsize(b: Seq<u8>) -> Option<(nat, Seq<u8>)> {
    if b.len() < 1 {
        None
    } else if b[0] / 64 == 0 {
        Some((b[0] as nat, b.skip(1)))
    } else if b[0] / 64 == 1 {
        if b.len() < 2 {
            None
        } else {
            Some(((spec_from_be16(b) % 16384) as nat, b.skip(2)))
        }
    } else if b[0] / 64 == 3 {
        if b.len() < 4 {
            None
        } else {
            Some(((spec_from_be32(b) % 0x4000_0000) as nat, b.skip(4)))
        }
    } else {
        if b.len() < 8 {
            None
        } else {
            Some(((spec_from_be64(b) % 0x4000_0000_0000_0000) as nat, b.skip(8)))
        }
    }
}

/// The prefix of `a + rest` of `a`'s length is `a`, and the rest is `rest`.
pub proof fn lemma_split(a: Seq<u8>, rest: Seq<u8>)
    ensures
        (a + rest).subrange(0, a.len() as int) == a,
        (a + rest).skip(a.len() as int) == rest,
{
    assert((a + rest).subrange(0, a.len() as int) =~= a);
    assert((a + rest).skip(a.len() as int) =~= rest);
}

/// A count reads back from its bytes, whatever follows them.
pub proof fn lemma_varsize_roundtrip(v: nat, rest: Seq<u8>)
    requires
        v <= VARSIZE_MAX,
    ensures
        spec_parse_varsize(spec_varsize(v) + rest) == Some((v, rest)),
        1 <= spec_varsize(v).len() <= 8,
{
    let e = spec_varsize(v);
    let b = e + rest;
    lemma_split(e, rest);
    if v <= 63 {
        assert(b[0] == v as u8);
    } else if v <= 16383 {
        let w = (v + 0x4000) as u16;
        lemma_be16_roundtrip(w);
        assert(b[0] == e[0]);
        assert(e[0] == (w / 256) as u8);
        lemma_from_be_prefix(b, e);
        assert(b.subrange(0, 2) == e.subrange(0, 2)) by {
            assert(e.subrange(0, 2) =~= e);
        }
    } else if v <= 0x3FFF_FFFF {
        let w = (v + 0xC000_0000) as u32;
        lemma_be32_roundtrip(w);
        assert(b[0] == e[0]);
        assert(e[0] == (((w / 65536) as u16) / 256) as u8);
        assert(e.subrange(0, 4) =~= e);
        lemma_from_be_prefix(b, e);
    } else {
        let w = (v + 0x8000_0000_0000_0000) as u64;
        lemma_be64_roundtrip(w);
        assert(b[0] == e[0]);
        assert(e[0] == (((((w / 0x1_0000_0000) as u32) / 65536) as u16) / 256) as u8);
        assert(e.subrange(0, 8) =~= e);
        lemma_from_be_prefix(b, e);
    }
}

/// The bytes of a count.
pub fn encode_varsize(v: u64) -> (r: Vec<u8>)
    requires
        v <= VARSIZE_MAX,
    ensures
        r@ == spec_varsize(v as nat),
{
    if v <= 63 {
        encode_u8(v as u8)
    } else if v <= 16383 {
        encode_u16((v + 0x4000) as u16)
    } else if v <= 0x3FFF_FFFF {
        encode_u32((v + 0xC000_0000) as u32)
    } else {
        encode_u64(v + 0x8000_0000_0000_0000)
    }
}

/// A count read from the start of `buf`, and how many bytes it took.
pub fn decode_varsize(buf: &[u8]) -> (r: Option<(u64, usize)>)
    ensures
        match spec_parse_varsize(buf@) {
            None => r is None,
            Some((v, rest)) => r matches Some((x, n)) && x == v && n <= buf@.len() && rest
                == buf@.skip(n as int),
        },
{
    let first = match decode_u8(buf) {
        Some(f) => f,
        None => {
            return None;
        },
    };
    let tag = first / 64;
    if tag == 0 {
        Some((first as u64, 1))
    } else if tag == 1 {
        match decode_u16(buf) {
            Some(w) => Some(((w % 16384) as u64, 2)),
            None => None,
        }
    } else if tag == 3 {
        match decode_u32(buf) {
            Some(w) => Some(((w % 0x4000_0000) as u64, 4)),
            None => None,
        }
    } else {
        match decode_u64(buf) {
            Some(w) => Some((w % 0x4000_0000_0000_0000, 8)),
            None => None,
        }
    }
}

/// A `u8` read from the start of `b`.
pub open spec fn spec_parse_u8(b: Seq<u8>) -> Option<(u8, Seq<u8>)> {
    if b.len() < 1 {
        None
    } else {
        Some((b[0], b.skip(1)))
    }
}

/// A big-endian `u16` read from the start of `b`.
pub open spec fn spec_parse_u16(b: Seq<u8>) -> Option<(u16, Seq<u8>)> {
    if b.len() < 2 {
        None
    } else {
        Some((spec_from_be16(b), b.skip(2)))
    }
}

/// A big-endian `u32` read from the start of `b`.
pub open spec fn spec_parse_u32(b: Seq<u8>) -> Option<(u32, Seq<u8>)> {
    if b.len() < 4 {
        None
    } else {
        Some((spec_from_be32(b), b.skip(4)))
    }
}

/// A big-endian `u64` read from the start of `b`.
pub open spec fn spec_parse_u64(b: Seq<u8>) -> Option<(u64, Seq<u8>)> {
    if b.len() < 8 {
        None
    } else {
        Some((spec_from_be64(b), b.skip(8)))
    }
}

/// A flag is one byte, 1 for set and 0 for clear; any byte other than 0
/// reads as set.
pub open spec fn spec_bool_bytes(v: bool) -> Seq<u8> {
    if v {
        seq![1u8]
    } else {
        seq![0u8]
    }
}

pub open spec fn spec_parse_bool(b: Seq<u8>) -> Option<(bool, Seq<u8>)> {
    if b.len() < 1 {
        None
    } else {
        Some((b[0] != 0, b.skip(1)))
    }
}

/// A byte string: its length as a count, then the bytes.
#[verifier::opaque]
pub open spec fn spec_bytes_field(s: Seq<u8>) -> Seq<u8> {
    spec_varsize(s.len()) + s
}

/// A byte string read from the start of `b`; one announcing more than
/// `MAX_LIST_LEN` bytes, or more than there are, is refused.
#[verifier::opaque]
pub open spec fn spec_parse_bytes_field(b: Seq<u8>) -> Option<(Seq<u8>, Seq<u8>)> {
    match spec_parse_varsize(b) {
        None => None,
        Some((n, rest)) => if n > MAX_LIST_LEN || rest.len() < n {
            None
        } else {
            Some((rest.take(n as int), rest.skip(n as int)))
        },
    }
}

pub proof fn lemma_u8_roundtrip(v: u8, rest: Seq<u8>)
    ensures
        spec_parse_u8(seq![v] + rest) == Some((v, rest)),
{
    lemma_split(seq![v], rest);
}

pub proof fn lemma_u16_roundtrip(v: u16, rest: Seq<u8>)
    ensures
        spec_parse_u16(spec_be16(v) + rest) == Some((v, rest)),
{
    let e = spec_be16(v);
    lemma_be16_roundtrip(v);
    lemma_split(e, rest);
    assert(e.subrange(0, 2) =~= e);
    lemma_from_be_prefix(e + rest, e);
}

pub proof fn lemma_u32_roundtrip(v: u32, rest: Seq<u8>)
    ensures
        spec_parse_u32(spec_be32(v) + rest) == Some((v, rest)),
{
    let e = spec_be32(v);
    lemma_be32_roundtrip(v);
    lemma_split(e, rest);
    assert(e.subrange(0, 4) =~= e);
    lemma_from_be_prefix(e + rest, e);
}

pub proof fn lemma_u64_roundtrip(v: u64, rest: Seq<u8>)
    ensures
        spec_parse_u64(spec_be64(v) + rest) == Some((v, rest)),
{
    let e = spec_be64(v);
    lemma_be64_roundtrip(v);
    lemma_split(e, rest);
    assert(e.subrange(0, 8) =~= e);
    lemma_from_be_prefix(e + rest, e);
}

pub proof fn lemma_bool_roundtrip(v: bool, rest: Seq<u8>)
    ensures
        spec_parse_bool(spec_bool_bytes(v) + rest) == Some((v, rest)),
{
    lemma_split(spec_bool_bytes(v), rest);
}

pub proof fn lemma_bytes_field_roundtrip(s: Seq<u8>, rest: Seq<u8>)
    requires
        s.len() <= MAX_LIST_LEN,
    ensures
        spec_parse_bytes_field(spec_bytes_field(s) + rest) == Some((s, rest)),
{
    reveal(spec_bytes_field);
    reveal(spec_parse_bytes_field);
    let c = spec_varsize(s.len());
    let tail = s + rest;
    let b = c + tail;
    assert(spec_bytes_field(s) + rest =~= b);
    lemma_varsize_roundtrip(s.len(), tail);
    assert(spec_parse_varsize(b) == Some((s.len(), tail)));
    assert(tail.take(s.len() as int) =~= s);
    assert(tail.skip(s.len() as int) =~= rest);
}

pub fn encode_bool(v: bool) -> (r: Vec<u8>)
    ensures
        r@ == spec_bool_bytes(v),
{
    if v {
        encode_u8(1)
    } else {
        encode_u8(0)
    }
}

/// Appends the bytes of byte string `s` to `out`.
pub fn append_bytes_field(out: &mut Vec<u8>, s: &[u8])
    requires
        s@.len() <= VARSIZE_MAX,
    ensures
        final(out)@ == old(out)@ + spec_bytes_field(s@),
{
    reveal(spec_bytes_field);
    let n = encode_varsize(s.len() as u64);
    append_bytes(out, n.as_slice());
    append_bytes(out, s);
    assert(final(out)@ =~= old(out)@ + spec_bytes_field(s@));
}

pub fn decode_bool(buf: &[u8]) -> (r: Option<(bool, usize)>)
    ensures
        match spec_parse_bool(buf@) {
            None => r is None,
            Some((v, rest)) => r matches Some((x, n)) && x == v && n <= buf@.len() && rest
                == buf@.skip(n as int),
        },
{
    match decode_u8(buf) {
        Some(b) => Some((b != 0, 1)),
        None => None,
    }
}

pub fn decode_u8_field(buf: &[u8]) -> (r: Option<(u8, usize)>)
    ensures
        match spec_parse_u8(buf@) {
            None => r is None,
            Some((v, rest)) => r matches Some((x, n)) && x == v && n <= buf@.len() && rest
                == buf@.skip(n as int),
        },
{
    match decode_u8(buf) {
        Some(v) => Some((v, 1)),
        None => None,
    }
}

pub fn decode_u32_field(buf: &[u8]) -> (r: Option<(u32, usize)>)
    ensures
        match spec_parse_u32(buf@) {
            None => r is None,
            Some((v, rest)) => r matches Some((x, n)) && x == v && n <= buf@.len() && rest
                == buf@.skip(n as int),
        },
{
    match decode_u32(buf) {
        Some(v) => Some((v, 4)),
        None => None,
    }
}

/// A byte string read from the start of `buf`.
pub fn decode_bytes_field(buf: &[u8]) -> (r: Option<(Vec<u8>, usize)>)
    ensures
        match spec_parse_bytes_field(buf@) {
            None => r is None,
            Some((v, rest)) => r matches Some((x, n)) && x@ == v && n <= buf@.len() && rest
                == buf@.skip(n as int),
        },
{
    reveal(spec_parse_bytes_field);
    let (len, k) = match decode_varsize(buf) {
        Some(p) => p,
        None => {
            return None;
        },
    };
    if len > MAX_LIST_LEN || buf.len() - k < len as usize {
        return None;
    }
    let n = len as usize;
    let bytes = &buf[k..k + n];
    let mut out: Vec<u8> = Vec::new();
    append_bytes(&mut out, bytes);
    assert(out@ =~= buf@.skip(k as int).take(n as int));
    assert(buf@.skip(k as int).skip(n as int) =~= buf@.skip((k + n) as int));
    Some((out, k + n))
}

pub open spec fn spec_protocol_tag(p: Protocol) -> u8 {
    match p {
        Protocol::Unk => 0,
        Protocol::Tcp => 1,
        Protocol::Udp => 2,
        Protocol::Quic => 3,
    }
}

pub open spec fn spec_protocol_of(t: u8) -> Option<Protocol> {
    if t == 0 {
        Some(Protocol::Unk)
    } else if t == 1 {
        Some(Protocol::Tcp)
    } else if t == 2 {
        Some(Protocol::Udp)
    } else if t == 3 {
        Some(Protocol::Quic)
    } else {
        None
    }
}

pub open spec fn spec_area_tag(a: EndpointArea) -> u8 {
    match a {
        EndpointArea::Lan => 0,
        EndpointArea::Wan => 1,
        EndpointArea::Mapped => 2,
        EndpointArea::ServerReflexive => 3,
    }
}

pub open spec fn spec_area_of(t: u8) -> Option<EndpointArea> {
    if t == 0 {
        Some(EndpointArea::Lan)
    } else if t == 1 {
        Some(EndpointArea::Wan)
    } else if t == 2 {
        Some(EndpointArea::Mapped)
    } else if t == 3 {
        Some(EndpointArea::ServerReflexive)
    } else {
        None
    }
}

/// An IP address: 4 and its four bytes, or 6 and its sixteen, big-endian.
#[verifier::opaque]
pub open spec fn spec_ip_bytes(ip: IpAddr) -> Seq<u8> {
    match ip {
        IpAddr::V4(a) => seq![4u8] + spec_be32(a),
        IpAddr::V6(a) => seq![6u8] + spec_be64((a / 0x1_0000_0000_0000_0000) as u64) + spec_be64(
            (a % 0x1_0000_0000_0000_0000) as u64,
        ),
    }
}

#[verifier::opaque]
pub open spec fn spec_parse_ip(b: Seq<u8>) -> Option<(IpAddr, Seq<u8>)> {
    match spec_parse_u8(b) {
        None => None,
        Some((t, r)) => if t == 4 {
            match spec_parse_u32(r) {
                None => None,
                Some((a, r2)) => Some((IpAddr::V4(a), r2)),
            }
        } else if t == 6 {
            match spec_parse_u64(r) {
                None => None,
                Some((hi, r2)) => match spec_parse_u64(r2) {
                    None => None,
                    Some((lo, r3)) => Some((IpAddr::V6((hi * 0x1_0000_0000_0000_0000 + lo) as u128), r3)),
                },
            }
        } else {
            None
        },
    }
}

/// An endpoint: its protocol and area tags, its address and its port.
pub open spec fn spec_endpoint_bytes(e: Endpoint) -> Seq<u8> {
    seq![spec_protocol_tag(e.protocol), spec_area_tag(e.area)] + spec_ip_bytes(e.addr.ip) + spec_be16(
        e.addr.port,
    )
}

pub open spec fn spec_parse_endpoint(b: Seq<u8>) -> Option<(Endpoint, Seq<u8>)> {
    match spec_parse_u8(b) {
        None => None,
        Some((pt, r1)) => match spec_parse_u8(r1) {
            None => None,
            Some((at, r2)) => match spec_parse_ip(r2) {
                None => None,
                Some((ip, r3)) => match spec_parse_u16(r3) {
                    None => None,
                    Some((port, r4)) => match (spec_protocol_of(pt), spec_area_of(at)) {
                        (Some(p), Some(a)) => Some(
                            (Endpoint { protocol: p, addr: SocketAddr { ip, port }, area: a }, r4),
                        ),
                        _ => None,
                    },
                },
            },
        },
    }
}

pub proof fn lemma_ip_roundtrip(ip: IpAddr, rest: Seq<u8>)
    ensures
        spec_parse_ip(spec_ip_bytes(ip) + rest) == Some((ip, rest)),
{
    reveal(spec_ip_bytes);
    reveal(spec_parse_ip);
    match ip {
        IpAddr::V4(a) => {
            let e = spec_be32(a);
            assert(spec_ip_bytes(ip) + rest =~= seq![4u8] + (e + rest));
            lemma_u8_roundtrip(4u8, e + rest);
            lemma_u32_roundtrip(a, rest);
        },
        IpAddr::V6(a) => {
            let hi = (a / 0x1_0000_0000_0000_0000) as u64;
            let lo = (a % 0x1_0000_0000_0000_0000) as u64;
            let eh = spec_be64(hi);
            let el = spec_be64(lo);
            assert(spec_ip_bytes(ip) + rest =~= seq![6u8] + (eh + (el + rest)));
            lemma_u8_roundtrip(6u8, eh + (el + rest));
            lemma_u64_roundtrip(hi, el + rest);
            lemma_u64_roundtrip(lo, rest);
            assert((hi * 0x1_0000_0000_0000_0000 + lo) as u128 == a);
        },
    }
}

pub proof fn lemma_tags_roundtrip(p: Protocol, a: EndpointArea)
    ensures
        spec_protocol_of(spec_protocol_tag(p)) == Some(p),
        spec_area_of(spec_area_tag(a)) == Some(a),
{
}

pub proof fn lemma_endpoint_roundtrip(e: Endpoint, rest: Seq<u8>)
    ensures
        spec_parse_endpoint(spec_endpoint_bytes(e) + rest) == Some((e, rest)),
{
    let pt = spec_protocol_tag(e.protocol);
    let at = spec_area_tag(e.area);
    let ip = spec_ip_bytes(e.addr.ip);
    let port = spec_be16(e.addr.port);
    let r4 = rest;
    let r3 = port + r4;
    let r2 = ip + r3;
    let r1 = seq![at] + r2;
    let b = seq![pt] + r1;
    assert(spec_endpoint_bytes(e) + rest =~= b);
    lemma_u8_roundtrip(pt, r1);
    lemma_u8_roundtrip(at, r2);
    lemma_ip_roundtrip(e.addr.ip, r3);
    lemma_u16_roundtrip(e.addr.port, r4);
    lemma_tags_roundtrip(e.protocol, e.area);
    assert(spec_parse_u8(b) == Some((pt, r1)));
    assert(spec_parse_u8(r1) == Some((at, r2)));
    assert(spec_parse_ip(r2) == Some((e.addr.ip, r3)));
    assert(spec_parse_u16(r3) == Some((e.addr.port, r4)));
    assert(Endpoint { protocol: e.protocol, addr: SocketAddr { ip: e.addr.ip, port: e.addr.port }, area: e.area } == e);
}

fn protocol_tag(p: Protocol) -> (r: u8)
    ensures
        r == spec_protocol_tag(p),
{
    match p {
        Protocol::Unk => 0,
        Protocol::Tcp => 1,
        Protocol::Udp => 2,
        Protocol::Quic => 3,
    }
}

fn protocol_of(t: u8) -> (r: Option<Protocol>)
    ensures
        r == spec_protocol_of(t),
{
    if t == 0 {
        Some(Protocol::Unk)
    } else if t == 1 {
        Some(Protocol::Tcp)
    } else if t == 2 {
        Some(Protocol::Udp)
    } else if t == 3 {
        Some(Protocol::Quic)
    } else {
        None
    }
}

fn area_tag(a: EndpointArea) -> (r: u8)
    ensures
        r == spec_area_tag(a),
{
    match a {
        EndpointArea::Lan => 0,
        EndpointArea::Wan => 1,
        EndpointArea::Mapped => 2,
        EndpointArea::ServerReflexive => 3,
    }
}

fn area_of(t: u8) -> (r: Option<EndpointArea>)
    ensures
        r == spec_area_of(t),
{
    if t == 0 {
        Some(EndpointArea::Lan)
    } else if t == 1 {
        Some(EndpointArea::Wan)
    } else if t == 2 {
        Some(EndpointArea::Mapped)
    } else if t == 3 {
        Some(EndpointArea::ServerReflexive)
    } else {
        None
    }
}

/// Appends the bytes of endpoint `e` to `out`.
pub fn append_endpoint(out: &mut Vec<u8>, e: &Endpoint)
    ensures
        final(out)@ == old(out)@ + spec_endpoint_bytes(*e),
{
    reveal(spec_ip_bytes);
    let head = encode_u8(protocol_tag(e.protocol));
    append_bytes(out, head.as_slice());
    let area = encode_u8(area_tag(e.area));
    append_bytes(out, area.as_slice());
    let ghost before_ip = out@;
    match e.addr.ip {
        IpAddr::V4(a) => {
            let t = encode_u8(4);
            append_bytes(out, t.as_slice());
            let v = encode_u32(a);
            append_bytes(out, v.as_slice());
        },
        IpAddr::V6(a) => {
            let t = encode_u8(6);
            append_bytes(out, t.as_slice());
            let hi = encode_u64((a / 0x1_0000_0000_0000_0000) as u64);
            append_bytes(out, hi.as_slice());
            let lo = encode_u64((a % 0x1_0000_0000_0000_0000) as u64);
            append_bytes(out, lo.as_slice());
        },
    }
    assert(out@ =~= before_ip + spec_ip_bytes(e.addr.ip));
    let port = encode_u16(e.addr.port);
    append_bytes(out, port.as_slice());
    assert(final(out)@ =~= old(out)@ + spec_endpoint_bytes(*e));
}

/// An endpoint read from the start of `buf`.
pub fn decode_endpoint(buf: &[u8]) -> (r: Option<(Endpoint, usize)>)
    ensures
        match spec_parse_endpoint(buf@) {
            None => r is None,
            Some((v, rest)) => r matches Some((x, n)) && x == v && n <= buf@.len() && rest
                == buf@.skip(n as int),
        },
{
    reveal(spec_parse_ip);
    let ghost b = buf@;
    let pt = match decode_u8(buf) {
        Some(v) => v,
        None => {
            return None;
        },
    };
    if buf.len() < 2 {
        return None;
    }
    let at = buf[1];
    assert(b.skip(1)[0] == at);
    if buf.len() < 3 {
        return None;
    }
    let it = buf[2];
    assert(b.skip(2)[0] == it);
    let (ip, pos) = if it == 4 {
        if buf.len() - 3 < 4 {
            return None;
        }
        let part = &buf[3..7];
        let a = match decode_u32(part) {
            Some(v) => v,
            None => {
                return None;
            },
        };
        proof {
            lemma_from_be_prefix(part@, b.skip(3));
            assert(part@.subrange(0, 4) =~= b.skip(3).subrange(0, 4));
        }
        (IpAddr::V4(a), 7usize)
    } else if it == 6 {
        if buf.len() - 3 < 16 {
            return None;
        }
        let hi_part = &buf[3..11];
        let lo_part = &buf[11..19];
        let hi = match decode_u64(hi_part) {
            Some(v) => v,
            None => {
                return None;
            },
        };
        let lo = match decode_u64(lo_part) {
            Some(v) => v,
            None => {
                return None;
            },
        };
        proof {
            lemma_from_be_prefix(hi_part@, b.skip(3));
            assert(hi_part@.subrange(0, 8) =~= b.skip(3).subrange(0, 8));
            lemma_from_be_prefix(lo_part@, b.skip(3).skip(8));
            assert(lo_part@.subrange(0, 8) =~= b.skip(3).skip(8).subrange(0, 8));
            assert(b.skip(3).skip(8) =~= b.skip(11));
            assert(b.skip(11).skip(8) =~= b.skip(19));
        }
        ((IpAddr::V6(hi as u128 * 0x1_0000_0000_0000_0000 + lo as u128)), 19usize)
    } else {
        return None;
    };
    assert(b.skip(1).skip(1) =~= b.skip(2));
    assert(b.skip(2).skip(1) =~= b.skip(3));
    assert(b.skip(3).skip(4) =~= b.skip(7));
    if buf.len() - pos < 2 {
        return None;
    }
    let port_part = &buf[pos..pos + 2];
    let port = match decode_u16(port_part) {
        Some(v) => v,
        None => {
            return None;
        },
    };
    proof {
        lemma_from_be_prefix(port_part@, b.skip(pos as int));
        assert(port_part@.subrange(0, 2) =~= b.skip(pos as int).subrange(0, 2));
        assert(b.skip(pos as int).skip(2) =~= b.skip(pos + 2));
    }
    let p = match protocol_of(pt) {
        Some(p) => p,
        None => {
            return None;
        },
    };
    let a = match area_of(at) {
        Some(a) => a,
        None => {
            return None;
        },
    };
    Some((Endpoint { protocol: p, addr: SocketAddr { ip, port }, area: a }, pos + 2))
}

/// The bytes of endpoints one after the other.
pub open spec fn spec_endpoints_concat(eps: Seq<Endpoint>) -> Seq<u8>
    decreases eps.len(),
{
    if eps.len() == 0 {
        Seq::empty()
    } else {
        spec_endpoint_bytes(eps[0]) + spec_endpoints_concat(eps.drop_first())
    }
}

/// An endpoint list: its length as a count, then each endpoint.
#[verifier::opaque]
pub open spec fn spec_endpoint_list_bytes(eps: Seq<Endpoint>) -> Seq<u8> {
    spec_varsize(eps.len()) + spec_endpoints_concat(eps)
}

/// `n` endpoints read one after the other from the start of `b`.
pub open spec fn spec_parse_endpoints_n(b: Seq<u8>, n: nat) -> Option<(Seq<Endpoint>, Seq<u8>)>
    decreases n,
{
    if n == 0 {
        Some((Seq::empty(), b))
    } else {
        match spec_parse_endpoint(b) {
            None => None,
            Some((e, r)) => match spec_parse_endpoints_n(r, (n - 1) as nat) {
                None => None,
                Some((es, r2)) => Some((seq![e] + es, r2)),
            },
        }
    }
}

/// An endpoint list read from the start of `b`; one announcing more than
/// `MAX_LIST_LEN` endpoints is refused.
#[verifier::opaque]
pub open spec fn spec_parse_endpoint_list(b: Seq<u8>) -> Option<(Seq<Endpoint>, Seq<u8>)> {
    match spec_parse_varsize(b) {
        None => None,
        Some((n, rest)) => if n > MAX_LIST_LEN {
            None
        } else {
            spec_parse_endpoints_n(rest, n)
        },
    }
}

pub proof fn lemma_endpoints_n_roundtrip(eps: Seq<Endpoint>, rest: Seq<u8>)
    ensures
        spec_parse_endpoints_n(spec_endpoints_concat(eps) + rest, eps.len()) == Some((eps, rest)),
    decreases eps.len(),
{
    if eps.len() > 0 {
        let tail = eps.drop_first();
        let t = spec_endpoints_concat(tail);
        assert(spec_endpoints_concat(eps) + rest =~= spec_endpoint_bytes(eps[0]) + (t + rest));
        lemma_endpoint_roundtrip(eps[0], t + rest);
        lemma_endpoints_n_roundtrip(tail, rest);
        assert(seq![eps[0]] + tail =~= eps);
    } else {
        assert(spec_endpoints_concat(eps) + rest =~= rest);
        assert(eps =~= Seq::<Endpoint>::empty());
    }
}

pub proof fn lemma_endpoint_list_roundtrip(eps: Seq<Endpoint>, rest: Seq<u8>)
    requires
        eps.len() <= MAX_LIST_LEN,
    ensures
        spec_parse_endpoint_list(spec_endpoint_list_bytes(eps) + rest) == Some((eps, rest)),
{
    reveal(spec_endpoint_list_bytes);
    reveal(spec_parse_endpoint_list);
    let c = spec_endpoints_concat(eps);
    let b = spec_varsize(eps.len()) + (c + rest);
    assert(spec_endpoint_list_bytes(eps) + rest =~= b);
    lemma_varsize_roundtrip(eps.len(), c + rest);
    assert(spec_parse_varsize(b) == Some((eps.len(), c + rest)));
    lemma_endpoints_n_roundtrip(eps, rest);
    assert(spec_parse_endpoints_n(c + rest, eps.len()) == Some((eps, rest)));
}

/// Appends the bytes of endpoint list `eps` to `out`.
pub fn append_endpoint_list(out: &mut Vec<u8>, eps: &[Endpoint])
    requires
        eps@.len() <= VARSIZE_MAX,
    ensures
        final(out)@ == old(out)@ + spec_endpoint_list_bytes(eps@),
{
    reveal(spec_endpoint_list_bytes);
    let n = encode_varsize(eps.len() as u64);
    append_bytes(out, n.as_slice());
    let ghost start = out@;
    let mut i: usize = 0;
    assert(eps@.skip(0) =~= eps@);
    while i < eps.len()
        invariant
            i <= eps@.len(),
            start + spec_endpoints_concat(eps@) == out@ + spec_endpoints_concat(eps@.skip(i as int)),
        decreases eps.len() - i,
    {
        let ghost before = out@;
        append_endpoint(out, &eps[i]);
        proof {
            let s = eps@.skip(i as int);
            assert(s.drop_first() =~= eps@.skip(i + 1));
            assert(s[0] == eps@[i as int]);
            assert(before + spec_endpoints_concat(s) =~= out@ + spec_endpoints_concat(eps@.skip(i + 1)));
        }
        i = i + 1;
    }
    assert(eps@.skip(eps@.len() as int) =~= Seq::<Endpoint>::empty());
    assert(out@ =~= start + spec_endpoints_concat(eps@));
    assert(final(out)@ =~= old(out)@ + spec_endpoint_list_bytes(eps@));
}

/// An endpoint list read from the start of `buf`.
pub fn decode_endpoint_list(buf: &[u8]) -> (r: Option<(Vec<Endpoint>, usize)>)
    ensures
        match spec_parse_endpoint_list(buf@) {
            None => r is None,
            Some((v, rest)) => r matches Some((x, n)) && x@ == v && n <= buf@.len() && rest
                == buf@.skip(n as int),
        },
{
    reveal(spec_parse_endpoint_list);
    let (count, k) = match decode_varsize(buf) {
        Some(p) => p,
        None => {
            return None;
        },
    };
    if count > MAX_LIST_LEN {
        return None;
    }
    let ghost b0 = buf@.skip(k as int);
    let mut out: Vec<Endpoint> = Vec::new();
    let mut pos: usize = k;
    let mut i: u64 = 0;
    while i < count
        invariant
            k <= pos <= buf@.len(),
            i <= count <= MAX_LIST_LEN,
            b0 == buf@.skip(k as int),
            spec_parse_endpoint_list(buf@) == spec_parse_endpoints_n(b0, count as nat),
            spec_parse_endpoints_n(b0, count as nat) == match spec_parse_endpoints_n(
                buf@.skip(pos as int),
                (count - i) as nat,
            ) {
                None => None,
                Some((es, r)) => Some((out@ + es, r)),
            },
        decreases count - i,
    {
        let part = &buf[pos..buf.len()];
        assert(part@ =~= buf@.skip(pos as int));
        match decode_endpoint(part) {
            None => {
                proof {
                    assert(spec_parse_endpoint(buf@.skip(pos as int)) is None);
                    assert(spec_parse_endpoints_n(buf@.skip(pos as int), (count - i) as nat) is None);
                }
                return None;
            },
            Some((e, n)) => {
                proof {
                    assert(buf@.skip(pos as int).skip(n as int) =~= buf@.skip(pos + n));
                    let rest_n = spec_parse_endpoints_n(buf@.skip(pos + n), (count - i - 1) as nat);
                    match rest_n {
                        None => {},
                        Some((es, r)) => {
                            assert(out@ + (seq![e] + es) =~= out@.push(e) + es);
                        },
                    }
                }
                out.push(e);
                pos = pos + n;
            },
        }
        i = i + 1;
    }
    assert(out@ + Seq::<Endpoint>::empty() =~= out@);
    Some((out, pos))
}

/// An optional byte string: 0 when absent, else 1 and the byte string.
pub open spec fn spec_opt_bytes_field(o: Option<Seq<u8>>) -> Seq<u8> {
    match o {
        None => seq![0u8],
        Some(s) => seq![1u8] + spec_bytes_field(s),
    }
}

/// An optional byte string read from the start of `b`: a leading 1 is
/// followed by the byte string, any other leading byte means absent.
pub open spec fn spec_parse_opt_bytes_field(b: Seq<u8>) -> Option<(Option<Seq<u8>>, Seq<u8>)> {
    match spec_parse_u8(b) {
        None => None,
        Some((t, r)) => if t == 1 {
            match spec_parse_bytes_field(r) {
                None => None,
                Some((s, r2)) => Some((Some(s), r2)),
            }
        } else {
            Some((None, r))
        },
    }
}

pub proof fn lemma_opt_bytes_field_roundtrip(o: Option<Seq<u8>>, rest: Seq<u8>)
    requires
        o matches Some(s) ==> s.len() <= MAX_LIST_LEN,
    ensures
        spec_parse_opt_bytes_field(spec_opt_bytes_field(o) + rest) == Some((o, rest)),
{
    match o {
        None => {
            lemma_u8_roundtrip(0u8, rest);
        },
        Some(s) => {
            let f = spec_bytes_field(s);
            assert(spec_opt_bytes_field(o) + rest =~= seq![1u8] + (f + rest));
            lemma_u8_roundtrip(1u8, f + rest);
            lemma_bytes_field_roundtrip(s, rest);
        },
    }
}

/// Appends the bytes of optional byte string `o` to `out`.
pub fn append_opt_bytes_field(out: &mut Vec<u8>, o: &Option<Vec<u8>>)
    requires
        o matches Some(s) ==> s@.len() <= VARSIZE_MAX,
    ensures
        final(out)@ == old(out)@ + spec_opt_bytes_field(
            match o {
                Some(s) => Some(s@),
                None => None,
            },
        ),
{
    match o {
        None => {
            let t = encode_u8(0);
            append_bytes(out, t.as_slice());
        },
        Some(s) => {
            let t = encode_u8(1);
            append_bytes(out, t.as_slice());
            append_bytes_field(out, s.as_slice());
            assert(final(out)@ =~= old(out)@ + spec_opt_bytes_field(Some(s@)));
        },
    }
}

/// An optional byte string read from the start of `buf`.
pub fn decode_opt_bytes_field(buf: &[u8]) -> (r: Option<(Option<Vec<u8>>, usize)>)
    ensures
        match spec_parse_opt_bytes_field(buf@) {
            None => r is None,
            Some((v, rest)) => r matches Some((x, n)) && (match x {
                Some(s) => Some(s@),
                None => None,
            }) == v && n <= buf@.len() && rest == buf@.skip(n as int),
        },
{
    let t = match decode_u8(buf) {
        Some(t) => t,
        None => {
            return None;
        },
    };
    if t != 1 {
        return Some((None, 1));
    }
    let s1 = &buf[1..buf.len()];
    assert(s1@ =~= buf@.skip(1));
    match decode_bytes_field(s1) {
        None => None,
        Some((v, n)) => {
            assert(buf@.skip(1).skip(n as int) =~= buf@.skip(1 + n));
            Some((Some(v), 1 + n))
        },
    }
}

pub fn decode_u64_field(buf: &[u8]) -> (r: Option<(u64, usize)>)
    ensures
        match spec_parse_u64(buf@) {
            None => r is None,
            Some((v, rest)) => r matches Some((x, n)) && x == v && n <= buf@.len() && rest
                == buf@.skip(n as int),
        },
{
    match decode_u64(buf) {
        Some(v) => Some((v, 8)),
        None => None,
    }
}

/// An optional endpoint list: 0 when absent, else 1 and the list.
pub open spec fn spec_opt_endpoint_list_bytes(o: Option<Seq<Endpoint>>) -> Seq<u8> {
    match o {
        None => seq![0u8],
        Some(s) => seq![1u8] + spec_endpoint_list_bytes(s),
    }
}

pub open spec fn spec_parse_opt_endpoint_list(b: Seq<u8>) -> Option<(Option<Seq<Endpoint>>, Seq<u8>)> {
    match spec_parse_u8(b) {
        None => None,
        Some((t, r)) => if t == 1 {
            match spec_parse_endpoint_list(r) {
                None => None,
                Some((s, r2)) => Some((Some(s), r2)),
            }
        } else {
            Some((None, r))
        },
    }
}

pub proof fn lemma_opt_endpoint_list_roundtrip(o: Option<Seq<Endpoint>>, rest: Seq<u8>)
    requires
        o matches Some(s) ==> s.len() <= MAX_LIST_LEN,
    ensures
        spec_parse_opt_endpoint_list(spec_opt_endpoint_list_bytes(o) + rest) == Some((o, rest)),
{
    match o {
        None => {
            lemma_u8_roundtrip(0u8, rest);
        },
        Some(s) => {
            let f = spec_endpoint_list_bytes(s);
            assert(spec_opt_endpoint_list_bytes(o) + rest =~= seq![1u8] + (f + rest));
            lemma_u8_roundtrip(1u8, f + rest);
            lemma_endpoint_list_roundtrip(s, rest);
        },
    }
}

pub fn append_opt_endpoint_list(out: &mut Vec<u8>, o: &Option<Vec<Endpoint>>)
    requires
        o matches Some(s) ==> s@.len() <= VARSIZE_MAX,
    ensures
        final(out)@ == old(out)@ + spec_opt_endpoint_list_bytes(
            match o {
                Some(s) => Some(s@),
                None => None,
            },
        ),
{
    match o {
        None => {
            let t = encode_u8(0);
            append_bytes(out, t.as_slice());
        },
        Some(s) => {
            let t = encode_u8(1);
            append_bytes(out, t.as_slice());
            append_endpoint_list(out, s.as_slice());
            assert(final(out)@ =~= old(out)@ + spec_opt_endpoint_list_bytes(Some(s@)));
        },
    }
}

pub fn decode_opt_endpoint_list(buf: &[u8]) -> (r: Option<(Option<Vec<Endpoint>>, usize)>)
    ensures
        match spec_parse_opt_endpoint_list(buf@) {
            None => r is None,
            Some((v, rest)) => r matches Some((x, n)) && (match x {
                Some(s) => Some(s@),
                None => None,
            }) == v && n <= buf@.len() && rest == buf@.skip(n as int),
        },
{
    let t = match decode_u8(buf) {
        Some(t) => t,
        None => {
            return None;
        },
    };
    if t != 1 {
        return Some((None, 1));
    }
    let s1 = &buf[1..buf.len()];
    assert(s1@ =~= buf@.skip(1));
    match decode_endpoint_list(s1) {
        None => None,
        Some((v, n)) => {
            assert(buf@.skip(1).skip(n as int) =~= buf@.skip(1 + n));
            Some((Some(v), 1 + n))
        },
    }
}

/// Byte strings one after the other.
pub open spec fn spec_bytes_concat(items: Seq<Seq<u8>>) -> Seq<u8>
    decreases items.len(),
{
    if items.len() == 0 {
        Seq::empty()
    } else {
        spec_bytes_field(items[0]) + spec_bytes_concat(items.drop_first())
    }
}

/// A list of byte strings: its length as a count, then each byte string.
#[verifier::opaque]
pub open spec fn spec_bytes_list(items: Seq<Seq<u8>>) -> Seq<u8> {
    spec_varsize(items.len()) + spec_bytes_concat(items)
}

pub open spec fn spec_parse_bytes_n(b: Seq<u8>, n: nat) -> Option<(Seq<Seq<u8>>, Seq<u8>)>
    decreases n,
{
    if n == 0 {
        Some((Seq::empty(), b))
    } else {
        match spec_parse_bytes_field(b) {
            None => None,
            Some((e, r)) => match spec_parse_bytes_n(r, (n - 1) as nat) {
                None => None,
                Some((es, r2)) => Some((seq![e] + es, r2)),
            },
        }
    }
}

#[verifier::opaque]
pub open spec fn spec_parse_bytes_list(b: Seq<u8>) -> Option<(Seq<Seq<u8>>, Seq<u8>)> {
    match spec_parse_varsize(b) {
        None => None,
        Some((n, rest)) => if n > MAX_LIST_LEN {
            None
        } else {
            spec_parse_bytes_n(rest, n)
        },
    }
}

/// Every byte string of `items` is short enough to be read back.
pub open spec fn spec_items_readable(items: Seq<Seq<u8>>) -> bool {
    forall|i: int| 0 <= i < items.len() ==> #[trigger] items[i].len() <= MAX_LIST_LEN
}

pub proof fn lemma_bytes_n_roundtrip(items: Seq<Seq<u8>>, rest: Seq<u8>)
    requires
        spec_items_readable(items),
    ensures
        spec_parse_bytes_n(spec_bytes_concat(items) + rest, items.len()) == Some((items, rest)),
    decreases items.len(),
{
    if items.len() > 0 {
        let tail = items.drop_first();
        let t = spec_bytes_concat(tail);
        assert(spec_bytes_concat(items) + rest =~= spec_bytes_field(items[0]) + (t + rest));
        assert(items[0].len() <= MAX_LIST_LEN);
        lemma_bytes_field_roundtrip(items[0], t + rest);
        assert forall|i: int| 0 <= i < tail.len() implies #[trigger] tail[i].len() <= MAX_LIST_LEN by {
            assert(tail[i] == items[i + 1]);
        }
        lemma_bytes_n_roundtrip(tail, rest);
        assert(seq![items[0]] + tail =~= items);
    } else {
        assert(spec_bytes_concat(items) + rest =~= rest);
        assert(items =~= Seq::<Seq<u8>>::empty());
    }
}

pub proof fn lemma_bytes_list_roundtrip(items: Seq<Seq<u8>>, rest: Seq<u8>)
    requires
        items.len() <= MAX_LIST_LEN,
        spec_items_readable(items),
    ensures
        spec_parse_bytes_list(spec_bytes_list(items) + rest) == Some((items, rest)),
{
    reveal(spec_bytes_list);
    reveal(spec_parse_bytes_list);
    let c = spec_bytes_concat(items);
    let b = spec_varsize(items.len()) + (c + rest);
    assert(spec_bytes_list(items) + rest =~= b);
    lemma_varsize_roundtrip(items.len(), c + rest);
    assert(spec_parse_varsize(b) == Some((items.len(), c + rest)));
    lemma_bytes_n_roundtrip(items, rest);
}

/// The byte strings of a list of peer ids.
pub open spec fn spec_id_items(ids: Seq<P2pId>) -> Seq<Seq<u8>> {
    ids.map_values(|id: P2pId| id@)
}

/// Appends the bytes of a list of peer ids to `out`.
pub fn append_id_list(out: &mut Vec<u8>, ids: &[P2pId])
    requires
        ids@.len() <= VARSIZE_MAX,
        forall|i: int| 0 <= i < ids@.len() ==> #[trigger] ids@[i]@.len() <= VARSIZE_MAX,
    ensures
        final(out)@ == old(out)@ + spec_bytes_list(spec_id_items(ids@)),
{
    reveal(spec_bytes_list);
    let ghost items = spec_id_items(ids@);
    let n = encode_varsize(ids.len() as u64);
    append_bytes(out, n.as_slice());
    let ghost start = out@;
    let mut i: usize = 0;
    assert(items.skip(0) =~= items);
    while i < ids.len()
        invariant
            i <= ids@.len(),
            items == spec_id_items(ids@),
            forall|j: int| 0 <= j < ids@.len() ==> #[trigger] ids@[j]@.len() <= VARSIZE_MAX,
            start + spec_bytes_concat(items) == out@ + spec_bytes_concat(items.skip(i as int)),
        decreases ids.len() - i,
    {
        let ghost before = out@;
        append_bytes_field(out, ids[i].0.as_slice());
        proof {
            let s = items.skip(i as int);
            assert(s.drop_first() =~= items.skip(i + 1));
            assert(s[0] == ids@[i as int]@);
            assert(before + spec_bytes_concat(s) =~= out@ + spec_bytes_concat(items.skip(i + 1)));
        }
        i = i + 1;
    }
    assert(items.skip(items.len() as int) =~= Seq::<Seq<u8>>::empty());
    assert(out@ =~= start + spec_bytes_concat(items));
    assert(final(out)@ =~= old(out)@ + spec_bytes_list(items));
}

/// A list of peer ids read from the start of `buf`.
pub fn decode_id_list(buf: &[u8]) -> (r: Option<(Vec<P2pId>, usize)>)
    ensures
        match spec_parse_bytes_list(buf@) {
            None => r is None,
            Some((v, rest)) => r matches Some((x, n)) && spec_id_items(x@) == v && n
                <= buf@.len() && rest == buf@.skip(n as int),
        },
{
    reveal(spec_parse_bytes_list);
    let (count, k) = match decode_varsize(buf) {
        Some(p) => p,
        None => {
            return None;
        },
    };
    if count > MAX_LIST_LEN {
        return None;
    }
    let ghost b0 = buf@.skip(k as int);
    let mut out: Vec<P2pId> = Vec::new();
    let mut pos: usize = k;
    let mut i: u64 = 0;
    while i < count
        invariant
            k <= pos <= buf@.len(),
            i <= count <= MAX_LIST_LEN,
            b0 == buf@.skip(k as int),
            spec_parse_bytes_list(buf@) == spec_parse_bytes_n(b0, count as nat),
            spec_parse_bytes_n(b0, count as nat) == match spec_parse_bytes_n(
                buf@.skip(pos as int),
                (count - i) as nat,
            ) {
                None => None,
                Some((es, r)) => Some((spec_id_items(out@) + es, r)),
            },
        decreases count - i,
    {
        let part = &buf[pos..buf.len()];
        assert(part@ =~= buf@.skip(pos as int));
        match decode_bytes_field(part) {
            None => {
                proof {
                    assert(spec_parse_bytes_field(buf@.skip(pos as int)) is None);
                    assert(spec_parse_bytes_n(buf@.skip(pos as int), (count - i) as nat) is None);
                }
                return None;
            },
            Some((e, n)) => {
                proof {
                    assert(buf@.skip(pos as int).skip(n as int) =~= buf@.skip(pos + n));
                    let rest_n = spec_parse_bytes_n(buf@.skip(pos + n), (count - i - 1) as nat);
                    let id = P2pId(e);
                    assert(spec_id_items(out@.push(id)) =~= spec_id_items(out@).push(e@));
                    match rest_n {
                        None => {},
                        Some((es, r)) => {
                            assert(spec_id_items(out@) + (seq![e@] + es) =~= spec_id_items(out@).push(e@) + es);
                        },
                    }
                }
                out.push(P2pId(e));
                pos = pos + n;
            },
        }
        i = i + 1;
    }
    assert(spec_id_items(out@) + Seq::<Seq<u8>>::empty() =~= spec_id_items(out@));
    Some((out, pos))
}

/// An optional list of peer ids: 0 when absent, else 1 and the list.
pub open spec fn spec_opt_bytes_list(o: Option<Seq<Seq<u8>>>) -> Seq<u8> {
    match o {
        None => seq![0u8],
        Some(s) => seq![1u8] + spec_bytes_list(s),
    }
}

pub open spec fn spec_parse_opt_bytes_list(b: Seq<u8>) -> Option<(Option<Seq<Seq<u8>>>, Seq<u8>)> {
    match spec_parse_u8(b) {
        None => None,
        Some((t, r)) => if t == 1 {
            match spec_parse_bytes_list(r) {
                None => None,
                Some((s, r2)) => Some((Some(s), r2)),
            }
        } else {
            Some((None, r))
        },
    }
}

pub proof fn lemma_opt_bytes_list_roundtrip(o: Option<Seq<Seq<u8>>>, rest: Seq<u8>)
    requires
        o matches Some(s) ==> s.len() <= MAX_LIST_LEN && spec_items_readable(s),
    ensures
        spec_parse_opt_bytes_list(spec_opt_bytes_list(o) + rest) == Some((o, rest)),
{
    match o {
        None => {
            lemma_u8_roundtrip(0u8, rest);
        },
        Some(s) => {
            let f = spec_bytes_list(s);
            assert(spec_opt_bytes_list(o) + rest =~= seq![1u8] + (f + rest));
            lemma_u8_roundtrip(1u8, f + rest);
            lemma_bytes_list_roundtrip(s, rest);
        },
    }
}

pub fn append_opt_id_list(out: &mut Vec<u8>, o: &Option<Vec<P2pId>>)
    requires
        o matches Some(s) ==> s@.len() <= VARSIZE_MAX && forall|i: int|
            0 <= i < s@.len() ==> #[trigger] s@[i]@.len() <= VARSIZE_MAX,
    ensures
        final(out)@ == old(out)@ + spec_opt_bytes_list(
            match o {
                Some(s) => Some(spec_id_items(s@)),
                None => None,
            },
        ),
{
    match o {
        None => {
            let t = encode_u8(0);
            append_bytes(out, t.as_slice());
        },
        Some(s) => {
            let t = encode_u8(1);
            append_bytes(out, t.as_slice());
            append_id_list(out, s.as_slice());
            assert(final(out)@ =~= old(out)@ + spec_opt_bytes_list(Some(spec_id_items(s@))));
        },
    }
}

pub fn decode_opt_id_list(buf: &[u8]) -> (r: Option<(Option<Vec<P2pId>>, usize)>)
    ensures
        match spec_parse_opt_bytes_list(buf@) {
            None => r is None,
            Some((v, rest)) => r matches Some((x, n)) && (match x {
                Some(s) => Some(spec_id_items(s@)),
                None => None,
            }) == v && n <= buf@.len() && rest == buf@.skip(n as int),
        },
{
    let t = match decode_u8(buf) {
        Some(t) => t,
        None => {
            return None;
        },
    };
    if t != 1 {
        return Some((None, 1));
    }
    let s1 = &buf[1..buf.len()];
    assert(s1@ =~= buf@.skip(1));
    match decode_id_list(s1) {
        None => None,
        Some((v, n)) => {
            assert(buf@.skip(1).skip(n as int) =~= buf@.skip(1 + n));
            Some((Some(v), 1 + n))
        },
    }
}

} // verus!
