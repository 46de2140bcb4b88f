use vstd::prelude::*;
use crate::codec::{append_bytes, encode_u32, encode_u8, spec_be32};
use crate::endpoint::Endpoint;
use crate::error::{P2pError, P2pErrorCode, P2pResult};
use crate::nat_type::NatProfile;
use crate::sn::protocol::call_codec::{
    decode_profile, encode_profile, lemma_profile_roundtrip, spec_parse_profile,
    spec_profile_bytes,
};
use crate::sn::protocol::extension::{
    extension_decode, extension_encode, lemma_extension_decode_bounds, lemma_extension_roundtrip,
    lemma_other_extension_absent, spec_extension_bytes, spec_extension_decode, ExtensionFrame,
    SN_QUERY_RESP_EXTENSION_MAGIC, SN_QUERY_RESP_PROTOCOL_VERSION_EXTENSION_MAGIC,
};
use crate::sn::protocol::message::{SnQuery, SnQueryResp};
use crate::sn::protocol::sn::supported_nat_profile;
use crate::sn::protocol::wire::{
    append_bytes_field, append_endpoint_list, append_opt_bytes_field, decode_bytes_field,
    decode_endpoint_list, decode_opt_bytes_field, decode_u32_field, decode_u8_field,
    lemma_bytes_field_roundtrip, lemma_endpoint_list_roundtrip, lemma_opt_bytes_field_roundtrip,
    lemma_u32_roundtrip, lemma_u8_roundtrip, spec_bytes_field, spec_endpoint_list_bytes,
    spec_opt_bytes_field, spec_parse_bytes_field, spec_parse_endpoint_list,
    spec_parse_opt_bytes_field, spec_parse_u32, spec_parse_u8, MAX_LIST_LEN, VARSIZE_MAX,
};
use crate::types::{P2pId, Sequence};

verus! {

pub struct SnQueryView {
    pub protocol_version: u8,
    pub stack_version: u32,
    pub seq: Sequence,
    pub query_id: Seq<u8>,
}

impl View for SnQuery {
    type V = SnQueryView;

    open spec fn view(&self) -> SnQueryView {
        SnQueryView {
            protocol_version: self.protocol_version,
            stack_version: self.stack_version,
            seq: self.seq,
            query_id: self.query_id@,
        }
    }
}

/// The bytes of a query: protocol and stack versions, sequence and the id
/// of the peer asked about.
pub open spec fn spec_query_bytes(m: SnQueryView) -> Seq<u8> {
    seq![m.protocol_version] + spec_be32(m.stack_version) + spec_be32(m.seq.0) + spec_bytes_field(
        m.query_id,
    )
}

pub open spec fn spec_parse_query(b: Seq<u8>) -> Option<(SnQueryView, Seq<u8>)> {
    match spec_parse_u8(b) {
        None => None,
        Some((pv, r1)) => match spec_parse_u32(r1) {
            None => None,
            Some((sv, r2)) => match spec_parse_u32(r2) {
                None => None,
                Some((seq, r3)) => match spec_parse_bytes_field(r3) {
                    None => None,
                    Some((id, r4)) => Some(
                        (
                            SnQueryView {
                                protocol_version: pv,
                                stack_version: sv,
                                seq: Sequence(seq),
                                query_id: id,
                            },
                            r4,
                        ),
                    ),
                },
            },
        },
    }
}

/// A query reads back from its bytes, whatever follows them.
pub proof fn lemma_query_roundtrip(m: SnQueryView, rest: Seq<u8>)
    requires
        m.query_id.len() <= MAX_LIST_LEN,
    ensures
        spec_parse_query(spec_query_bytes(m) + rest) == Some((m, rest)),
{
    let r4 = rest;
    let r3 = spec_bytes_field(m.query_id) + r4;
    let r2 = spec_be32(m.seq.0) + r3;
    let r1 = spec_be32(m.stack_version) + r2;
    let b = seq![m.protocol_version] + r1;
    assert(spec_query_bytes(m) + rest =~= b);
    lemma_u8_roundtrip(m.protocol_version, r1);
    lemma_u32_roundtrip(m.stack_version, r2);
    lemma_u32_roundtrip(m.seq.0, r3);
    lemma_bytes_field_roundtrip(m.query_id, r4);
}

impl SnQuery {
    /// The bytes of this query.
    pub fn to_vec(&self) -> (r: Vec<u8>)
        requires
            self.query_id@.len() <= VARSIZE_MAX,
        ensures
            r@ == spec_query_bytes(self@),
    {
        let mut out = encode_u8(self.protocol_version);
        let sv = encode_u32(self.stack_version);
        append_bytes(&mut out, sv.as_slice());
        let seq = encode_u32(self.seq.0);
        append_bytes(&mut out, seq.as_slice());
        append_bytes_field(&mut out, self.query_id.0.as_slice());
        assert(out@ =~= spec_query_bytes(self@));
        out
    }

    /// The query read from the start of `buf`; bytes that do not start with
    /// one are a codec error, and bytes after it are ignored.
    pub fn clone_from_slice(buf: &[u8]) -> (r: P2pResult<SnQuery>)
        ensures
            spec_parse_query(buf@) is None ==> r == Err::<SnQuery, P2pError>(
                P2pError { code: P2pErrorCode::RawCodecError },
            ),
            spec_parse_query(buf@) matches Some((m, rest)) ==> (r matches Ok(x) && x@ == m),
    {
        let ghost b = buf@;
        let (pv, n1) = match decode_u8_field(buf) {
            Some(p) => p,
            None => {
                return Err(P2pError::new(P2pErrorCode::RawCodecError));
            },
        };
        let s1 = &buf[n1..buf.len()];
        assert(s1@ =~= b.skip(n1 as int));
        let (sv, n2) = match decode_u32_field(s1) {
            Some(p) => p,
            None => {
                return Err(P2pError::new(P2pErrorCode::RawCodecError));
            },
        };
        assert(b.skip(n1 as int).skip(n2 as int) =~= b.skip(n1 + n2));
        let p2 = n1 + n2;
        let s2 = &buf[p2..buf.len()];
        assert(s2@ =~= b.skip(p2 as int));
        let (seq, n3) = match decode_u32_field(s2) {
            Some(p) => p,
            None => {
                return Err(P2pError::new(P2pErrorCode::RawCodecError));
            },
        };
        assert(b.skip(p2 as int).skip(n3 as int) =~= b.skip(p2 + n3));
        let p3 = p2 + n3;
        let s3 = &buf[p3..buf.len()];
        assert(s3@ =~= b.skip(p3 as int));
        let (id, n4) = match decode_bytes_field(s3) {
            Some(p) => p,
            None => {
                return Err(P2pError::new(P2pErrorCode::RawCodecError));
            },
        };
        Ok(SnQuery { protocol_version: pv, stack_version: sv, seq: Sequence(seq), query_id: P2pId(id) })
    }
}

pub struct SnQueryRespView {
    pub seq: Sequence,
    pub peer_info: Option<Seq<u8>>,
    pub end_point_array: Seq<Endpoint>,
    pub net_profile: Option<NatProfile>,
    pub target_protocol_version: Option<u8>,
}

impl View for SnQueryResp {
    type V = SnQueryRespView;

    open spec fn view(&self) -> SnQueryRespView {
        SnQueryRespView {
            seq: self.seq,
            peer_info: match self.peer_info {
                Some(c) => Some(c@),
                None => None,
            },
            end_point_array: self.end_point_array@,
            net_profile: self.net_profile,
            target_protocol_version: self.target_protocol_version,
        }
    }
}

/// The bytes of a query answer: its sequence, the peer's certificate if
/// known and its endpoint list, then its NAT profile and its protocol
/// version, each in its own extension when there is one.
pub open spec fn spec_query_resp_bytes(m: SnQueryRespView) -> Seq<u8> {
    spec_be32(m.seq.0) + spec_opt_bytes_field(m.peer_info) + spec_endpoint_list_bytes(
        m.end_point_array,
    ) + spec_query_resp_ext_bytes(m.net_profile, m.target_protocol_version)
}

/// The profile extension of a query answer, empty without a profile.
pub open spec fn spec_profile_ext_bytes(p: Option<NatProfile>) -> Seq<u8> {
    match p {
        Some(p) => spec_extension_bytes(spec_profile_bytes(p), SN_QUERY_RESP_EXTENSION_MAGIC),
        None => Seq::empty(),
    }
}

/// The protocol version extension of a query answer, empty without a version.
pub open spec fn spec_version_ext_bytes(v: Option<u8>) -> Seq<u8> {
    match v {
        Some(v) => spec_extension_bytes(seq![v], SN_QUERY_RESP_PROTOCOL_VERSION_EXTENSION_MAGIC),
        None => Seq::empty(),
    }
}

/// The NAT profile the query answer's profile extension in `b` carries, if
/// it is there, of the current envelope version and fills its payload.
pub open spec fn spec_profile_ext(b: Seq<u8>) -> Option<NatProfile> {
    match spec_extension_decode(b, SN_QUERY_RESP_EXTENSION_MAGIC) {
        ExtensionFrame::Payload { start, end } => match spec_parse_profile(
            b.subrange(start as int, end as int),
        ) {
            Some((p, rr)) => if rr.len() == 0 {
                Some(p)
            } else {
                None
            },
            None => None,
        },
        _ => None,
    }
}

/// The protocol version the query answer's version extension in `b`
/// carries, likewise.
pub open spec fn spec_version_ext(b: Seq<u8>) -> Option<u8> {
    match spec_extension_decode(b, SN_QUERY_RESP_PROTOCOL_VERSION_EXTENSION_MAGIC) {
        ExtensionFrame::Payload { start, end } => match spec_parse_u8(
            b.subrange(start as int, end as int),
        ) {
            Some((v, rr)) => if rr.len() == 0 {
                Some(v)
            } else {
                None
            },
            None => None,
        },
        _ => None,
    }
}

/// What `supported_nat_profile` keeps of a profile.
pub open spec fn spec_supported_profile(p: Option<NatProfile>) -> Option<NatProfile> {
    match p {
        Some(x) => if x.spec_is_supported() {
            Some(x)
        } else {
            None
        },
        None => None,
    }
}

/// The extensions after a query answer's legacy fields: its NAT profile
/// (kept only when supported), its protocol version, and what follows them.
pub open spec fn spec_query_resp_exts(r3: Seq<u8>) -> (Option<NatProfile>, Option<u8>, Seq<u8>) {
    let r4 = r3.skip(spec_extension_decode(r3, SN_QUERY_RESP_EXTENSION_MAGIC).spec_rest() as int);
    let r5 = r4.skip(
        spec_extension_decode(r4, SN_QUERY_RESP_PROTOCOL_VERSION_EXTENSION_MAGIC).spec_rest() as int,
    );
    (spec_supported_profile(spec_profile_ext(r3)), spec_version_ext(r4), r5)
}

/// The extension bytes of a query answer with these profile and version.
pub open spec fn spec_query_resp_ext_bytes(p: Option<NatProfile>, v: Option<u8>) -> Seq<u8> {
    spec_profile_ext_bytes(p) + spec_version_ext_bytes(v)
}

/// A query answer read from the start of `b`, its profile kept only when
/// supported, and what follows it.
pub open spec fn spec_parse_query_resp(b: Seq<u8>) -> Option<(SnQueryRespView, Seq<u8>)> {
    match spec_parse_u32(b) {
        None => None,
        Some((seq, r1)) => match spec_parse_opt_bytes_field(r1) {
            None => None,
            Some((info, r2)) => match spec_parse_endpoint_list(r2) {
                None => None,
                Some((eps, r3)) => {
                    let (profile, version, r5) = spec_query_resp_exts(r3);
                    Some(
                        (
                            SnQueryRespView {
                                seq: Sequence(seq),
                                peer_info: info,
                                end_point_array: eps,
                                net_profile: profile,
                                target_protocol_version: version,
                            },
                            r5,
                        ),
                    )
                },
            },
        },
    }
}

/// The extensions read back as they were written, the profile kept when
/// supported, with nothing left over.
pub proof fn lemma_query_resp_exts_roundtrip(p: Option<NatProfile>, v: Option<u8>)
    ensures
        spec_query_resp_exts(spec_query_resp_ext_bytes(p, v)) == (
            spec_supported_profile(p),
            v,
            Seq::<u8>::empty(),
        ),
{
    let e2 = spec_version_ext_bytes(v);
    let e1 = spec_profile_ext_bytes(p);
    let r3 = e1 + e2;
    match p {
        Some(p) => {
            let payload = spec_profile_bytes(p);
            lemma_profile_roundtrip(p, Seq::empty());
            assert(payload + Seq::<u8>::empty() =~= payload);
            lemma_extension_roundtrip(payload, SN_QUERY_RESP_EXTENSION_MAGIC, e2);
            assert(spec_profile_ext(r3) == Some(p));
            assert(r3.skip(e1.len() as int) =~= e2);
        },
        None => {
            assert(r3 =~= e2);
            match v {
                Some(v) => {
                    lemma_other_extension_absent(
                        seq![v],
                        SN_QUERY_RESP_PROTOCOL_VERSION_EXTENSION_MAGIC,
                        SN_QUERY_RESP_EXTENSION_MAGIC,
                        Seq::empty(),
                    );
                    assert(e2 + Seq::<u8>::empty() =~= e2);
                },
                None => {},
            }
            assert(spec_extension_decode(r3, SN_QUERY_RESP_EXTENSION_MAGIC) == ExtensionFrame::Absent);
            assert(r3.skip(0) =~= e2);
        },
    }
    let r4 = r3.skip(spec_extension_decode(r3, SN_QUERY_RESP_EXTENSION_MAGIC).spec_rest() as int);
    assert(r4 == e2);
    match v {
        Some(v) => {
            lemma_extension_roundtrip(seq![v], SN_QUERY_RESP_PROTOCOL_VERSION_EXTENSION_MAGIC, Seq::empty());
            assert(e2 + Seq::<u8>::empty() =~= e2);
            lemma_u8_roundtrip(v, Seq::empty());
            assert(seq![v] + Seq::<u8>::empty() =~= seq![v]);
            assert(spec_version_ext(e2) == Some(v));
            assert(e2.skip(e2.len() as int) =~= Seq::<u8>::empty());
        },
        None => {
            assert(spec_extension_decode(e2, SN_QUERY_RESP_PROTOCOL_VERSION_EXTENSION_MAGIC) == ExtensionFrame::Absent);
            assert(e2.skip(0) =~= e2);
        },
    }
}

/// A query answer reads back from its own bytes, its NAT profile kept when
/// supported, with nothing left over.
pub proof fn lemma_query_resp_roundtrip(m: SnQueryRespView)
    requires
        m.peer_info matches Some(c) ==> c.len() <= MAX_LIST_LEN,
        m.end_point_array.len() <= MAX_LIST_LEN,
    ensures
        spec_parse_query_resp(spec_query_resp_bytes(m)) == Some(
            (
                SnQueryRespView { net_profile: spec_supported_profile(m.net_profile), ..m },
                Seq::<u8>::empty(),
            ),
        ),
{
    let r3 = spec_query_resp_ext_bytes(m.net_profile, m.target_protocol_version);
    let r2 = spec_endpoint_list_bytes(m.end_point_array) + r3;
    let r1 = spec_opt_bytes_field(m.peer_info) + r2;
    let b = spec_be32(m.seq.0) + r1;
    assert(spec_query_resp_bytes(m) =~= b);
    lemma_u32_roundtrip(m.seq.0, r1);
    lemma_opt_bytes_field_roundtrip(m.peer_info, r2);
    lemma_endpoint_list_roundtrip(m.end_point_array, r3);
    lemma_query_resp_exts_roundtrip(m.net_profile, m.target_protocol_version);
}

fn decode_profile_ext(buf: &[u8]) -> (r: (Option<NatProfile>, usize))
    ensures
        r.0 == spec_profile_ext(buf@),
        r.1 == spec_extension_decode(buf@, SN_QUERY_RESP_EXTENSION_MAGIC).spec_rest(),
        r.1 <= buf@.len(),
{
    let frame = extension_decode(buf, SN_QUERY_RESP_EXTENSION_MAGIC);
    assert(buf@.len() == buf.len());
    proof {
        lemma_extension_decode_bounds(buf@, SN_QUERY_RESP_EXTENSION_MAGIC);
    }
    let value = match frame {
        ExtensionFrame::Payload { start, end } => {
            let part = &buf[start..end];
            match decode_profile(part) {
                Some((p, n)) => {
                    if n == end - start {
                        proof {
                            assert(part@.skip(n as int) =~= Seq::<u8>::empty());
                        }
                        Some(p)
                    } else {
                        None
                    }
                },
                None => None,
            }
        },
        _ => None,
    };
    (value, frame.rest())
}

fn decode_version_ext(buf: &[u8]) -> (r: (Option<u8>, usize))
    ensures
        r.0 == spec_version_ext(buf@),
        r.1 == spec_extension_decode(buf@, SN_QUERY_RESP_PROTOCOL_VERSION_EXTENSION_MAGIC).spec_rest(),
        r.1 <= buf@.len(),
{
    let frame = extension_decode(buf, SN_QUERY_RESP_PROTOCOL_VERSION_EXTENSION_MAGIC);
    assert(buf@.len() == buf.len());
    proof {
        lemma_extension_decode_bounds(buf@, SN_QUERY_RESP_PROTOCOL_VERSION_EXTENSION_MAGIC);
    }
    let value = match frame {
        ExtensionFrame::Payload { start, end } => {
            let part = &buf[start..end];
            match decode_u8_field(part) {
                Some((v, n)) => {
                    if n == end - start {
                        proof {
                            assert(part@.skip(n as int) =~= Seq::<u8>::empty());
                        }
                        Some(v)
                    } else {
                        None
                    }
                },
                None => None,
            }
        },
        _ => None,
    };
    (value, frame.rest())
}

impl SnQueryResp {
    /// The bytes of this answer.
    pub fn to_vec(&self) -> (r: P2pResult<Vec<u8>>)
        requires
            self.peer_info matches Some(c) ==> c@.len() <= VARSIZE_MAX,
            self.end_point_array@.len() <= VARSIZE_MAX,
        ensures
            r matches Ok(v) && v@ == spec_query_resp_bytes(self@),
    {
        let mut out = encode_u32(self.seq.0);
        append_opt_bytes_field(&mut out, &self.peer_info);
        append_endpoint_list(&mut out, self.end_point_array.as_slice());
        let ghost legacy = out@;
        match &self.net_profile {
            Some(p) => {
                let payload = encode_profile(p);
                proof {
                    lemma_profile_roundtrip(*p, Seq::empty());
                }
                match extension_encode(Some(payload.as_slice()), SN_QUERY_RESP_EXTENSION_MAGIC, &mut out) {
                    Ok(()) => {},
                    Err(e) => {
                        return Err(e);
                    },
                }
            },
            None => {},
        }
        let ghost with_profile = out@;
        match self.target_protocol_version {
            Some(v) => {
                let payload = encode_u8(v);
                match extension_encode(
                    Some(payload.as_slice()),
                    SN_QUERY_RESP_PROTOCOL_VERSION_EXTENSION_MAGIC,
                    &mut out,
                ) {
                    Ok(()) => {},
                    Err(e) => {
                        return Err(e);
                    },
                }
            },
            None => {},
        }
        assert(out@ =~= spec_query_resp_bytes(self@));
        Ok(out)
    }

    /// The answer read from the start of `buf`; bytes that do not start with
    /// one are a codec error, and bytes after it are ignored.
    pub fn clone_from_slice(buf: &[u8]) -> (r: P2pResult<SnQueryResp>)
        ensures
            spec_parse_query_resp(buf@) is None ==> r == Err::<SnQueryResp, P2pError>(
                P2pError { code: P2pErrorCode::RawCodecError },
            ),
            spec_parse_query_resp(buf@) matches Some((m, rest)) ==> (r matches Ok(x) && x@ == m),
    {
        let ghost b = buf@;
        let (seq, n1) = match decode_u32_field(buf) {
            Some(p) => p,
            None => {
                return Err(P2pError::new(P2pErrorCode::RawCodecError));
            },
        };
        let s1 = &buf[n1..buf.len()];
        assert(s1@ =~= b.skip(n1 as int));
        let (info, n2) = match decode_opt_bytes_field(s1) {
            Some(p) => p,
            None => {
                return Err(P2pError::new(P2pErrorCode::RawCodecError));
            },
        };
        assert(b.skip(n1 as int).skip(n2 as int) =~= b.skip(n1 + n2));
        let p2 = n1 + n2;
        let s2 = &buf[p2..buf.len()];
        assert(s2@ =~= b.skip(p2 as int));
        let (eps, n3) = match decode_endpoint_list(s2) {
            Some(p) => p,
            None => {
                return Err(P2pError::new(P2pErrorCode::RawCodecError));
            },
        };
        assert(b.skip(p2 as int).skip(n3 as int) =~= b.skip(p2 + n3));
        let p3 = p2 + n3;
        let s3 = &buf[p3..buf.len()];
        assert(s3@ =~= b.skip(p3 as int));
        let (profile, n4) = decode_profile_ext(s3);
        assert(b.skip(p3 as int).skip(n4 as int) =~= b.skip(p3 + n4));
        let p4 = p3 + n4;
        let s4 = &buf[p4..buf.len()];
        assert(s4@ =~= b.skip(p4 as int));
        let (version, _n5) = decode_version_ext(s4);
        Ok(
            SnQueryResp {
                seq: Sequence(seq),
                peer_info: info,
                end_point_array: eps,
                net_profile: supported_nat_profile(profile),
                target_protocol_version: version,
            },
        )
    }
}

} // verus!
