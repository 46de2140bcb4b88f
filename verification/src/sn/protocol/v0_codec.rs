use vstd::prelude::*;
use crate::codec::{append_bytes, encode_u32, encode_u8, spec_be32};
use crate::error::{P2pError, P2pErrorCode, P2pResult};
use crate::sn::protocol::v0::{SnCallResp, SnCalledResp};
use crate::sn::protocol::wire::{
    append_bytes_field, append_opt_bytes_field, decode_bytes_field, decode_opt_bytes_field,
    decode_u32_field, decode_u8_field, lemma_bytes_field_roundtrip,
    lemma_opt_bytes_field_roundtrip, lemma_u32_roundtrip, lemma_u8_roundtrip, spec_bytes_field,
    spec_opt_bytes_field, spec_parse_bytes_field, spec_parse_opt_bytes_field, spec_parse_u32,
    spec_parse_u8, MAX_LIST_LEN, VARSIZE_MAX,
};
use crate::types::{P2pId, Sequence};

verus! {

pub struct SnCallRespView {
    pub seq: Sequence,
    pub sn_peer_id: Seq<u8>,
    pub result: u8,
    pub to_peer_info: Option<Seq<u8>>,
}

impl View for SnCallResp {
    type V = SnCallRespView;

    open spec fn view(&self) -> SnCallRespView {
        SnCallRespView {
            seq: self.seq,
            sn_peer_id: self.sn_peer_id@,
            result: self.result,
            to_peer_info: match self.to_peer_info {
                Some(c) => Some(c@),
                None => None,
            },
        }
    }
}

pub struct SnCalledRespView {
    pub seq: Sequence,
    pub sn_peer_id: Seq<u8>,
    pub result: u8,
}

impl View for SnCalledResp {
    type V = SnCalledRespView;

    open spec fn view(&self) -> SnCalledRespView {
        SnCalledRespView { seq: self.seq, sn_peer_id: self.sn_peer_id@, result: self.result }
    }
}

/// The bytes of a call response: its sequence (four big-endian bytes), the
/// SN's id as a byte string, the result byte and the callee's certificate,
/// if any.
pub open spec fn spec_call_resp_bytes(m: SnCallRespView) -> Seq<u8> {
    spec_be32(m.seq.0) + spec_bytes_field(m.sn_peer_id) + seq![m.result] + spec_opt_bytes_field(
        m.to_peer_info,
    )
}

pub open spec fn spec_parse_call_resp(b: Seq<u8>) -> Option<(SnCallRespView, Seq<u8>)> {
    match spec_parse_u32(b) {
        None => None,
        Some((seq, r1)) => match spec_parse_bytes_field(r1) {
            None => None,
            Some((sn, r2)) => match spec_parse_u8(r2) {
                None => None,
                Some((result, r3)) => match spec_parse_opt_bytes_field(r3) {
                    None => None,
                    Some((info, r4)) => Some(
                        (
                            SnCallRespView {
                                seq: Sequence(seq),
                                sn_peer_id: sn,
                                result,
                                to_peer_info: info,
                            },
                            r4,
                        ),
                    ),
                },
            },
        },
    }
}

/// A call response reads back from its bytes, whatever follows them.
pub proof fn lemma_call_resp_roundtrip(m: SnCallRespView, rest: Seq<u8>)
    requires
        m.sn_peer_id.len() <= MAX_LIST_LEN,
        m.to_peer_info matches Some(c) ==> c.len() <= MAX_LIST_LEN,
    ensures
        spec_parse_call_resp(spec_call_resp_bytes(m) + rest) == Some((m, rest)),
{
    let r4 = rest;
    let r3 = spec_opt_bytes_field(m.to_peer_info) + r4;
    let r2 = seq![m.result] + r3;
    let r1 = spec_bytes_field(m.sn_peer_id) + r2;
    let b = spec_be32(m.seq.0) + r1;
    assert(spec_call_resp_bytes(m) + rest =~= b);
    lemma_u32_roundtrip(m.seq.0, r1);
    lemma_bytes_field_roundtrip(m.sn_peer_id, r2);
    lemma_u8_roundtrip(m.result, r3);
    lemma_opt_bytes_field_roundtrip(m.to_peer_info, r4);
}

/// The bytes of a called-peer's answer: its sequence, the SN's id as a byte
/// string and the result byte.
pub open spec fn spec_called_resp_bytes(m: SnCalledRespView) -> Seq<u8> {
    spec_be32(m.seq.0) + spec_bytes_field(m.sn_peer_id) + seq![m.result]
}

pub open spec fn spec_parse_called_resp(b: Seq<u8>) -> Option<(SnCalledRespView, Seq<u8>)> {
    match spec_parse_u32(b) {
        None => None,
        Some((seq, r1)) => match spec_parse_bytes_field(r1) {
            None => None,
            Some((sn, r2)) => match spec_parse_u8(r2) {
                None => None,
                Some((result, r3)) => Some(
                    (SnCalledRespView { seq: Sequence(seq), sn_peer_id: sn, result }, r3),
                ),
            },
        },
    }
}

/// A called-peer's answer reads back from its bytes, whatever follows them.
pub proof fn lemma_called_resp_roundtrip(m: SnCalledRespView, rest: Seq<u8>)
    requires
        m.sn_peer_id.len() <= MAX_LIST_LEN,
    ensures
        spec_parse_called_resp(spec_called_resp_bytes(m) + rest) == Some((m, rest)),
{
    let r3 = rest;
    let r2 = seq![m.result] + r3;
    let r1 = spec_bytes_field(m.sn_peer_id) + r2;
    let b = spec_be32(m.seq.0) + r1;
    assert(spec_called_resp_bytes(m) + rest =~= b);
    lemma_u32_roundtrip(m.seq.0, r1);
    lemma_bytes_field_roundtrip(m.sn_peer_id, r2);
    lemma_u8_roundtrip(m.result, r3);
}

impl SnCallResp {
    /// The bytes of this response.
    pub fn to_vec(&self) -> (r: Vec<u8>)
        requires
            self.sn_peer_id@.len() <= VARSIZE_MAX,
            self.to_peer_info matches Some(c) ==> c@.len() <= VARSIZE_MAX,
        ensures
            r@ == spec_call_resp_bytes(self@),
    {
        let mut out = encode_u32(self.seq.0);
        append_bytes_field(&mut out, self.sn_peer_id.0.as_slice());
        let result = encode_u8(self.result);
        append_bytes(&mut out, result.as_slice());
        append_opt_bytes_field(&mut out, &self.to_peer_info);
        assert(out@ =~= spec_call_resp_bytes(self@));
        out
    }

    /// The value read from the start of `buf`; bytes that do not start with
    /// one are a codec error, and bytes after it are ignored.
    pub fn clone_from_slice(buf: &[u8]) -> (r: P2pResult<SnCallResp>)
        ensures
            spec_parse_call_resp(buf@) is None ==> r == Err::<SnCallResp, P2pError>(
                P2pError { code: P2pErrorCode::RawCodecError },
            ),
            spec_parse_call_resp(buf@) matches Some((m, rest)) ==> (r matches Ok(x) && x@ == m),
    {
        let ghost b = buf@;
        let (seq, n1) = match decode_u32_field(buf) {
            Some(p) => p,
            None => {
                return Err(P2pError::new(P2pErrorCode::RawCodecError));
            },
        };
        let s1 = &buf[n1..buf.len()];
        assert(s1@ =~= b.skip(n1 as int));
        let (sn, n2) = match decode_bytes_field(s1) {
            Some(p) => p,
            None => {
                return Err(P2pError::new(P2pErrorCode::RawCodecError));
            },
        };
        assert(b.skip(n1 as int).skip(n2 as int) =~= b.skip(n1 + n2));
        let p2 = n1 + n2;
        let s2 = &buf[p2..buf.len()];
        assert(s2@ =~= b.skip(p2 as int));
        let (result, n3) = match decode_u8_field(s2) {
            Some(p) => p,
            None => {
                return Err(P2pError::new(P2pErrorCode::RawCodecError));
            },
        };
        assert(b.skip(p2 as int).skip(n3 as int) =~= b.skip(p2 + n3));
        let p3 = p2 + n3;
        let s3 = &buf[p3..buf.len()];
        assert(s3@ =~= b.skip(p3 as int));
        let (info, n4) = match decode_opt_bytes_field(s3) {
            Some(p) => p,
            None => {
                return Err(P2pError::new(P2pErrorCode::RawCodecError));
            },
        };
        assert(b.skip(p3 as int).skip(n4 as int) =~= b.skip(p3 + n4));
        Ok(SnCallResp { seq: Sequence(seq), sn_peer_id: P2pId(sn), result, to_peer_info: info })
    }
}

impl SnCalledResp {
    /// The bytes of this answer.
    pub fn to_vec(&self) -> (r: Vec<u8>)
        requires
            self.sn_peer_id@.len() <= VARSIZE_MAX,
        ensures
            r@ == spec_called_resp_bytes(self@),
    {
        let mut out = encode_u32(self.seq.0);
        append_bytes_field(&mut out, self.sn_peer_id.0.as_slice());
        let result = encode_u8(self.result);
        append_bytes(&mut out, result.as_slice());
        assert(out@ =~= spec_called_resp_bytes(self@));
        out
    }

    /// The value read from the start of `buf`; bytes that do not start with
    /// one are a codec error, and bytes after it are ignored.
    pub fn clone_from_slice(buf: &[u8]) -> (r: P2pResult<SnCalledResp>)
        ensures
            spec_parse_called_resp(buf@) is None ==> r == Err::<SnCalledResp, P2pError>(
                P2pError { code: P2pErrorCode::RawCodecError },
            ),
            spec_parse_called_resp(buf@) matches Some((m, rest)) ==> (r matches Ok(x) && x@ == m),
    {
        let ghost b = buf@;
        let (seq, n1) = match decode_u32_field(buf) {
            Some(p) => p,
            None => {
                return Err(P2pError::new(P2pErrorCode::RawCodecError));
            },
        };
        let s1 = &buf[n1..buf.len()];
        assert(s1@ =~= b.skip(n1 as int));
        let (sn, n2) = match decode_bytes_field(s1) {
            Some(p) => p,
            None => {
                return Err(P2pError::new(P2pErrorCode::RawCodecError));
            },
        };
        assert(b.skip(n1 as int).skip(n2 as int) =~= b.skip(n1 + n2));
        let p2 = n1 + n2;
        let s2 = &buf[p2..buf.len()];
        assert(s2@ =~= b.skip(p2 as int));
        let (result, n3) = match decode_u8_field(s2) {
            Some(p) => p,
            None => {
                return Err(P2pError::new(P2pErrorCode::RawCodecError));
            },
        };
        assert(b.skip(p2 as int).skip(n3 as int) =~= b.skip(p2 + n3));
        Ok(SnCalledResp { seq: Sequence(seq), sn_peer_id: P2pId(sn), result })
    }
}

} // verus!
