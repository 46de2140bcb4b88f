use vstd::prelude::*;
use crate::codec::{append_bytes, encode_u32, encode_u64, encode_u8, spec_be32, spec_be64};
use crate::endpoint::Endpoint;
use crate::error::{P2pError, P2pErrorCode, P2pResult};
use crate::nat_type::NatTraversalContext;
use crate::sn::protocol::call_codec::{
    decode_context, encode_context, lemma_context_roundtrip, spec_context_bytes,
    spec_parse_context, spec_supported_context, spec_tunnel_type_of, spec_tunnel_type_tag,
};
use crate::sn::protocol::extension::{
    extension_decode, extension_encode, lemma_extension_decode_bounds, lemma_extension_roundtrip,
    spec_extension_bytes, spec_extension_decode, ExtensionFrame, SN_CALLED_EXTENSION_MAGIC,
};
use crate::sn::protocol::sn::supported_nat_context;
use crate::sn::protocol::v0::{SnCalled, TunnelType};
use crate::sn::protocol::wire::{
    append_bytes_field, append_endpoint_list, append_id_list, decode_bytes_field,
    decode_endpoint_list, decode_id_list, decode_u32_field, decode_u64_field, decode_u8_field,
    lemma_bytes_field_roundtrip, lemma_bytes_list_roundtrip, lemma_endpoint_list_roundtrip,
    lemma_u32_roundtrip, lemma_u64_roundtrip, lemma_u8_roundtrip, spec_bytes_field,
    spec_bytes_list, spec_endpoint_list_bytes, spec_id_items, spec_items_readable,
    spec_parse_bytes_field, spec_parse_bytes_list, spec_parse_endpoint_list, spec_parse_u32,
    spec_parse_u64, spec_parse_u8, MAX_LIST_LEN, VARSIZE_MAX,
};
use crate::types::{P2pId, Sequence, Timestamp, TunnelId};

verus! {

pub struct SnCalledView {
    pub seq: Sequence,
    pub sn_peer_id: Seq<u8>,
    pub to_peer_id: Seq<u8>,
    pub reverse_endpoint_array: Seq<Endpoint>,
    pub active_pn_list: Seq<Seq<u8>>,
    pub peer_info: Seq<u8>,
    pub tunnel_id: TunnelId,
    pub call_send_time: Timestamp,
    pub call_type: TunnelType,
    pub payload: Seq<u8>,
    pub nat_context: Option<NatTraversalContext>,
}

impl View for SnCalled {
    type V = SnCalledView;

    open spec fn view(&self) -> SnCalledView {
        SnCalledView {
            seq: self.seq,
            sn_peer_id: self.sn_peer_id@,
            to_peer_id: self.to_peer_id@,
            reverse_endpoint_array: self.reverse_endpoint_array@,
            active_pn_list: spec_id_items(self.active_pn_list@),
            peer_info: self.peer_info@,
            tunnel_id: self.tunnel_id,
            call_send_time: self.call_send_time,
            call_type: self.call_type,
            payload: self.payload@,
            nat_context: self.nat_context,
        }
    }
}

/// The leading fields of a relayed call: sequence, the SN's and callee's
/// ids, the caller's endpoints, the active peer ids and the caller's
/// certificate.
#[verifier::opaque]
pub open spec fn spec_called_head_bytes(m: SnCalledView) -> Seq<u8> {
    spec_be32(m.seq.0) + spec_bytes_field(m.sn_peer_id) + spec_bytes_field(m.to_peer_id)
        + spec_endpoint_list_bytes(m.reverse_endpoint_array) + spec_bytes_list(m.active_pn_list)
        + spec_bytes_field(m.peer_info)
}

/// The trailing legacy fields of a relayed call: tunnel id, the caller's
/// send time, the tunnel type's index and the payload.
#[verifier::opaque]
pub open spec fn spec_called_tail_bytes(m: SnCalledView) -> Seq<u8> {
    spec_be32(m.tunnel_id.0) + spec_be64(m.call_send_time) + seq![spec_tunnel_type_tag(m.call_type)]
        + spec_bytes_field(m.payload)
}

/// The NAT traversal context extension of a relayed call, empty without one.
pub open spec fn spec_called_ext_bytes(c: Option<NatTraversalContext>) -> Seq<u8> {
    match c {
        Some(c) => spec_extension_bytes(spec_context_bytes(c), SN_CALLED_EXTENSION_MAGIC),
        None => Seq::empty(),
    }
}

/// The bytes of a relayed call: its legacy fields, then its NAT traversal
/// context, when it has one, in the relayed call's extension.
pub open spec fn spec_sn_called_bytes(m: SnCalledView) -> Seq<u8> {
    spec_called_head_bytes(m) + spec_called_tail_bytes(m) + spec_called_ext_bytes(m.nat_context)
}

pub struct CalledHead {
    pub seq: u32,
    pub sn_peer_id: Seq<u8>,
    pub to_peer_id: Seq<u8>,
    pub reverse_endpoint_array: Seq<Endpoint>,
    pub active_pn_list: Seq<Seq<u8>>,
    pub peer_info: Seq<u8>,
}

#[verifier::opaque]
pub open spec fn spec_parse_called_head(b: Seq<u8>) -> Option<(CalledHead, Seq<u8>)> {
    match spec_parse_u32(b) {
        None => None,
        Some((seq, r1)) => match spec_parse_bytes_field(r1) {
            None => None,
            Some((sn, r2)) => match spec_parse_bytes_field(r2) {
                None => None,
                Some((to, r3)) => match spec_parse_endpoint_list(r3) {
                    None => None,
                    Some((eps, r4)) => match spec_parse_bytes_list(r4) {
                        None => None,
                        Some((active, r5)) => match spec_parse_bytes_field(r5) {
                            None => None,
                            Some((info, r6)) => Some(
                                (
                                    CalledHead {
                                        seq,
                                        sn_peer_id: sn,
                                        to_peer_id: to,
                                        reverse_endpoint_array: eps,
                                        active_pn_list: active,
                                        peer_info: info,
                                    },
                                    r6,
                                ),
                            ),
                        },
                    },
                },
            },
        },
    }
}

pub struct CalledTail {
    pub tunnel_id: u32,
    pub call_send_time: u64,
    pub call_type: TunnelType,
    pub payload: Seq<u8>,
}

#[verifier::opaque]
pub open spec fn spec_parse_called_tail(b: Seq<u8>) -> Option<(CalledTail, Seq<u8>)> {
    match spec_parse_u32(b) {
        None => None,
        Some((tid, r1)) => match spec_parse_u64(r1) {
            None => None,
            Some((time, r2)) => match spec_parse_u8(r2) {
                None => None,
                Some((tt, r3)) => match spec_parse_bytes_field(r3) {
                    None => None,
                    Some((payload, r4)) => match spec_tunnel_type_of(tt) {
                        None => None,
                        Some(ty) => Some(
                            (
                                CalledTail {
                                    tunnel_id: tid,
                                    call_send_time: time,
                                    call_type: ty,
                                    payload,
                                },
                                r4,
                            ),
                        ),
                    },
                },
            },
        },
    }
}

/// The NAT traversal context the relayed call's extension in `b` carries,
/// if it is there, of the current envelope version and fills its payload
/// exactly.
pub open spec fn spec_called_context(b: Seq<u8>) -> Option<NatTraversalContext> {
    match spec_extension_decode(b, SN_CALLED_EXTENSION_MAGIC) {
        ExtensionFrame::Payload { start, end } => match spec_parse_context(
            b.subrange(start as int, end as int),
        ) {
            Some((c, rr)) => if rr.len() == 0 {
                Some(c)
            } else {
                None
            },
            None => None,
        },
        _ => None,
    }
}

/// A relayed call read from the start of `b`: its legacy fields, then its
/// extension, whose context is kept only when supported; and what follows.
pub open spec fn spec_parse_sn_called(b: Seq<u8>) -> Option<(SnCalledView, Seq<u8>)> {
    match spec_parse_called_head(b) {
        None => None,
        Some((h, r1)) => match spec_parse_called_tail(r1) {
            None => None,
            Some((t, r2)) => Some(
                (
                    SnCalledView {
                        seq: Sequence(h.seq),
                        sn_peer_id: h.sn_peer_id,
                        to_peer_id: h.to_peer_id,
                        reverse_endpoint_array: h.reverse_endpoint_array,
                        active_pn_list: h.active_pn_list,
                        peer_info: h.peer_info,
                        tunnel_id: TunnelId(t.tunnel_id),
                        call_send_time: t.call_send_time,
                        call_type: t.call_type,
                        payload: t.payload,
                        nat_context: spec_supported_context(spec_called_context(r2)),
                    },
                    r2.skip(spec_extension_decode(r2, SN_CALLED_EXTENSION_MAGIC).spec_rest() as int),
                ),
            ),
        },
    }
}

/// A relayed call whose ids, lists, certificate and payload are short
/// enough to be read back.
pub open spec fn spec_called_readable(m: SnCalledView) -> bool {
    &&& m.sn_peer_id.len() <= MAX_LIST_LEN
    &&& m.to_peer_id.len() <= MAX_LIST_LEN
    &&& m.reverse_endpoint_array.len() <= MAX_LIST_LEN
    &&& m.active_pn_list.len() <= MAX_LIST_LEN
    &&& spec_items_readable(m.active_pn_list)
    &&& m.peer_info.len() <= MAX_LIST_LEN
    &&& m.payload.len() <= MAX_LIST_LEN
}

proof fn lemma_called_head_roundtrip(m: SnCalledView, rest: Seq<u8>)
    requires
        spec_called_readable(m),
    ensures
        spec_parse_called_head(spec_called_head_bytes(m) + rest) == Some(
            (
                CalledHead {
                    seq: m.seq.0,
                    sn_peer_id: m.sn_peer_id,
                    to_peer_id: m.to_peer_id,
                    reverse_endpoint_array: m.reverse_endpoint_array,
                    active_pn_list: m.active_pn_list,
                    peer_info: m.peer_info,
                },
                rest,
            ),
        ),
{
    reveal(spec_called_head_bytes);
    reveal(spec_parse_called_head);
    let r6 = rest;
    let r5 = spec_bytes_field(m.peer_info) + r6;
    let r4 = spec_bytes_list(m.active_pn_list) + r5;
    let r3 = spec_endpoint_list_bytes(m.reverse_endpoint_array) + r4;
    let r2 = spec_bytes_field(m.to_peer_id) + r3;
    let r1 = spec_bytes_field(m.sn_peer_id) + r2;
    let b = spec_be32(m.seq.0) + r1;
    assert(spec_called_head_bytes(m) + rest =~= b);
    lemma_u32_roundtrip(m.seq.0, r1);
    lemma_bytes_field_roundtrip(m.sn_peer_id, r2);
    lemma_bytes_field_roundtrip(m.to_peer_id, r3);
    lemma_endpoint_list_roundtrip(m.reverse_endpoint_array, r4);
    lemma_bytes_list_roundtrip(m.active_pn_list, r5);
    lemma_bytes_field_roundtrip(m.peer_info, r6);
}

proof fn lemma_called_tail_roundtrip(m: SnCalledView, rest: Seq<u8>)
    requires
        spec_called_readable(m),
    ensures
        spec_parse_called_tail(spec_called_tail_bytes(m) + rest) == Some(
            (
                CalledTail {
                    tunnel_id: m.tunnel_id.0,
                    call_send_time: m.call_send_time,
                    call_type: m.call_type,
                    payload: m.payload,
                },
                rest,
            ),
        ),
{
    reveal(spec_called_tail_bytes);
    reveal(spec_parse_called_tail);
    let tt = spec_tunnel_type_tag(m.call_type);
    let r4 = rest;
    let r3 = spec_bytes_field(m.payload) + r4;
    let r2 = seq![tt] + r3;
    let r1 = spec_be64(m.call_send_time) + r2;
    let b = spec_be32(m.tunnel_id.0) + r1;
    assert(spec_called_tail_bytes(m) + rest =~= b);
    lemma_u32_roundtrip(m.tunnel_id.0, r1);
    lemma_u64_roundtrip(m.call_send_time, r2);
    lemma_u8_roundtrip(tt, r3);
    lemma_bytes_field_roundtrip(m.payload, r4);
    assert(spec_tunnel_type_of(tt) == Some(m.call_type));
}

/// A relayed call reads back from its own bytes, its NAT traversal context
/// kept when supported and dropped otherwise, with nothing left over.
pub proof fn lemma_sn_called_roundtrip(m: SnCalledView)
    requires
        spec_called_readable(m),
    ensures
        spec_parse_sn_called(spec_sn_called_bytes(m)) == Some(
            (
                SnCalledView { nat_context: spec_supported_context(m.nat_context), ..m },
                Seq::<u8>::empty(),
            ),
        ),
{
    let ext = spec_called_ext_bytes(m.nat_context);
    let t = spec_called_tail_bytes(m);
    let h = spec_called_head_bytes(m);
    assert(spec_sn_called_bytes(m) =~= h + (t + ext));
    lemma_called_head_roundtrip(m, t + ext);
    lemma_called_tail_roundtrip(m, ext);
    match m.nat_context {
        Some(c) => {
            let payload = spec_context_bytes(c);
            lemma_context_roundtrip(c, Seq::empty());
            assert(payload + Seq::<u8>::empty() =~= payload);
            lemma_extension_roundtrip(payload, SN_CALLED_EXTENSION_MAGIC, Seq::empty());
            assert(ext + Seq::<u8>::empty() =~= ext);
            assert(spec_called_context(ext) == Some(c));
            assert(ext.skip(ext.len() as int) =~= Seq::<u8>::empty());
        },
        None => {
            assert(spec_extension_decode(ext, SN_CALLED_EXTENSION_MAGIC) == ExtensionFrame::Absent);
            assert(ext.skip(0) =~= ext);
        },
    }
}

fn tunnel_type_index(t: TunnelType) -> (r: u8)
    ensures
        r == spec_tunnel_type_tag(t),
{
    match t {
        TunnelType::Datagram => 0,
        TunnelType::Stream => 1,
    }
}

fn append_called_head(out: &mut Vec<u8>, m: &SnCalled)
    requires
        m.sn_peer_id@.len() <= VARSIZE_MAX,
        m.to_peer_id@.len() <= VARSIZE_MAX,
        m.reverse_endpoint_array@.len() <= VARSIZE_MAX,
        m.active_pn_list@.len() <= VARSIZE_MAX,
        forall|i: int|
            0 <= i < m.active_pn_list@.len() ==> #[trigger] m.active_pn_list@[i]@.len()
                <= VARSIZE_MAX,
        m.peer_info@.len() <= VARSIZE_MAX,
    ensures
        final(out)@ == old(out)@ + spec_called_head_bytes(m@),
{
    reveal(spec_called_head_bytes);
    let ghost v = m@;
    let ghost o0 = out@;
    let seq = encode_u32(m.seq.0);
    append_bytes(out, seq.as_slice());
    let ghost o1 = out@;
    append_bytes_field(out, m.sn_peer_id.0.as_slice());
    let ghost o2 = out@;
    append_bytes_field(out, m.to_peer_id.0.as_slice());
    let ghost o3 = out@;
    append_endpoint_list(out, m.reverse_endpoint_array.as_slice());
    let ghost o4 = out@;
    append_id_list(out, m.active_pn_list.as_slice());
    let ghost o5 = out@;
    append_bytes_field(out, m.peer_info.as_slice());
    proof {
        let a = spec_be32(v.seq.0);
        let b = spec_bytes_field(v.sn_peer_id);
        let c = spec_bytes_field(v.to_peer_id);
        let d = spec_endpoint_list_bytes(v.reverse_endpoint_array);
        let e = spec_bytes_list(v.active_pn_list);
        let f = spec_bytes_field(v.peer_info);
        assert(o1 == o0 + a);
        assert(o2 == o1 + b);
        assert(o3 == o2 + c);
        assert(o4 == o3 + d);
        assert(o5 == o4 + e);
        assert(out@ == o5 + f);
        assert(spec_called_head_bytes(v) == a + b + c + d + e + f);
        assert(out@ =~= o0 + (a + b + c + d + e + f));
    }
}

fn append_called_tail(out: &mut Vec<u8>, m: &SnCalled)
    requires
        m.payload@.len() <= VARSIZE_MAX,
    ensures
        final(out)@ == old(out)@ + spec_called_tail_bytes(m@),
{
    reveal(spec_called_tail_bytes);
    let tid = encode_u32(m.tunnel_id.0);
    append_bytes(out, tid.as_slice());
    let time = encode_u64(m.call_send_time);
    append_bytes(out, time.as_slice());
    let tt = encode_u8(tunnel_type_index(m.call_type));
    append_bytes(out, tt.as_slice());
    append_bytes_field(out, m.payload.as_slice());
    assert(final(out)@ =~= old(out)@ + spec_called_tail_bytes(m@));
}

impl SnCalled {
    /// The bytes of this relayed call.
    #[verifier::rlimit(50)]
    pub fn to_vec(&self) -> (r: P2pResult<Vec<u8>>)
        requires
            self.sn_peer_id@.len() <= VARSIZE_MAX,
            self.to_peer_id@.len() <= VARSIZE_MAX,
            self.reverse_endpoint_array@.len() <= VARSIZE_MAX,
            self.active_pn_list@.len() <= VARSIZE_MAX,
            forall|i: int|
                0 <= i < self.active_pn_list@.len() ==> #[trigger] self.active_pn_list@[i]@.len()
                    <= VARSIZE_MAX,
            self.peer_info@.len() <= VARSIZE_MAX,
            self.payload@.len() <= VARSIZE_MAX,
        ensures
            r matches Ok(v) && v@ == spec_sn_called_bytes(self@),
    {
        let mut out: Vec<u8> = Vec::new();
        append_called_head(&mut out, self);
        append_called_tail(&mut out, self);
        match &self.nat_context {
            Some(c) => {
                let payload = encode_context(c);
                proof {
                    lemma_context_roundtrip(*c, Seq::empty());
                }
                match extension_encode(Some(payload.as_slice()), SN_CALLED_EXTENSION_MAGIC, &mut out) {
                    Ok(()) => {},
                    Err(e) => {
                        return Err(e);
                    },
                }
            },
            None => {},
        }
        assert(out@ =~= spec_sn_called_bytes(self@));
        Ok(out)
    }

    /// The relayed call read from the start of `buf`; bytes that do not
    /// start with one are a codec error, and bytes after it are ignored.
    pub fn clone_from_slice(buf: &[u8]) -> (r: P2pResult<SnCalled>)
        ensures
            spec_parse_sn_called(buf@) is None ==> r == Err::<SnCalled, P2pError>(
                P2pError { code: P2pErrorCode::RawCodecError },
            ),
            spec_parse_sn_called(buf@) matches Some((m, rest)) ==> (r matches Ok(x) && x@ == m),
    {
        match decode_sn_called(buf) {
            None => Err(P2pError::new(P2pErrorCode::RawCodecError)),
            Some((m, _)) => Ok(m),
        }
    }
}

/// The NAT traversal context in the relayed call's extension at the start
/// of `buf`, and where the bytes after the extension start.
fn decode_called_context(buf: &[u8]) -> (r: (Option<NatTraversalContext>, usize))
    ensures
        r.0 == spec_called_context(buf@),
        r.1 == spec_extension_decode(buf@, SN_CALLED_EXTENSION_MAGIC).spec_rest(),
        r.1 <= buf@.len(),
{
    let frame = extension_decode(buf, SN_CALLED_EXTENSION_MAGIC);
    assert(buf@.len() == buf.len());
    proof {
        lemma_extension_decode_bounds(buf@, SN_CALLED_EXTENSION_MAGIC);
    }
    let ctx = match frame {
        ExtensionFrame::Payload { start, end } => {
            let part = &buf[start..end];
            match decode_context(part) {
                Some((c, n)) => {
                    if n == end - start {
                        proof {
                            assert(part@.skip(n as int) =~= Seq::<u8>::empty());
                        }
                        Some(c)
                    } else {
                        None
                    }
                },
                None => None,
            }
        },
        _ => None,
    };
    (ctx, frame.rest())
}

type CalledHeadFields = (u32, Vec<u8>, Vec<u8>, Vec<Endpoint>, Vec<P2pId>, Vec<u8>);

fn decode_called_head(buf: &[u8]) -> (r: Option<(CalledHeadFields, usize)>)
    ensures
        match spec_parse_called_head(buf@) {
            None => r is None,
            Some((h, rest)) => r matches Some((f, n)) && f.0 == h.seq && f.1@ == h.sn_peer_id
                && f.2@ == h.to_peer_id && f.3@ == h.reverse_endpoint_array && spec_id_items(f.4@)
                == h.active_pn_list && f.5@ == h.peer_info && n <= buf@.len() && rest
                == buf@.skip(n as int),
        },
{
    reveal(spec_parse_called_head);
    let ghost b = buf@;
    let (seq, n) = match decode_u32_field(buf) {
        Some(p) => p,
        None => {
            return None;
        },
    };
    let mut pos: usize = n;
    let s = &buf[pos..buf.len()];
    assert(s@ =~= b.skip(pos as int));
    let (sn, n) = match decode_bytes_field(s) {
        Some(p) => p,
        None => {
            return None;
        },
    };
    assert(b.skip(pos as int).skip(n as int) =~= b.skip(pos + n));
    pos = pos + n;
    let s = &buf[pos..buf.len()];
    assert(s@ =~= b.skip(pos as int));
    let (to, n) = match decode_bytes_field(s) {
        Some(p) => p,
        None => {
            return None;
        },
    };
    assert(b.skip(pos as int).skip(n as int) =~= b.skip(pos + n));
    pos = pos + n;
    let s = &buf[pos..buf.len()];
    assert(s@ =~= b.skip(pos as int));
    let (eps, n) = match decode_endpoint_list(s) {
        Some(p) => p,
        None => {
            return None;
        },
    };
    assert(b.skip(pos as int).skip(n as int) =~= b.skip(pos + n));
    pos = pos + n;
    let s = &buf[pos..buf.len()];
    assert(s@ =~= b.skip(pos as int));
    let (active, n) = match decode_id_list(s) {
        Some(p) => p,
        None => {
            return None;
        },
    };
    assert(b.skip(pos as int).skip(n as int) =~= b.skip(pos + n));
    pos = pos + n;
    let s = &buf[pos..buf.len()];
    assert(s@ =~= b.skip(pos as int));
    let (info, n) = match decode_bytes_field(s) {
        Some(p) => p,
        None => {
            return None;
        },
    };
    assert(b.skip(pos as int).skip(n as int) =~= b.skip(pos + n));
    pos = pos + n;
    Some(((seq, sn, to, eps, active, info), pos))
}

type CalledTailFields = (u32, u64, TunnelType, Vec<u8>);

fn decode_called_tail(buf: &[u8]) -> (r: Option<(CalledTailFields, usize)>)
    ensures
        match spec_parse_called_tail(buf@) {
            None => r is None,
            Some((t, rest)) => r matches Some((f, n)) && f.0 == t.tunnel_id && f.1
                == t.call_send_time && f.2 == t.call_type && f.3@ == t.payload && n <= buf@.len()
                && rest == buf@.skip(n as int),
        },
{
    reveal(spec_parse_called_tail);
    let ghost b = buf@;
    let (tid, n) = match decode_u32_field(buf) {
        Some(p) => p,
        None => {
            return None;
        },
    };
    let mut pos: usize = n;
    let s = &buf[pos..buf.len()];
    assert(s@ =~= b.skip(pos as int));
    let (time, n) = match decode_u64_field(s) {
        Some(p) => p,
        None => {
            return None;
        },
    };
    assert(b.skip(pos as int).skip(n as int) =~= b.skip(pos + n));
    pos = pos + n;
    let s = &buf[pos..buf.len()];
    assert(s@ =~= b.skip(pos as int));
    let (tt, n) = match decode_u8_field(s) {
        Some(p) => p,
        None => {
            return None;
        },
    };
    assert(b.skip(pos as int).skip(n as int) =~= b.skip(pos + n));
    pos = pos + n;
    let s = &buf[pos..buf.len()];
    assert(s@ =~= b.skip(pos as int));
    let (payload, n) = match decode_bytes_field(s) {
        Some(p) => p,
        None => {
            return None;
        },
    };
    assert(b.skip(pos as int).skip(n as int) =~= b.skip(pos + n));
    pos = pos + n;
    let call_type = if tt == 0 {
        TunnelType::Datagram
    } else if tt == 1 {
        TunnelType::Stream
    } else {
        return None;
    };
    Some(((tid, time, call_type, payload), pos))
}

/// A relayed call read from the start of `buf`, and how many bytes it took.
pub fn decode_sn_called(buf: &[u8]) -> (r: Option<(SnCalled, usize)>)
    ensures
        match spec_parse_sn_called(buf@) {
            None => r is None,
            Some((v, rest)) => r matches Some((x, n)) && x@ == v && n <= buf@.len() && rest
                == buf@.skip(n as int),
        },
{
    let ghost b = buf@;
    let (h, n1) = match decode_called_head(buf) {
        Some(p) => p,
        None => {
            return None;
        },
    };
    let s1 = &buf[n1..buf.len()];
    assert(s1@ =~= b.skip(n1 as int));
    let (t, n2) = match decode_called_tail(s1) {
        Some(p) => p,
        None => {
            return None;
        },
    };
    assert(b.skip(n1 as int).skip(n2 as int) =~= b.skip(n1 + n2));
    let pos = n1 + n2;
    let s2 = &buf[pos..buf.len()];
    assert(s2@ =~= b.skip(pos as int));
    let (ctx, n3) = decode_called_context(s2);
    assert(b.skip(pos as int).skip(n3 as int) =~= b.skip(pos + n3));
    let (seq, sn, to, eps, active, info) = h;
    let (tid, time, call_type, payload) = t;
    let m = SnCalled {
        seq: Sequence(seq),
        sn_peer_id: P2pId(sn),
        to_peer_id: P2pId(to),
        reverse_endpoint_array: eps,
        active_pn_list: active,
        peer_info: info,
        tunnel_id: TunnelId(tid),
        call_send_time: time,
        call_type,
        payload,
        nat_context: supported_nat_context(ctx),
    };
    Some((m, pos + n3))
}

} // verus!
