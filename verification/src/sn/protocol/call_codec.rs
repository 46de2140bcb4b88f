use vstd::prelude::*;
use crate::codec::{append_bytes, encode_u32, encode_u64, encode_u8, spec_be32, spec_be64};
use crate::endpoint::Endpoint;
use crate::error::{P2pError, P2pErrorCode, P2pResult};
use crate::nat_type::{NatMappingObservation, NatProfile, NatTraversalContext};
use crate::sn::protocol::extension::{
    extension_decode, extension_encode, lemma_extension_roundtrip, spec_extension_bytes,
    spec_extension_decode, ExtensionFrame, SN_CALL_EXTENSION_MAGIC,
};
use crate::sn::protocol::message::SnCall;
use crate::sn::protocol::sn::supported_nat_context;
use crate::sn::protocol::v0::TunnelType;
use crate::sn::protocol::wire::{
    append_bytes_field, append_opt_bytes_field, append_opt_endpoint_list, append_opt_id_list,
    decode_bool, decode_bytes_field, decode_opt_bytes_field, decode_opt_endpoint_list,
    decode_opt_id_list, decode_u32_field, decode_u64_field, decode_u8_field, encode_bool,
    lemma_bool_roundtrip, lemma_bytes_field_roundtrip, lemma_opt_bytes_field_roundtrip,
    lemma_opt_bytes_list_roundtrip, lemma_opt_endpoint_list_roundtrip, lemma_u32_roundtrip,
    lemma_u64_roundtrip, lemma_u8_roundtrip, spec_bool_bytes, spec_bytes_field, spec_id_items,
    spec_items_readable, spec_opt_bytes_field, spec_opt_bytes_list, spec_opt_endpoint_list_bytes,
    spec_parse_bool, spec_parse_bytes_field, spec_parse_opt_bytes_field,
    spec_parse_opt_bytes_list, spec_parse_opt_endpoint_list, spec_parse_u32, spec_parse_u64,
    spec_parse_u8, MAX_LIST_LEN, VARSIZE_MAX,
};
use crate::types::{P2pId, Sequence, Timestamp, TunnelId};

verus! {

pub open spec fn spec_tunnel_type_tag(t: TunnelType) -> u8 {
    match t {
        TunnelType::Datagram => 0,
        TunnelType::Stream => 1,
    }
}

pub open spec fn spec_tunnel_type_of(t: u8) -> Option<TunnelType> {
    if t == 0 {
        Some(TunnelType::Datagram)
    } else if t == 1 {
        Some(TunnelType::Stream)
    } else {
        None
    }
}

pub open spec fn spec_observation_tag(o: NatMappingObservation) -> u8 {
    match o {
        NatMappingObservation::Unknown => 0,
        NatMappingObservation::EndpointIndependent => 1,
        NatMappingObservation::AddressDependent => 2,
        NatMappingObservation::AddressAndPortDependent => 3,
    }
}

pub open spec fn spec_observation_of(t: u8) -> Option<NatMappingObservation> {
    if t == 0 {
        Some(NatMappingObservation::Unknown)
    } else if t == 1 {
        Some(NatMappingObservation::EndpointIndependent)
    } else if t == 2 {
        Some(NatMappingObservation::AddressDependent)
    } else if t == 3 {
        Some(NatMappingObservation::AddressAndPortDependent)
    } else {
        None
    }
}

/// A NAT profile: its version, the observation's index and the end of its
/// validity (eight big-endian bytes).
#[verifier::opaque]
pub open spec fn spec_profile_bytes(p: NatProfile) -> Seq<u8> {
    seq![p.version, spec_observation_tag(p.observation)] + spec_be64(p.valid_until)
}

#[verifier::opaque]
pub open spec fn spec_parse_profile(b: Seq<u8>) -> Option<(NatProfile, Seq<u8>)> {
    match spec_parse_u8(b) {
        None => None,
        Some((v, r1)) => match spec_parse_u8(r1) {
            None => None,
            Some((o, r2)) => match spec_parse_u64(r2) {
                None => None,
                Some((until, r3)) => match spec_observation_of(o) {
                    None => None,
                    Some(obs) => Some(
                        (NatProfile { version: v, observation: obs, valid_until: until }, r3),
                    ),
                },
            },
        },
    }
}

/// A NAT traversal context: its version and the caller's and callee's
/// profiles.
#[verifier::opaque]
pub open spec fn spec_context_bytes(c: NatTraversalContext) -> Seq<u8> {
    seq![c.version] + spec_profile_bytes(c.caller_profile) + spec_profile_bytes(c.callee_profile)
}

#[verifier::opaque]
pub open spec fn spec_parse_context(b: Seq<u8>) -> Option<(NatTraversalContext, Seq<u8>)> {
    match spec_parse_u8(b) {
        None => None,
        Some((v, r1)) => match spec_parse_profile(r1) {
            None => None,
            Some((caller, r2)) => match spec_parse_profile(r2) {
                None => None,
                Some((callee, r3)) => Some(
                    (
                        NatTraversalContext {
                            version: v,
                            caller_profile: caller,
                            callee_profile: callee,
                        },
                        r3,
                    ),
                ),
            },
        },
    }
}

pub proof fn lemma_profile_roundtrip(p: NatProfile, rest: Seq<u8>)
    ensures
        spec_parse_profile(spec_profile_bytes(p) + rest) == Some((p, rest)),
        spec_profile_bytes(p).len() == 10,
{
    reveal(spec_profile_bytes);
    reveal(spec_parse_profile);
    let ot = spec_observation_tag(p.observation);
    let r3 = rest;
    let r2 = spec_be64(p.valid_until) + r3;
    let r1 = seq![ot] + r2;
    let b = seq![p.version] + r1;
    assert(spec_profile_bytes(p) + rest =~= b);
    lemma_u8_roundtrip(p.version, r1);
    lemma_u8_roundtrip(ot, r2);
    lemma_u64_roundtrip(p.valid_until, r3);
    crate::codec::lemma_be64_roundtrip(p.valid_until);
    assert(spec_observation_of(ot) == Some(p.observation));
}

pub proof fn lemma_context_roundtrip(c: NatTraversalContext, rest: Seq<u8>)
    ensures
        spec_parse_context(spec_context_bytes(c) + rest) == Some((c, rest)),
        spec_context_bytes(c).len() == 21,
{
    reveal(spec_context_bytes);
    reveal(spec_parse_context);
    let r3 = rest;
    let r2 = spec_profile_bytes(c.callee_profile) + r3;
    let r1 = spec_profile_bytes(c.caller_profile) + r2;
    let b = seq![c.version] + r1;
    assert(spec_context_bytes(c) + rest =~= b);
    lemma_u8_roundtrip(c.version, r1);
    lemma_profile_roundtrip(c.caller_profile, r2);
    lemma_profile_roundtrip(c.callee_profile, r3);
}

fn observation_tag(o: NatMappingObservation) -> (r: u8)
    ensures
        r == spec_observation_tag(o),
{
    match o {
        NatMappingObservation::Unknown => 0,
        NatMappingObservation::EndpointIndependent => 1,
        NatMappingObservation::AddressDependent => 2,
        NatMappingObservation::AddressAndPortDependent => 3,
    }
}

fn append_profile(out: &mut Vec<u8>, p: &NatProfile)
    ensures
        final(out)@ == old(out)@ + spec_profile_bytes(*p),
{
    reveal(spec_profile_bytes);
    let v = encode_u8(p.version);
    append_bytes(out, v.as_slice());
    let o = encode_u8(observation_tag(p.observation));
    append_bytes(out, o.as_slice());
    let u = encode_u64(p.valid_until);
    append_bytes(out, u.as_slice());
    assert(final(out)@ =~= old(out)@ + spec_profile_bytes(*p));
}

/// The bytes of a NAT profile.
pub fn encode_profile(p: &NatProfile) -> (r: Vec<u8>)
    ensures
        r@ == spec_profile_bytes(*p),
{
    let mut out: Vec<u8> = Vec::new();
    append_profile(&mut out, p);
    assert(out@ =~= spec_profile_bytes(*p));
    out
}

/// The bytes of a NAT traversal context.
pub fn encode_context(c: &NatTraversalContext) -> (r: Vec<u8>)
    ensures
        r@ == spec_context_bytes(*c),
{
    reveal(spec_context_bytes);
    let mut out = encode_u8(c.version);
    append_profile(&mut out, &c.caller_profile);
    append_profile(&mut out, &c.callee_profile);
    assert(out@ =~= spec_context_bytes(*c));
    out
}

pub fn decode_profile(buf: &[u8]) -> (r: Option<(NatProfile, usize)>)
    ensures
        match spec_parse_profile(buf@) {
            None => r is None,
            Some((v, rest)) => r matches Some((x, n)) && x == v && n <= buf@.len() && rest
                == buf@.skip(n as int),
        },
{
    reveal(spec_parse_profile);
    let ghost b = buf@;
    let (v, n1) = match decode_u8_field(buf) {
        Some(p) => p,
        None => {
            return None;
        },
    };
    let s1 = &buf[n1..buf.len()];
    assert(s1@ =~= b.skip(n1 as int));
    let (o, n2) = match decode_u8_field(s1) {
        Some(p) => p,
        None => {
            return None;
        },
    };
    assert(b.skip(n1 as int).skip(n2 as int) =~= b.skip(n1 + n2));
    let p2 = n1 + n2;
    let s2 = &buf[p2..buf.len()];
    assert(s2@ =~= b.skip(p2 as int));
    let (until, n3) = match decode_u64_field(s2) {
        Some(p) => p,
        None => {
            return None;
        },
    };
    assert(b.skip(p2 as int).skip(n3 as int) =~= b.skip(p2 + n3));
    let obs = if o == 0 {
        NatMappingObservation::Unknown
    } else if o == 1 {
        NatMappingObservation::EndpointIndependent
    } else if o == 2 {
        NatMappingObservation::AddressDependent
    } else if o == 3 {
        NatMappingObservation::AddressAndPortDependent
    } else {
        return None;
    };
    Some((NatProfile { version: v, observation: obs, valid_until: until }, p2 + n3))
}

/// A NAT traversal context read from the start of `buf`.
pub fn decode_context(buf: &[u8]) -> (r: Option<(NatTraversalContext, usize)>)
    ensures
        match spec_parse_context(buf@) {
            None => r is None,
            Some((v, rest)) => r matches Some((x, n)) && x == v && n <= buf@.len() && rest
                == buf@.skip(n as int),
        },
{
    reveal(spec_parse_context);
    let ghost b = buf@;
    let (v, n1) = match decode_u8_field(buf) {
        Some(p) => p,
        None => {
            return None;
        },
    };
    let s1 = &buf[n1..buf.len()];
    assert(s1@ =~= b.skip(n1 as int));
    let (caller, n2) = match decode_profile(s1) {
        Some(p) => p,
        None => {
            return None;
        },
    };
    assert(b.skip(n1 as int).skip(n2 as int) =~= b.skip(n1 + n2));
    let p2 = n1 + n2;
    let s2 = &buf[p2..buf.len()];
    assert(s2@ =~= b.skip(p2 as int));
    let (callee, n3) = match decode_profile(s2) {
        Some(p) => p,
        None => {
            return None;
        },
    };
    assert(b.skip(p2 as int).skip(n3 as int) =~= b.skip(p2 + n3));
    Some((NatTraversalContext { version: v, caller_profile: caller, callee_profile: callee }, p2 + n3))
}

pub struct SnCallView {
    pub protocol_version: u8,
    pub stack_version: u32,
    pub seq: Sequence,
    pub tunnel_id: TunnelId,
    pub sn_peer_id: Seq<u8>,
    pub to_peer_id: Seq<u8>,
    pub from_peer_id: Seq<u8>,
    pub reverse_endpoint_array: Option<Seq<Endpoint>>,
    pub active_pn_list: Option<Seq<Seq<u8>>>,
    pub peer_info: Option<Seq<u8>>,
    pub send_time: Timestamp,
    pub call_type: TunnelType,
    pub payload: Seq<u8>,
    pub is_always_call: bool,
    pub nat_context: Option<NatTraversalContext>,
}

impl View for SnCall {
    type V = SnCallView;

    open spec fn view(&self) -> SnCallView {
        SnCallView {
            protocol_version: self.protocol_version,
            stack_version: self.stack_version,
            seq: self.seq,
            tunnel_id: self.tunnel_id,
            sn_peer_id: self.sn_peer_id@,
            to_peer_id: self.to_peer_id@,
            from_peer_id: self.from_peer_id@,
            reverse_endpoint_array: match self.reverse_endpoint_array {
                Some(v) => Some(v@),
                None => None,
            },
            active_pn_list: match self.active_pn_list {
                Some(v) => Some(spec_id_items(v@)),
                None => None,
            },
            peer_info: match self.peer_info {
                Some(v) => Some(v@),
                None => None,
            },
            send_time: self.send_time,
            call_type: self.call_type,
            payload: self.payload@,
            is_always_call: self.is_always_call,
            nat_context: self.nat_context,
        }
    }
}

/// The leading fields of a call: protocol and stack versions, sequence,
/// tunnel id and the SN's, callee's and caller's ids.
#[verifier::opaque]
pub open spec fn spec_call_head_bytes(m: SnCallView) -> Seq<u8> {
    seq![m.protocol_version] + spec_be32(m.stack_version) + spec_be32(m.seq.0) + spec_be32(
        m.tunnel_id.0,
    ) + spec_bytes_field(m.sn_peer_id) + spec_bytes_field(m.to_peer_id) + spec_bytes_field(
        m.from_peer_id,
    )
}

/// The trailing fields of a call's legacy part: reverse endpoints, active
/// peer ids and certificate (each optional), send time, tunnel type,
/// payload and the insistence flag.
#[verifier::opaque]
pub open spec fn spec_call_tail_bytes(m: SnCallView) -> Seq<u8> {
    spec_call_tail_lists(m) + spec_call_tail_rest(m)
}

/// The optional reverse endpoints, active peer ids and certificate of a call.
pub open spec fn spec_call_tail_lists(m: SnCallView) -> Seq<u8> {
    spec_opt_endpoint_list_bytes(m.reverse_endpoint_array) + spec_opt_bytes_list(m.active_pn_list)
        + spec_opt_bytes_field(m.peer_info)
}

/// The send time, tunnel type, payload and insistence flag of a call.
pub open spec fn spec_call_tail_rest(m: SnCallView) -> Seq<u8> {
    spec_be64(m.send_time) + seq![spec_tunnel_type_tag(m.call_type)] + spec_bytes_field(m.payload)
        + spec_bool_bytes(m.is_always_call)
}

/// The bytes of a call: its legacy fields, then its NAT traversal context,
/// when it has one, in the call's extension.
pub open spec fn spec_sn_call_bytes(m: SnCallView) -> Seq<u8> {
    spec_call_head_bytes(m) + spec_call_tail_bytes(m) + match m.nat_context {
        Some(c) => spec_extension_bytes(spec_context_bytes(c), SN_CALL_EXTENSION_MAGIC),
        None => Seq::empty(),
    }
}

pub struct CallHead {
    pub protocol_version: u8,
    pub stack_version: u32,
    pub seq: u32,
    pub tunnel_id: u32,
    pub sn_peer_id: Seq<u8>,
    pub to_peer_id: Seq<u8>,
    pub from_peer_id: Seq<u8>,
}

#[verifier::opaque]
pub open spec fn spec_parse_call_head(b: Seq<u8>) -> Option<(CallHead, Seq<u8>)> {
    match spec_parse_u8(b) {
        None => None,
        Some((pv, r1)) => match spec_parse_u32(r1) {
            None => None,
            Some((sv, r2)) => match spec_parse_u32(r2) {
                None => None,
                Some((seq, r3)) => match spec_parse_u32(r3) {
                    None => None,
                    Some((tid, r4)) => match spec_parse_bytes_field(r4) {
                        None => None,
                        Some((sn, r5)) => match spec_parse_bytes_field(r5) {
                            None => None,
                            Some((to, r6)) => match spec_parse_bytes_field(r6) {
                                None => None,
                                Some((from, r7)) => Some(
                                    (
                                        CallHead {
                                            protocol_version: pv,
                                            stack_version: sv,
                                            seq,
                                            tunnel_id: tid,
                                            sn_peer_id: sn,
                                            to_peer_id: to,
                                            from_peer_id: from,
                                        },
                                        r7,
                                    ),
                                ),
                            },
                        },
                    },
                },
            },
        },
    }
}

pub struct CallTail {
    pub reverse_endpoint_array: Option<Seq<Endpoint>>,
    pub active_pn_list: Option<Seq<Seq<u8>>>,
    pub peer_info: Option<Seq<u8>>,
    pub send_time: u64,
    pub call_type: TunnelType,
    pub payload: Seq<u8>,
    pub is_always_call: bool,
}

#[verifier::opaque]
pub open spec fn spec_parse_call_tail(b: Seq<u8>) -> Option<(CallTail, Seq<u8>)> {
    match spec_parse_opt_endpoint_list(b) {
        None => None,
        Some((rev, r1)) => match spec_parse_opt_bytes_list(r1) {
            None => None,
            Some((active, r2)) => match spec_parse_opt_bytes_field(r2) {
                None => None,
                Some((info, r3)) => match spec_parse_u64(r3) {
                    None => None,
                    Some((time, r4)) => match spec_parse_u8(r4) {
                        None => None,
                        Some((tt, r5)) => match spec_parse_bytes_field(r5) {
                            None => None,
                            Some((payload, r6)) => match spec_parse_bool(r6) {
                                None => None,
                                Some((always, r7)) => match spec_tunnel_type_of(tt) {
                                    None => None,
                                    Some(ty) => Some(
                                        (
                                            CallTail {
                                                reverse_endpoint_array: rev,
                                                active_pn_list: active,
                                                peer_info: info,
                                                send_time: time,
                                                call_type: ty,
                                                payload,
                                                is_always_call: always,
                                            },
                                            r7,
                                        ),
                                    ),
                                },
                            },
                        },
                    },
                },
            },
        },
    }
}

/// What `supported_nat_context` keeps of a context.
pub open spec fn spec_supported_context(c: Option<NatTraversalContext>) -> Option<NatTraversalContext> {
    match c {
        Some(x) => if x.version == crate::nat_type::NAT_TRAVERSAL_CONTEXT_VERSION
            && x.caller_profile.spec_is_supported() && x.callee_profile.spec_is_supported() {
            Some(x)
        } else {
            None
        },
        None => None,
    }
}

/// The NAT traversal context the call's extension in `b` carries, if it is
/// there, of the current envelope version and fills its payload exactly.
pub open spec fn spec_call_context(b: Seq<u8>) -> Option<NatTraversalContext> {
    match spec_extension_decode(b, SN_CALL_EXTENSION_MAGIC) {
        ExtensionFrame::Payload { start, end } => match spec_parse_context(
            b.subrange(start as int, end as int),
        ) {
            Some((c, rr)) => if rr.len() == 0 {
                Some(c)
            } else {
                None
            },
            None => None,
        },
        _ => None,
    }
}

/// A call read from the start of `b`: its legacy fields, then the call's
/// extension, whose context is kept only when supported; and what follows.
pub open spec fn spec_parse_sn_call(b: Seq<u8>) -> Option<(SnCallView, Seq<u8>)> {
    match spec_parse_call_head(b) {
        None => None,
        Some((h, r1)) => match spec_parse_call_tail(r1) {
            None => None,
            Some((t, r2)) => Some(
                (
                    SnCallView {
                        protocol_version: h.protocol_version,
                        stack_version: h.stack_version,
                        seq: Sequence(h.seq),
                        tunnel_id: TunnelId(h.tunnel_id),
                        sn_peer_id: h.sn_peer_id,
                        to_peer_id: h.to_peer_id,
                        from_peer_id: h.from_peer_id,
                        reverse_endpoint_array: t.reverse_endpoint_array,
                        active_pn_list: t.active_pn_list,
                        peer_info: t.peer_info,
                        send_time: t.send_time,
                        call_type: t.call_type,
                        payload: t.payload,
                        is_always_call: t.is_always_call,
                        nat_context: spec_supported_context(spec_call_context(r2)),
                    },
                    r2.skip(spec_extension_decode(r2, SN_CALL_EXTENSION_MAGIC).spec_rest() as int),
                ),
            ),
        },
    }
}

/// A call whose ids, lists, certificate and payload are short enough to be
/// read back.
pub open spec fn spec_call_readable(m: SnCallView) -> bool {
    &&& m.sn_peer_id.len() <= MAX_LIST_LEN
    &&& m.to_peer_id.len() <= MAX_LIST_LEN
    &&& m.from_peer_id.len() <= MAX_LIST_LEN
    &&& m.reverse_endpoint_array matches Some(s) ==> s.len() <= MAX_LIST_LEN
    &&& m.active_pn_list matches Some(s) ==> s.len() <= MAX_LIST_LEN && spec_items_readable(s)
    &&& m.peer_info matches Some(s) ==> s.len() <= MAX_LIST_LEN
    &&& m.payload.len() <= MAX_LIST_LEN
}

proof fn lemma_call_head_roundtrip(m: SnCallView, rest: Seq<u8>)
    requires
        spec_call_readable(m),
    ensures
        spec_parse_call_head(spec_call_head_bytes(m) + rest) == Some(
            (
                CallHead {
                    protocol_version: m.protocol_version,
                    stack_version: m.stack_version,
                    seq: m.seq.0,
                    tunnel_id: m.tunnel_id.0,
                    sn_peer_id: m.sn_peer_id,
                    to_peer_id: m.to_peer_id,
                    from_peer_id: m.from_peer_id,
                },
                rest,
            ),
        ),
{
    reveal(spec_call_head_bytes);
    reveal(spec_parse_call_head);
    let r7 = rest;
    let r6 = spec_bytes_field(m.from_peer_id) + r7;
    let r5 = spec_bytes_field(m.to_peer_id) + r6;
    let r4 = spec_bytes_field(m.sn_peer_id) + r5;
    let r3 = spec_be32(m.tunnel_id.0) + r4;
    let r2 = spec_be32(m.seq.0) + r3;
    let r1 = spec_be32(m.stack_version) + r2;
    let b = seq![m.protocol_version] + r1;
    assert(spec_call_head_bytes(m) + rest =~= b);
    lemma_u8_roundtrip(m.protocol_version, r1);
    lemma_u32_roundtrip(m.stack_version, r2);
    lemma_u32_roundtrip(m.seq.0, r3);
    lemma_u32_roundtrip(m.tunnel_id.0, r4);
    lemma_bytes_field_roundtrip(m.sn_peer_id, r5);
    lemma_bytes_field_roundtrip(m.to_peer_id, r6);
    lemma_bytes_field_roundtrip(m.from_peer_id, r7);
}

proof fn lemma_call_tail_roundtrip(m: SnCallView, rest: Seq<u8>)
    requires
        spec_call_readable(m),
    ensures
        spec_parse_call_tail(spec_call_tail_bytes(m) + rest) == Some(
            (
                CallTail {
                    reverse_endpoint_array: m.reverse_endpoint_array,
                    active_pn_list: m.active_pn_list,
                    peer_info: m.peer_info,
                    send_time: m.send_time,
                    call_type: m.call_type,
                    payload: m.payload,
                    is_always_call: m.is_always_call,
                },
                rest,
            ),
        ),
{
    reveal(spec_call_tail_bytes);
    reveal(spec_parse_call_tail);
    let tt = spec_tunnel_type_tag(m.call_type);
    let r7 = rest;
    let r6 = spec_bool_bytes(m.is_always_call) + r7;
    let r5 = spec_bytes_field(m.payload) + r6;
    let r4 = seq![tt] + r5;
    let r3 = spec_be64(m.send_time) + r4;
    let r2 = spec_opt_bytes_field(m.peer_info) + r3;
    let r1 = spec_opt_bytes_list(m.active_pn_list) + r2;
    let b = spec_opt_endpoint_list_bytes(m.reverse_endpoint_array) + r1;
    assert(spec_call_tail_bytes(m) + rest =~= b);
    lemma_opt_endpoint_list_roundtrip(m.reverse_endpoint_array, r1);
    lemma_opt_bytes_list_roundtrip(m.active_pn_list, r2);
    lemma_opt_bytes_field_roundtrip(m.peer_info, r3);
    lemma_u64_roundtrip(m.send_time, r4);
    lemma_u8_roundtrip(tt, r5);
    lemma_bytes_field_roundtrip(m.payload, r6);
    lemma_bool_roundtrip(m.is_always_call, r7);
    assert(spec_tunnel_type_of(tt) == Some(m.call_type));
}

/// A call reads back from its own bytes, its NAT traversal context kept
/// when supported and dropped otherwise, with nothing left over.
pub proof fn lemma_sn_call_roundtrip(m: SnCallView)
    requires
        spec_call_readable(m),
    ensures
        spec_parse_sn_call(spec_sn_call_bytes(m)) == Some(
            (SnCallView { nat_context: spec_supported_context(m.nat_context), ..m }, Seq::<u8>::empty()),
        ),
{
    let ext = match m.nat_context {
        Some(c) => spec_extension_bytes(spec_context_bytes(c), SN_CALL_EXTENSION_MAGIC),
        None => Seq::<u8>::empty(),
    };
    let t = spec_call_tail_bytes(m);
    let h = spec_call_head_bytes(m);
    assert(spec_sn_call_bytes(m) =~= h + (t + ext));
    lemma_call_head_roundtrip(m, t + ext);
    lemma_call_tail_roundtrip(m, ext);
    match m.nat_context {
        Some(c) => {
            let payload = spec_context_bytes(c);
            lemma_context_roundtrip(c, Seq::empty());
            assert(payload + Seq::<u8>::empty() =~= payload);
            lemma_extension_roundtrip(payload, SN_CALL_EXTENSION_MAGIC, Seq::empty());
            assert(ext + Seq::<u8>::empty() =~= ext);
            assert(spec_call_context(ext) == Some(c));
            assert(ext.skip(ext.len() as int) =~= Seq::<u8>::empty());
        },
        None => {
            assert(spec_extension_decode(ext, SN_CALL_EXTENSION_MAGIC) == ExtensionFrame::Absent);
            assert(ext.skip(0) =~= ext);
        },
    }
}

fn tunnel_type_tag(t: TunnelType) -> (r: u8)
    ensures
        r == spec_tunnel_type_tag(t),
{
    match t {
        TunnelType::Datagram => 0,
        TunnelType::Stream => 1,
    }
}

/// The NAT traversal context in the call extension at the start of `buf`,
/// and where the bytes after the extension start.
fn decode_call_context(buf: &[u8]) -> (r: (Option<NatTraversalContext>, usize))
    ensures
        r.0 == spec_call_context(buf@),
        r.1 == spec_extension_decode(buf@, SN_CALL_EXTENSION_MAGIC).spec_rest(),
        r.1 <= buf@.len(),
{
    let frame = extension_decode(buf, SN_CALL_EXTENSION_MAGIC);
    assert(buf@.len() == buf.len());
    proof {
        crate::sn::protocol::extension::lemma_extension_decode_bounds(buf@, SN_CALL_EXTENSION_MAGIC);
    }
    let ctx = match frame {
        ExtensionFrame::Payload { start, end } => {
            let part = &buf[start..end];
            match decode_context(part) {
                Some((c, n)) => {
                    if n == end - start {
                        proof {
                            assert(part@.skip(n as int) =~= Seq::<u8>::empty());
                        }
                        Some(c)
                    } else {
                        None
                    }
                },
                None => None,
            }
        },
        _ => None,
    };
    (ctx, frame.rest())
}

fn append_call_head(out: &mut Vec<u8>, m: &SnCall)
    requires
        m.sn_peer_id@.len() <= VARSIZE_MAX,
        m.to_peer_id@.len() <= VARSIZE_MAX,
        m.from_peer_id@.len() <= VARSIZE_MAX,
    ensures
        final(out)@ == old(out)@ + spec_call_head_bytes(m@),
{
    reveal(spec_call_head_bytes);
    let pv = encode_u8(m.protocol_version);
    append_bytes(out, pv.as_slice());
    let sv = encode_u32(m.stack_version);
    append_bytes(out, sv.as_slice());
    let seq = encode_u32(m.seq.0);
    append_bytes(out, seq.as_slice());
    let tid = encode_u32(m.tunnel_id.0);
    append_bytes(out, tid.as_slice());
    append_bytes_field(out, m.sn_peer_id.0.as_slice());
    append_bytes_field(out, m.to_peer_id.0.as_slice());
    append_bytes_field(out, m.from_peer_id.0.as_slice());
    assert(final(out)@ =~= old(out)@ + spec_call_head_bytes(m@));
}

fn append_call_lists(out: &mut Vec<u8>, m: &SnCall)
    requires
        m.reverse_endpoint_array matches Some(s) ==> s@.len() <= VARSIZE_MAX,
        m.active_pn_list matches Some(s) ==> s@.len() <= VARSIZE_MAX && forall|i: int|
            0 <= i < s@.len() ==> #[trigger] s@[i]@.len() <= VARSIZE_MAX,
        m.peer_info matches Some(s) ==> s@.len() <= VARSIZE_MAX,
    ensures
        final(out)@ == old(out)@ + spec_call_tail_lists(m@),
{
    let ghost v = m@;
    let ghost o0 = out@;
    append_opt_endpoint_list(out, &m.reverse_endpoint_array);
    let ghost o1 = out@;
    append_opt_id_list(out, &m.active_pn_list);
    let ghost o2 = out@;
    append_opt_bytes_field(out, &m.peer_info);
    proof {
        let a = spec_opt_endpoint_list_bytes(v.reverse_endpoint_array);
        let b = spec_opt_bytes_list(v.active_pn_list);
        let c = spec_opt_bytes_field(v.peer_info);
        assert(o1 == o0 + a);
        assert(o2 == o1 + b);
        assert(out@ == o2 + c);
        assert(out@ =~= o0 + (a + b + c));
    }
}

fn append_call_rest(out: &mut Vec<u8>, m: &SnCall)
    requires
        m.payload@.len() <= VARSIZE_MAX,
    ensures
        final(out)@ == old(out)@ + spec_call_tail_rest(m@),
{
    let time = encode_u64(m.send_time);
    append_bytes(out, time.as_slice());
    let tt = encode_u8(tunnel_type_tag(m.call_type));
    append_bytes(out, tt.as_slice());
    append_bytes_field(out, m.payload.as_slice());
    let always = encode_bool(m.is_always_call);
    append_bytes(out, always.as_slice());
    assert(final(out)@ =~= old(out)@ + spec_call_tail_rest(m@));
}

fn append_call_tail(out: &mut Vec<u8>, m: &SnCall)
    requires
        m.reverse_endpoint_array matches Some(s) ==> s@.len() <= VARSIZE_MAX,
        m.active_pn_list matches Some(s) ==> s@.len() <= VARSIZE_MAX && forall|i: int|
            0 <= i < s@.len() ==> #[trigger] s@[i]@.len() <= VARSIZE_MAX,
        m.peer_info matches Some(s) ==> s@.len() <= VARSIZE_MAX,
        m.payload@.len() <= VARSIZE_MAX,
    ensures
        final(out)@ == old(out)@ + spec_call_tail_bytes(m@),
{
    reveal(spec_call_tail_bytes);
    append_call_lists(out, m);
    append_call_rest(out, m);
    assert(final(out)@ =~= old(out)@ + spec_call_tail_bytes(m@));
}

impl SnCall {
    /// The bytes of this call.
    #[verifier::rlimit(50)]
    pub fn to_vec(&self) -> (r: P2pResult<Vec<u8>>)
        requires
            self.sn_peer_id@.len() <= VARSIZE_MAX,
            self.to_peer_id@.len() <= VARSIZE_MAX,
            self.from_peer_id@.len() <= VARSIZE_MAX,
            self.reverse_endpoint_array matches Some(s) ==> s@.len() <= VARSIZE_MAX,
            self.active_pn_list matches Some(s) ==> s@.len() <= VARSIZE_MAX && forall|i: int|
                0 <= i < s@.len() ==> #[trigger] s@[i]@.len() <= VARSIZE_MAX,
            self.peer_info matches Some(s) ==> s@.len() <= VARSIZE_MAX,
            self.payload@.len() <= VARSIZE_MAX,
        ensures
            r matches Ok(v) && v@ == spec_sn_call_bytes(self@),
    {
        let mut out: Vec<u8> = Vec::new();
        append_call_head(&mut out, self);
        append_call_tail(&mut out, self);
        let ghost legacy = out@;
        assert(legacy =~= spec_call_head_bytes(self@) + spec_call_tail_bytes(self@));
        match &self.nat_context {
            Some(c) => {
                let payload = encode_context(c);
                proof {
                    lemma_context_roundtrip(*c, Seq::empty());
                }
                match extension_encode(Some(payload.as_slice()), SN_CALL_EXTENSION_MAGIC, &mut out) {
                    Ok(()) => {},
                    Err(e) => {
                        return Err(e);
                    },
                }
            },
            None => {},
        }
        assert(out@ =~= spec_sn_call_bytes(self@));
        Ok(out)
    }

    /// The call read from the start of `buf`; bytes that do not start with
    /// one are a codec error, and bytes after it are ignored.
    pub fn clone_from_slice(buf: &[u8]) -> (r: P2pResult<SnCall>)
        ensures
            spec_parse_sn_call(buf@) is None ==> r == Err::<SnCall, P2pError>(
                P2pError { code: P2pErrorCode::RawCodecError },
            ),
            spec_parse_sn_call(buf@) matches Some((m, rest)) ==> (r matches Ok(x) && x@ == m),
    {
        match decode_sn_call(buf) {
            None => Err(P2pError::new(P2pErrorCode::RawCodecError)),
            Some((m, _)) => Ok(m),
        }
    }
}

type CallHeadFields = (u8, u32, u32, u32, Vec<u8>, Vec<u8>, Vec<u8>);

fn decode_call_head(buf: &[u8]) -> (r: Option<(CallHeadFields, usize)>)
    ensures
        match spec_parse_call_head(buf@) {
            None => r is None,
            Some((h, rest)) => r matches Some((f, n)) && f.0 == h.protocol_version && f.1
                == h.stack_version && f.2 == h.seq && f.3 == h.tunnel_id && f.4@ == h.sn_peer_id
                && f.5@ == h.to_peer_id && f.6@ == h.from_peer_id && n <= buf@.len() && rest
                == buf@.skip(n as int),
        },
{
    reveal(spec_parse_call_head);
    let ghost b = buf@;
    let (pv, n) = match decode_u8_field(buf) {
        Some(p) => p,
        None => {
            return None;
        },
    };
    let mut pos: usize = n;
    let s = &buf[pos..buf.len()];
    assert(s@ =~= b.skip(pos as int));
    let (sv, n) = match decode_u32_field(s) {
        Some(p) => p,
        None => {
            return None;
        },
    };
    assert(b.skip(pos as int).skip(n as int) =~= b.skip(pos + n));
    pos = pos + n;
    let s = &buf[pos..buf.len()];
    assert(s@ =~= b.skip(pos as int));
    let (seq, n) = match decode_u32_field(s) {
        Some(p) => p,
        None => {
            return None;
        },
    };
    assert(b.skip(pos as int).skip(n as int) =~= b.skip(pos + n));
    pos = pos + n;
    let s = &buf[pos..buf.len()];
    assert(s@ =~= b.skip(pos as int));
    let (tid, n) = match decode_u32_field(s) {
        Some(p) => p,
        None => {
            return None;
        },
    };
    assert(b.skip(pos as int).skip(n as int) =~= b.skip(pos + n));
    pos = pos + n;
    let s = &buf[pos..buf.len()];
    assert(s@ =~= b.skip(pos as int));
    let (sn, n) = match decode_bytes_field(s) {
        Some(p) => p,
        None => {
            return None;
        },
    };
    assert(b.skip(pos as int).skip(n as int) =~= b.skip(pos + n));
    pos = pos + n;
    let s = &buf[pos..buf.len()];
    assert(s@ =~= b.skip(pos as int));
    let (to, n) = match decode_bytes_field(s) {
        Some(p) => p,
        None => {
            return None;
        },
    };
    assert(b.skip(pos as int).skip(n as int) =~= b.skip(pos + n));
    pos = pos + n;
    let s = &buf[pos..buf.len()];
    assert(s@ =~= b.skip(pos as int));
    let (from, n) = match decode_bytes_field(s) {
        Some(p) => p,
        None => {
            return None;
        },
    };
    assert(b.skip(pos as int).skip(n as int) =~= b.skip(pos + n));
    pos = pos + n;
    Some(((pv, sv, seq, tid, sn, to, from), pos))
}

type CallTailFields = (Option<Vec<Endpoint>>, Option<Vec<P2pId>>, Option<Vec<u8>>, u64, TunnelType, Vec<u8>, bool);

#[verifier::rlimit(30)]
fn decode_call_tail(buf: &[u8]) -> (r: Option<(CallTailFields, usize)>)
    ensures
        match spec_parse_call_tail(buf@) {
            None => r is None,
            Some((t, rest)) => r matches Some((f, n)) && (match f.0 {
                Some(v) => Some(v@),
                None => None,
            }) == t.reverse_endpoint_array && (match f.1 {
                Some(v) => Some(spec_id_items(v@)),
                None => None,
            }) == t.active_pn_list && (match f.2 {
                Some(v) => Some(v@),
                None => None,
            }) == t.peer_info && f.3 == t.send_time && f.4 == t.call_type && f.5@ == t.payload
                && f.6 == t.is_always_call && n <= buf@.len() && rest == buf@.skip(n as int),
        },
{
    reveal(spec_parse_call_tail);
    let ghost b = buf@;
    let mut pos: usize = 0;
    assert(b.skip(0) =~= b);
    let s = &buf[pos..buf.len()];
    assert(s@ =~= b.skip(pos as int));
    let (rev, n) = match decode_opt_endpoint_list(s) {
        Some(p) => p,
        None => {
            return None;
        },
    };
    assert(b.skip(pos as int).skip(n as int) =~= b.skip(pos + n));
    pos = pos + n;
    let s = &buf[pos..buf.len()];
    assert(s@ =~= b.skip(pos as int));
    let (active, n) = match decode_opt_id_list(s) {
        Some(p) => p,
        None => {
            return None;
        },
    };
    assert(b.skip(pos as int).skip(n as int) =~= b.skip(pos + n));
    pos = pos + n;
    let s = &buf[pos..buf.len()];
    assert(s@ =~= b.skip(pos as int));
    let (info, n) = match decode_opt_bytes_field(s) {
        Some(p) => p,
        None => {
            return None;
        },
    };
    assert(b.skip(pos as int).skip(n as int) =~= b.skip(pos + n));
    pos = pos + n;
    let s = &buf[pos..buf.len()];
    assert(s@ =~= b.skip(pos as int));
    let (time, n) = match decode_u64_field(s) {
        Some(p) => p,
        None => {
            return None;
        },
    };
    assert(b.skip(pos as int).skip(n as int) =~= b.skip(pos + n));
    pos = pos + n;
    let s = &buf[pos..buf.len()];
    assert(s@ =~= b.skip(pos as int));
    let (tt, n) = match decode_u8_field(s) {
        Some(p) => p,
        None => {
            return None;
        },
    };
    assert(b.skip(pos as int).skip(n as int) =~= b.skip(pos + n));
    pos = pos + n;
    let s = &buf[pos..buf.len()];
    assert(s@ =~= b.skip(pos as int));
    let (payload, n) = match decode_bytes_field(s) {
        Some(p) => p,
        None => {
            return None;
        },
    };
    assert(b.skip(pos as int).skip(n as int) =~= b.skip(pos + n));
    pos = pos + n;
    let s = &buf[pos..buf.len()];
    assert(s@ =~= b.skip(pos as int));
    let (always, n) = match decode_bool(s) {
        Some(p) => p,
        None => {
            return None;
        },
    };
    assert(b.skip(pos as int).skip(n as int) =~= b.skip(pos + n));
    pos = pos + n;
    let call_type = if tt == 0 {
        TunnelType::Datagram
    } else if tt == 1 {
        TunnelType::Stream
    } else {
        return None;
    };
    Some(((rev, active, info, time, call_type, payload, always), pos))
}

/// A call read from the start of `buf`, and how many bytes it took.
pub fn decode_sn_call(buf: &[u8]) -> (r: Option<(SnCall, usize)>)
    ensures
        match spec_parse_sn_call(buf@) {
            None => r is None,
            Some((v, rest)) => r matches Some((x, n)) && x@ == v && n <= buf@.len() && rest
                == buf@.skip(n as int),
        },
{
    let ghost b = buf@;
    let (h, n1) = match decode_call_head(buf) {
        Some(p) => p,
        None => {
            return None;
        },
    };
    let s1 = &buf[n1..buf.len()];
    assert(s1@ =~= b.skip(n1 as int));
    let (t, n2) = match decode_call_tail(s1) {
        Some(p) => p,
        None => {
            return None;
        },
    };
    assert(b.skip(n1 as int).skip(n2 as int) =~= b.skip(n1 + n2));
    let pos = n1 + n2;
    let s2 = &buf[pos..buf.len()];
    assert(s2@ =~= b.skip(pos as int));
    let (ctx, n3) = decode_call_context(s2);
    assert(b.skip(pos as int).skip(n3 as int) =~= b.skip(pos + n3));
    let (pv, sv, seq, tid, sn, to, from) = h;
    let (rev, active, info, time, call_type, payload, always) = t;
    let m = SnCall {
        protocol_version: pv,
        stack_version: sv,
        seq: Sequence(seq),
        tunnel_id: TunnelId(tid),
        sn_peer_id: P2pId(sn),
        to_peer_id: P2pId(to),
        from_peer_id: P2pId(from),
        reverse_endpoint_array: rev,
        active_pn_list: active,
        peer_info: info,
        send_time: time,
        call_type,
        payload,
        is_always_call: always,
        nat_context: supported_nat_context(ctx),
    };
    Some((m, pos + n3))
}

} // verus!
