use vstd::prelude::*;
use crate::codec::{append_bytes, encode_u32, encode_u8, spec_be32};
use crate::endpoint::Endpoint;
use crate::sn::protocol::sn::{
    SnTunnelRendezvous, SnTunnelRendezvousNotify, SnTunnelRendezvousNotifyView,
    SnTunnelRendezvousOperation, SnTunnelRendezvousResp, SnTunnelRendezvousRespView,
    SnTunnelRendezvousView,
};
use crate::sn::protocol::wire::{
    decode_u8_field, append_bytes_field, append_endpoint_list, decode_bool, decode_bytes_field,
    decode_endpoint_list, decode_u32_field, encode_bool, lemma_bool_roundtrip,
    lemma_bytes_field_roundtrip, lemma_endpoint_list_roundtrip, lemma_u32_roundtrip,
    lemma_u8_roundtrip, spec_bool_bytes, spec_bytes_field, spec_endpoint_list_bytes,
    spec_parse_bool, spec_parse_bytes_field, spec_parse_endpoint_list, spec_parse_u32,
    spec_parse_u8, MAX_LIST_LEN, VARSIZE_MAX,
};
use crate::types::{P2pId, Sequence, TunnelId};

verus! {

pub open spec fn spec_operation_tag(op: SnTunnelRendezvousOperation) -> u8 {
    match op {
        SnTunnelRendezvousOperation::PunchOnly => 0,
        SnTunnelRendezvousOperation::PunchAndReverseConnect => 1,
        SnTunnelRendezvousOperation::ReverseConnectOnly => 2,
        SnTunnelRendezvousOperation::WaitIncoming => 3,
    }
}

pub open spec fn spec_operation_of(t: u8) -> Option<SnTunnelRendezvousOperation> {
    if t == 0 {
        Some(SnTunnelRendezvousOperation::PunchOnly)
    } else if t == 1 {
        Some(SnTunnelRendezvousOperation::PunchAndReverseConnect)
    } else if t == 2 {
        Some(SnTunnelRendezvousOperation::ReverseConnectOnly)
    } else if t == 3 {
        Some(SnTunnelRendezvousOperation::WaitIncoming)
    } else {
        None
    }
}

/// An operation read from the start of `b`: one byte, its index.
pub open spec fn spec_parse_operation(b: Seq<u8>) -> Option<(SnTunnelRendezvousOperation, Seq<u8>)> {
    match spec_parse_u8(b) {
        None => None,
        Some((t, r)) => match spec_operation_of(t) {
            None => None,
            Some(op) => Some((op, r)),
        },
    }
}

pub proof fn lemma_operation_roundtrip(op: SnTunnelRendezvousOperation, rest: Seq<u8>)
    ensures
        spec_parse_operation(seq![spec_operation_tag(op)] + rest) == Some((op, rest)),
{
    lemma_u8_roundtrip(spec_operation_tag(op), rest);
}

fn operation_tag(op: SnTunnelRendezvousOperation) -> (r: u8)
    ensures
        r == spec_operation_tag(op),
{
    match op {
        SnTunnelRendezvousOperation::PunchOnly => 0,
        SnTunnelRendezvousOperation::PunchAndReverseConnect => 1,
        SnTunnelRendezvousOperation::ReverseConnectOnly => 2,
        SnTunnelRendezvousOperation::WaitIncoming => 3,
    }
}

fn decode_operation(buf: &[u8]) -> (r: Option<(SnTunnelRendezvousOperation, usize)>)
    ensures
        match spec_parse_operation(buf@) {
            None => r is None,
            Some((v, rest)) => r matches Some((x, n)) && x == v && n <= buf@.len() && rest
                == buf@.skip(n as int),
        },
{
    if buf.len() < 1 {
        return None;
    }
    let t = buf[0];
    let op = if t == 0 {
        SnTunnelRendezvousOperation::PunchOnly
    } else if t == 1 {
        SnTunnelRendezvousOperation::PunchAndReverseConnect
    } else if t == 2 {
        SnTunnelRendezvousOperation::ReverseConnectOnly
    } else if t == 3 {
        SnTunnelRendezvousOperation::WaitIncoming
    } else {
        return None;
    };
    Some((op, 1))
}

/// The bytes of a rendezvous request: sequence and tunnel id (four
/// big-endian bytes each), the target peer's id as a byte string, the
/// operation, the endpoint list and the prediction flag.
pub open spec fn spec_rendezvous_bytes(m: SnTunnelRendezvousView) -> Seq<u8> {
    spec_be32(m.seq.0) + spec_be32(m.tunnel_id.0) + spec_bytes_field(m.to_peer_id) + seq![
        spec_operation_tag(m.operation),
    ] + spec_endpoint_list_bytes(m.end_point_array) + spec_bool_bytes(m.need_predict_endpoint)
}

/// A rendezvous request read from the start of `b`, and what follows it.
pub open spec fn spec_parse_rendezvous(b: Seq<u8>) -> Option<(SnTunnelRendezvousView, Seq<u8>)> {
    match spec_parse_u32(b) {
        None => None,
        Some((seq, r1)) => match spec_parse_u32(r1) {
            None => None,
            Some((tid, r2)) => match spec_parse_bytes_field(r2) {
                None => None,
                Some((to, r3)) => match spec_parse_operation(r3) {
                    None => None,
                    Some((op, r4)) => match spec_parse_endpoint_list(r4) {
                        None => None,
                        Some((eps, r5)) => match spec_parse_bool(r5) {
                            None => None,
                            Some((need, r6)) => Some(
                                (
                                    SnTunnelRendezvousView {
                                        seq: Sequence(seq),
                                        tunnel_id: TunnelId(tid),
                                        to_peer_id: to,
                                        operation: op,
                                        end_point_array: eps,
                                        need_predict_endpoint: need,
                                    },
                                    r6,
                                ),
                            ),
                        },
                    },
                },
            },
        },
    }
}

/// A request whose peer id and endpoint list are short enough to be read
/// back.
pub open spec fn spec_rendezvous_readable(m: SnTunnelRendezvousView) -> bool {
    m.to_peer_id.len() <= MAX_LIST_LEN && m.end_point_array.len() <= MAX_LIST_LEN
}

/// A request reads back from its bytes, whatever follows them.
pub proof fn lemma_rendezvous_roundtrip(m: SnTunnelRendezvousView, rest: Seq<u8>)
    requires
        spec_rendezvous_readable(m),
    ensures
        spec_parse_rendezvous(spec_rendezvous_bytes(m) + rest) == Some((m, rest)),
{
    let r6 = rest;
    let r5 = spec_bool_bytes(m.need_predict_endpoint) + r6;
    let r4 = spec_endpoint_list_bytes(m.end_point_array) + r5;
    let r3 = seq![spec_operation_tag(m.operation)] + r4;
    let r2 = spec_bytes_field(m.to_peer_id) + r3;
    let r1 = spec_be32(m.tunnel_id.0) + r2;
    let b = spec_be32(m.seq.0) + r1;
    assert(spec_rendezvous_bytes(m) + rest =~= b);
    lemma_u32_roundtrip(m.seq.0, r1);
    lemma_u32_roundtrip(m.tunnel_id.0, r2);
    lemma_bytes_field_roundtrip(m.to_peer_id, r3);
    lemma_operation_roundtrip(m.operation, r4);
    lemma_endpoint_list_roundtrip(m.end_point_array, r5);
    lemma_bool_roundtrip(m.need_predict_endpoint, r6);
}

/// The bytes of `m`.
pub fn encode_rendezvous(m: &SnTunnelRendezvous) -> (r: Vec<u8>)
    requires
        m.to_peer_id@.len() <= VARSIZE_MAX,
        m.end_point_array@.len() <= VARSIZE_MAX,
    ensures
        r@ == spec_rendezvous_bytes(m@),
{
    let mut out = encode_u32(m.seq.0);
    let tid = encode_u32(m.tunnel_id.0);
    append_bytes(&mut out, tid.as_slice());
    append_bytes_field(&mut out, m.to_peer_id.0.as_slice());
    let op = encode_u8(operation_tag(m.operation));
    append_bytes(&mut out, op.as_slice());
    append_endpoint_list(&mut out, m.end_point_array.as_slice());
    let need = encode_bool(m.need_predict_endpoint);
    append_bytes(&mut out, need.as_slice());
    assert(out@ =~= spec_rendezvous_bytes(m@));
    out
}

/// A rendezvous request read from the start of `buf`, and how many bytes it
/// took.
pub fn decode_rendezvous(buf: &[u8]) -> (r: Option<(SnTunnelRendezvous, usize)>)
    ensures
        match spec_parse_rendezvous(buf@) {
            None => r is None,
            Some((v, rest)) => r matches Some((x, n)) && x@ == v && n <= buf@.len() && rest
                == buf@.skip(n as int),
        },
{
    let ghost b = buf@;
    let (seq, n1) = match decode_u32_field(buf) {
        Some(p) => p,
        None => {
            return None;
        },
    };
    let p1 = n1;
    let s1 = &buf[p1..buf.len()];
    assert(s1@ =~= b.skip(p1 as int));
    let (tid, n2) = match decode_u32_field(s1) {
        Some(p) => p,
        None => {
            return None;
        },
    };
    assert(b.skip(p1 as int).skip(n2 as int) =~= b.skip(p1 + n2));
    let p2 = p1 + n2;
    let s2 = &buf[p2..buf.len()];
    assert(s2@ =~= b.skip(p2 as int));
    let (to, n3) = match decode_bytes_field(s2) {
        Some(p) => p,
        None => {
            return None;
        },
    };
    assert(b.skip(p2 as int).skip(n3 as int) =~= b.skip(p2 + n3));
    let p3 = p2 + n3;
    let s3 = &buf[p3..buf.len()];
    assert(s3@ =~= b.skip(p3 as int));
    let (op, n4) = match decode_operation(s3) {
        Some(p) => p,
        None => {
            return None;
        },
    };
    assert(b.skip(p3 as int).skip(n4 as int) =~= b.skip(p3 + n4));
    let p4 = p3 + n4;
    let s4 = &buf[p4..buf.len()];
    assert(s4@ =~= b.skip(p4 as int));
    let (eps, n5) = match decode_endpoint_list(s4) {
        Some(p) => p,
        None => {
            return None;
        },
    };
    assert(b.skip(p4 as int).skip(n5 as int) =~= b.skip(p4 + n5));
    let p5 = p4 + n5;
    let s5 = &buf[p5..buf.len()];
    assert(s5@ =~= b.skip(p5 as int));
    let (need, n6) = match decode_bool(s5) {
        Some(p) => p,
        None => {
            return None;
        },
    };
    assert(b.skip(p5 as int).skip(n6 as int) =~= b.skip(p5 + n6));
    let p6 = p5 + n6;
    let m = SnTunnelRendezvous {
        seq: Sequence(seq),
        tunnel_id: TunnelId(tid),
        to_peer_id: P2pId(to),
        operation: op,
        end_point_array: eps,
        need_predict_endpoint: need,
    };
    Some((m, p6))
}

/// The bytes of a rendezvous notification: as a request, with the
/// initiator's certificate in place of the target's id.
pub open spec fn spec_notify_bytes(m: SnTunnelRendezvousNotifyView) -> Seq<u8> {
    spec_be32(m.seq.0) + spec_be32(m.tunnel_id.0) + spec_bytes_field(m.peer_info) + seq![
        spec_operation_tag(m.operation),
    ] + spec_endpoint_list_bytes(m.end_point_array) + spec_bool_bytes(m.need_predict_endpoint)
}

pub open spec fn spec_parse_notify(b: Seq<u8>) -> Option<(SnTunnelRendezvousNotifyView, Seq<u8>)> {
    match spec_parse_u32(b) {
        None => None,
        Some((seq, r1)) => match spec_parse_u32(r1) {
            None => None,
            Some((tid, r2)) => match spec_parse_bytes_field(r2) {
                None => None,
                Some((info, r3)) => match spec_parse_operation(r3) {
                    None => None,
                    Some((op, r4)) => match spec_parse_endpoint_list(r4) {
                        None => None,
                        Some((eps, r5)) => match spec_parse_bool(r5) {
                            None => None,
                            Some((need, r6)) => Some(
                                (
                                    SnTunnelRendezvousNotifyView {
                                        seq: Sequence(seq),
                                        tunnel_id: TunnelId(tid),
                                        peer_info: info,
                                        operation: op,
                                        end_point_array: eps,
                                        need_predict_endpoint: need,
                                    },
                                    r6,
                                ),
                            ),
                        },
                    },
                },
            },
        },
    }
}

/// A notification reads back from its bytes, whatever follows them.
pub proof fn lemma_notify_roundtrip(m: SnTunnelRendezvousNotifyView, rest: Seq<u8>)
    requires
        m.peer_info.len() <= MAX_LIST_LEN,
        m.end_point_array.len() <= MAX_LIST_LEN,
    ensures
        spec_parse_notify(spec_notify_bytes(m) + rest) == Some((m, rest)),
{
    let r6 = rest;
    let r5 = spec_bool_bytes(m.need_predict_endpoint) + r6;
    let r4 = spec_endpoint_list_bytes(m.end_point_array) + r5;
    let r3 = seq![spec_operation_tag(m.operation)] + r4;
    let r2 = spec_bytes_field(m.peer_info) + r3;
    let r1 = spec_be32(m.tunnel_id.0) + r2;
    let b = spec_be32(m.seq.0) + r1;
    assert(spec_notify_bytes(m) + rest =~= b);
    lemma_u32_roundtrip(m.seq.0, r1);
    lemma_u32_roundtrip(m.tunnel_id.0, r2);
    lemma_bytes_field_roundtrip(m.peer_info, r3);
    lemma_operation_roundtrip(m.operation, r4);
    lemma_endpoint_list_roundtrip(m.end_point_array, r5);
    lemma_bool_roundtrip(m.need_predict_endpoint, r6);
}

pub fn encode_notify(m: &SnTunnelRendezvousNotify) -> (r: Vec<u8>)
    requires
        m.peer_info@.len() <= VARSIZE_MAX,
        m.end_point_array@.len() <= VARSIZE_MAX,
    ensures
        r@ == spec_notify_bytes(m@),
{
    let mut out = encode_u32(m.seq.0);
    let tid = encode_u32(m.tunnel_id.0);
    append_bytes(&mut out, tid.as_slice());
    append_bytes_field(&mut out, m.peer_info.as_slice());
    let op = encode_u8(operation_tag(m.operation));
    append_bytes(&mut out, op.as_slice());
    append_endpoint_list(&mut out, m.end_point_array.as_slice());
    let need = encode_bool(m.need_predict_endpoint);
    append_bytes(&mut out, need.as_slice());
    assert(out@ =~= spec_notify_bytes(m@));
    out
}

pub fn decode_notify(buf: &[u8]) -> (r: Option<(SnTunnelRendezvousNotify, usize)>)
    ensures
        match spec_parse_notify(buf@) {
            None => r is None,
            Some((v, rest)) => r matches Some((x, n)) && x@ == v && n <= buf@.len() && rest
                == buf@.skip(n as int),
        },
{
    let ghost b = buf@;
    let (seq, n1) = match decode_u32_field(buf) {
        Some(p) => p,
        None => {
            return None;
        },
    };
    let p1 = n1;
    let s1 = &buf[p1..buf.len()];
    assert(s1@ =~= b.skip(p1 as int));
    let (tid, n2) = match decode_u32_field(s1) {
        Some(p) => p,
        None => {
            return None;
        },
    };
    assert(b.skip(p1 as int).skip(n2 as int) =~= b.skip(p1 + n2));
    let p2 = p1 + n2;
    let s2 = &buf[p2..buf.len()];
    assert(s2@ =~= b.skip(p2 as int));
    let (info, n3) = match decode_bytes_field(s2) {
        Some(p) => p,
        None => {
            return None;
        },
    };
    assert(b.skip(p2 as int).skip(n3 as int) =~= b.skip(p2 + n3));
    let p3 = p2 + n3;
    let s3 = &buf[p3..buf.len()];
    assert(s3@ =~= b.skip(p3 as int));
    let (op, n4) = match decode_operation(s3) {
        Some(p) => p,
        None => {
            return None;
        },
    };
    assert(b.skip(p3 as int).skip(n4 as int) =~= b.skip(p3 + n4));
    let p4 = p3 + n4;
    let s4 = &buf[p4..buf.len()];
    assert(s4@ =~= b.skip(p4 as int));
    let (eps, n5) = match decode_endpoint_list(s4) {
        Some(p) => p,
        None => {
            return None;
        },
    };
    assert(b.skip(p4 as int).skip(n5 as int) =~= b.skip(p4 + n5));
    let p5 = p4 + n5;
    let s5 = &buf[p5..buf.len()];
    assert(s5@ =~= b.skip(p5 as int));
    let (need, n6) = match decode_bool(s5) {
        Some(p) => p,
        None => {
            return None;
        },
    };
    assert(b.skip(p5 as int).skip(n6 as int) =~= b.skip(p5 + n6));
    let m = SnTunnelRendezvousNotify {
        seq: Sequence(seq),
        tunnel_id: TunnelId(tid),
        peer_info: info,
        operation: op,
        end_point_array: eps,
        need_predict_endpoint: need,
    };
    Some((m, p5 + n6))
}

/// The bytes of a rendezvous response: its sequence (four big-endian
/// bytes), its result byte and the predicted endpoint list.
pub open spec fn spec_resp_bytes(m: SnTunnelRendezvousRespView) -> Seq<u8> {
    spec_be32(m.seq.0) + seq![m.result] + spec_endpoint_list_bytes(m.predicted_endpoint_array)
}

pub open spec fn spec_parse_resp(b: Seq<u8>) -> Option<(SnTunnelRendezvousRespView, Seq<u8>)> {
    match spec_parse_u32(b) {
        None => None,
        Some((seq, r1)) => match spec_parse_u8(r1) {
            None => None,
            Some((result, r2)) => match spec_parse_endpoint_list(r2) {
                None => None,
                Some((eps, r3)) => Some(
                    (
                        SnTunnelRendezvousRespView {
                            seq: Sequence(seq),
                            result,
                            predicted_endpoint_array: eps,
                        },
                        r3,
                    ),
                ),
            },
        },
    }
}

/// A response reads back from its bytes, whatever follows them.
pub proof fn lemma_resp_roundtrip(m: SnTunnelRendezvousRespView, rest: Seq<u8>)
    requires
        m.predicted_endpoint_array.len() <= MAX_LIST_LEN,
    ensures
        spec_parse_resp(spec_resp_bytes(m) + rest) == Some((m, rest)),
{
    let r3 = rest;
    let r2 = spec_endpoint_list_bytes(m.predicted_endpoint_array) + r3;
    let r1 = seq![m.result] + r2;
    let b = spec_be32(m.seq.0) + r1;
    assert(spec_resp_bytes(m) + rest =~= b);
    lemma_u32_roundtrip(m.seq.0, r1);
    lemma_u8_roundtrip(m.result, r2);
    lemma_endpoint_list_roundtrip(m.predicted_endpoint_array, r3);
}

pub fn encode_resp(m: &SnTunnelRendezvousResp) -> (r: Vec<u8>)
    requires
        m.predicted_endpoint_array@.len() <= VARSIZE_MAX,
    ensures
        r@ == spec_resp_bytes(m@),
{
    let mut out = encode_u32(m.seq.0);
    let result = encode_u8(m.result);
    append_bytes(&mut out, result.as_slice());
    append_endpoint_list(&mut out, m.predicted_endpoint_array.as_slice());
    assert(out@ =~= spec_resp_bytes(m@));
    out
}

pub fn decode_resp(buf: &[u8]) -> (r: Option<(SnTunnelRendezvousResp, usize)>)
    ensures
        match spec_parse_resp(buf@) {
            None => r is None,
            Some((v, rest)) => r matches Some((x, n)) && x@ == v && n <= buf@.len() && rest
                == buf@.skip(n as int),
        },
{
    let ghost b = buf@;
    let (seq, n1) = match decode_u32_field(buf) {
        Some(p) => p,
        None => {
            return None;
        },
    };
    let s1 = &buf[n1..buf.len()];
    assert(s1@ =~= b.skip(n1 as int));
    let (result, n2) = match decode_u8_field(s1) {
        Some(p) => p,
        None => {
            return None;
        },
    };
    assert(b.skip(n1 as int).skip(n2 as int) =~= b.skip(n1 + n2));
    let p2 = n1 + n2;
    let s2 = &buf[p2..buf.len()];
    assert(s2@ =~= b.skip(p2 as int));
    let (eps, n3) = match decode_endpoint_list(s2) {
        Some(p) => p,
        None => {
            return None;
        },
    };
    assert(b.skip(p2 as int).skip(n3 as int) =~= b.skip(p2 + n3));
    Some((SnTunnelRendezvousResp { seq: Sequence(seq), result, predicted_endpoint_array: eps }, p2 + n3))
}

/// What `clone_from_slice` reads of a request's own bytes: the request,
/// with nothing left over; followed by more bytes, the request with those
/// bytes left over, which `clone_from_slice` refuses as invalid data.
pub proof fn lemma_rendezvous_bytes_read_back(m: SnTunnelRendezvousView, extra: Seq<u8>)
    requires
        spec_rendezvous_readable(m),
    ensures
        spec_parse_rendezvous(spec_rendezvous_bytes(m)) == Some((m, Seq::<u8>::empty())),
        spec_parse_rendezvous(spec_rendezvous_bytes(m) + extra) == Some((m, extra)),
{
    lemma_rendezvous_roundtrip(m, Seq::empty());
    assert(spec_rendezvous_bytes(m) + Seq::<u8>::empty() =~= spec_rendezvous_bytes(m));
    lemma_rendezvous_roundtrip(m, extra);
}

/// The same for a notification.
pub proof fn lemma_notify_bytes_read_back(m: SnTunnelRendezvousNotifyView, extra: Seq<u8>)
    requires
        m.peer_info.len() <= MAX_LIST_LEN,
        m.end_point_array.len() <= MAX_LIST_LEN,
    ensures
        spec_parse_notify(spec_notify_bytes(m)) == Some((m, Seq::<u8>::empty())),
        spec_parse_notify(spec_notify_bytes(m) + extra) == Some((m, extra)),
{
    lemma_notify_roundtrip(m, Seq::empty());
    assert(spec_notify_bytes(m) + Seq::<u8>::empty() =~= spec_notify_bytes(m));
    lemma_notify_roundtrip(m, extra);
}

/// The same for a response.
pub proof fn lemma_resp_bytes_read_back(m: SnTunnelRendezvousRespView, extra: Seq<u8>)
    requires
        m.predicted_endpoint_array.len() <= MAX_LIST_LEN,
    ensures
        spec_parse_resp(spec_resp_bytes(m)) == Some((m, Seq::<u8>::empty())),
        spec_parse_resp(spec_resp_bytes(m) + extra) == Some((m, extra)),
{
    lemma_resp_roundtrip(m, Seq::empty());
    assert(spec_resp_bytes(m) + Seq::<u8>::empty() =~= spec_resp_bytes(m));
    lemma_resp_roundtrip(m, extra);
}

} // verus!
