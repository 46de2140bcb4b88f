use p2p_frame::endpoint::{Endpoint, Protocol, SocketAddr};
use p2p_frame::error::P2pErrorCode;
use p2p_frame::nat_type::{NatMappingObservation, NatProfile, NatTraversalContext};
use p2p_frame::sn::protocol::message::SnCall;
use p2p_frame::sn::protocol::v0::{SnCallResp, SnCalled, SnCalledResp, TunnelType};
use p2p_frame::types::{P2pId, Sequence, TunnelId};

fn id(seed: u8) -> P2pId {
    P2pId::from_bytes(vec![seed; 4])
}

fn profile(version: u8) -> NatProfile {
    NatProfile { version, observation: NatMappingObservation::AddressDependent, valid_until: 0x0102 }
}

fn call(nat_context: Option<NatTraversalContext>) -> SnCall {
    SnCall {
        protocol_version: 1,
        stack_version: 2,
        seq: Sequence(3),
        tunnel_id: TunnelId(4),
        sn_peer_id: id(9),
        to_peer_id: id(2),
        from_peer_id: id(1),
        reverse_endpoint_array: Some(vec![Endpoint::new(Protocol::Quic, SocketAddr::v4(1, 2, 3, 4, 5))]),
        active_pn_list: Some(vec![id(7), id(8)]),
        peer_info: Some(vec![0xCE]),
        send_time: 5_000,
        call_type: TunnelType::Stream,
        payload: vec![1, 2, 3],
        is_always_call: true,
        nat_context,
    }
}

fn same_call(a: &SnCall, b: &SnCall) -> bool {
    a.protocol_version == b.protocol_version
        && a.stack_version == b.stack_version
        && a.seq == b.seq
        && a.tunnel_id == b.tunnel_id
        && a.sn_peer_id.same_as(&b.sn_peer_id)
        && a.to_peer_id.same_as(&b.to_peer_id)
        && a.from_peer_id.same_as(&b.from_peer_id)
        && a.reverse_endpoint_array == b.reverse_endpoint_array
        && a.active_pn_list.as_ref().map(|l| l.len()) == b.active_pn_list.as_ref().map(|l| l.len())
        && a.peer_info == b.peer_info
        && a.send_time == b.send_time
        && a.call_type == b.call_type
        && a.payload == b.payload
        && a.is_always_call == b.is_always_call
        && a.nat_context == b.nat_context
}

#[test]
fn sn_call_reads_back_from_its_bytes() {
    let c = call(None);
    let bytes = c.to_vec().unwrap();
    let back = SnCall::clone_from_slice(&bytes).unwrap();
    assert!(same_call(&c, &back));
    let ids = back.active_pn_list.unwrap();
    assert!(ids[0].same_as(&id(7)) && ids[1].same_as(&id(8)));
}

#[test]
fn sn_call_keeps_a_supported_nat_context() {
    let ctx = NatTraversalContext { version: 1, caller_profile: profile(1), callee_profile: profile(1) };
    let c = call(Some(ctx));
    let plain = call(None).to_vec().unwrap();
    let bytes = c.to_vec().unwrap();
    // The context travels in a 9-byte extension header and 21 payload bytes.
    assert_eq!(bytes.len(), plain.len() + 9 + 21);
    let back = SnCall::clone_from_slice(&bytes).unwrap();
    assert_eq!(back.nat_context, Some(ctx));
}

#[test]
fn sn_call_drops_an_unsupported_nat_context() {
    let ctx = NatTraversalContext { version: 1, caller_profile: profile(2), callee_profile: profile(1) };
    let back = SnCall::clone_from_slice(&call(Some(ctx)).to_vec().unwrap()).unwrap();
    assert_eq!(back.nat_context, None);
}

#[test]
fn sn_call_leading_bytes_follow_the_field_layout() {
    let bytes = call(None).to_vec().unwrap();
    assert_eq!(&bytes[..13], &[1, 0, 0, 0, 2, 0, 0, 0, 3, 0, 0, 0, 4]);
    assert_eq!(&bytes[13..18], &[4, 9, 9, 9, 9]);
}

#[test]
fn truncated_sn_call_is_a_codec_error() {
    let bytes = call(None).to_vec().unwrap();
    match SnCall::clone_from_slice(&bytes[..bytes.len() - 1]) {
        Err(err) => assert_eq!(err.code(), P2pErrorCode::RawCodecError),
        Ok(_) => panic!("a truncated call was read"),
    }
}

#[test]
fn call_responses_read_back() {
    let resp = SnCallResp { seq: Sequence(3), sn_peer_id: id(9), result: 0, to_peer_info: Some(vec![2, 0xCE]) };
    let back = SnCallResp::clone_from_slice(&resp.to_vec()).unwrap();
    assert_eq!(back.seq, Sequence(3));
    assert!(back.sn_peer_id.same_as(&id(9)));
    assert_eq!(back.to_peer_info, Some(vec![2, 0xCE]));
    assert_eq!(resp.to_vec(), vec![0, 0, 0, 3, 4, 9, 9, 9, 9, 0, 1, 2, 2, 0xCE]);

    let called = SnCalledResp { seq: Sequence(6), sn_peer_id: id(9), result: 1 };
    let mut bytes = called.to_vec();
    bytes.push(0xFF);
    let back = SnCalledResp::clone_from_slice(&bytes).unwrap();
    assert_eq!(back.seq, Sequence(6));
    assert_eq!(back.result, 1);
}

fn called(nat_context: Option<NatTraversalContext>) -> SnCalled {
    SnCalled {
        seq: Sequence(3),
        sn_peer_id: id(9),
        to_peer_id: id(2),
        reverse_endpoint_array: vec![Endpoint::new(Protocol::Quic, SocketAddr::v4(1, 2, 3, 4, 5))],
        active_pn_list: vec![id(7)],
        peer_info: vec![0xCE],
        tunnel_id: TunnelId(4),
        call_send_time: 5_000,
        call_type: TunnelType::Datagram,
        payload: vec![1, 2, 3],
        nat_context,
    }
}

#[test]
fn sn_called_reads_back_from_its_bytes() {
    let c = called(None);
    let back = SnCalled::clone_from_slice(&c.to_vec().unwrap()).unwrap();
    assert_eq!(back.seq, Sequence(3));
    assert!(back.sn_peer_id.same_as(&id(9)) && back.to_peer_id.same_as(&id(2)));
    assert_eq!(back.reverse_endpoint_array, c.reverse_endpoint_array);
    assert_eq!(back.active_pn_list.len(), 1);
    assert!(back.active_pn_list[0].same_as(&id(7)));
    assert_eq!(back.peer_info, vec![0xCE]);
    assert_eq!(back.tunnel_id, TunnelId(4));
    assert_eq!(back.call_send_time, 5_000);
    assert_eq!(back.call_type, TunnelType::Datagram);
    assert_eq!(back.payload, vec![1, 2, 3]);
    assert_eq!(back.nat_context, None);
}

#[test]
fn sn_called_starts_with_sequence_and_ids() {
    let bytes = called(None).to_vec().unwrap();
    assert_eq!(&bytes[..14], &[0, 0, 0, 3, 4, 9, 9, 9, 9, 4, 2, 2, 2, 2]);
}

#[test]
fn sn_called_keeps_a_supported_nat_context() {
    let ctx = NatTraversalContext { version: 1, caller_profile: profile(1), callee_profile: profile(1) };
    let plain = called(None).to_vec().unwrap();
    let bytes = called(Some(ctx)).to_vec().unwrap();
    assert_eq!(bytes.len(), plain.len() + 9 + 21);
    let back = SnCalled::clone_from_slice(&bytes).unwrap();
    assert_eq!(back.nat_context, Some(ctx));
}

#[test]
fn sn_called_drops_an_unsupported_nat_context() {
    let ctx = NatTraversalContext { version: 1, caller_profile: profile(1), callee_profile: profile(3) };
    let back = SnCalled::clone_from_slice(&called(Some(ctx)).to_vec().unwrap()).unwrap();
    assert_eq!(back.nat_context, None);
}

#[test]
fn sn_called_truncated_is_a_codec_error() {
    let bytes = called(None).to_vec().unwrap();
    let err = SnCalled::clone_from_slice(&bytes[..bytes.len() - 2]).err().unwrap();
    assert_eq!(err.code(), P2pErrorCode::RawCodecError);
}
