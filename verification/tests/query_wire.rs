use p2p_frame::endpoint::{Endpoint, Protocol, SocketAddr};
use p2p_frame::error::P2pErrorCode;
use p2p_frame::nat_type::{NatMappingObservation, NatProfile};
use p2p_frame::sn::protocol::message::{SnQuery, SnQueryResp};
use p2p_frame::types::{P2pId, Sequence};

fn id(seed: u8) -> P2pId {
    P2pId::from_bytes(vec![seed; 4])
}

fn profile(version: u8) -> NatProfile {
    NatProfile { version, observation: NatMappingObservation::EndpointIndependent, valid_until: 77 }
}

fn answer(net_profile: Option<NatProfile>, version: Option<u8>) -> SnQueryResp {
    SnQueryResp {
        seq: Sequence(3),
        peer_info: Some(vec![0xCE, 0x01]),
        end_point_array: vec![Endpoint::new(Protocol::Tcp, SocketAddr::v4(10, 0, 0, 1, 8080))],
        net_profile,
        target_protocol_version: version,
    }
}

#[test]
fn sn_query_has_its_field_layout() {
    let q = SnQuery { protocol_version: 1, stack_version: 2, seq: Sequence(3), query_id: id(9) };
    assert_eq!(q.to_vec(), vec![1, 0, 0, 0, 2, 0, 0, 0, 3, 4, 9, 9, 9, 9]);
}

#[test]
fn sn_query_reads_back_from_its_bytes() {
    let q = SnQuery { protocol_version: 1, stack_version: 7, seq: Sequence(0x0102_0304), query_id: id(5) };
    let back = SnQuery::clone_from_slice(&q.to_vec()).unwrap();
    assert_eq!(back.protocol_version, 1);
    assert_eq!(back.stack_version, 7);
    assert_eq!(back.seq, Sequence(0x0102_0304));
    assert!(back.query_id.same_as(&id(5)));
}

#[test]
fn sn_query_truncated_is_a_codec_error() {
    let q = SnQuery { protocol_version: 1, stack_version: 2, seq: Sequence(3), query_id: id(9) };
    let bytes = q.to_vec();
    let err = SnQuery::clone_from_slice(&bytes[..bytes.len() - 1]).err().unwrap();
    assert_eq!(err.code(), P2pErrorCode::RawCodecError);
}

#[test]
fn sn_query_resp_without_extensions_has_its_field_layout() {
    let a = SnQueryResp {
        seq: Sequence(3),
        peer_info: None,
        end_point_array: vec![],
        net_profile: None,
        target_protocol_version: None,
    };
    assert_eq!(a.to_vec().unwrap(), vec![0, 0, 0, 3, 0, 0]);
}

#[test]
fn sn_query_resp_reads_back_with_profile_and_version() {
    let a = answer(Some(profile(1)), Some(2));
    let plain = answer(None, None).to_vec().unwrap();
    let bytes = a.to_vec().unwrap();
    // A 9-byte extension header before the 10-byte profile, another before the version byte.
    assert_eq!(bytes.len(), plain.len() + 9 + 10 + 9 + 1);
    let back = SnQueryResp::clone_from_slice(&bytes).unwrap();
    assert_eq!(back.seq, Sequence(3));
    assert_eq!(back.peer_info, Some(vec![0xCE, 0x01]));
    assert_eq!(back.end_point_array, a.end_point_array);
    assert_eq!(back.net_profile, Some(profile(1)));
    assert_eq!(back.target_protocol_version, Some(2));
}

#[test]
fn sn_query_resp_reads_back_without_extensions() {
    let back = SnQueryResp::clone_from_slice(&answer(None, None).to_vec().unwrap()).unwrap();
    assert_eq!(back.net_profile, None);
    assert_eq!(back.target_protocol_version, None);
    assert_eq!(back.peer_info, Some(vec![0xCE, 0x01]));
}

#[test]
fn sn_query_resp_keeps_version_without_profile() {
    let back = SnQueryResp::clone_from_slice(&answer(None, Some(1)).to_vec().unwrap()).unwrap();
    assert_eq!(back.net_profile, None);
    assert_eq!(back.target_protocol_version, Some(1));
}

#[test]
fn sn_query_resp_drops_an_unsupported_profile() {
    let back = SnQueryResp::clone_from_slice(&answer(Some(profile(9)), Some(1)).to_vec().unwrap()).unwrap();
    assert_eq!(back.net_profile, None);
    assert_eq!(back.target_protocol_version, Some(1));
}

#[test]
fn sn_query_resp_truncated_is_a_codec_error() {
    let bytes = answer(None, None).to_vec().unwrap();
    let err = SnQueryResp::clone_from_slice(&bytes[..3]).err().unwrap();
    assert_eq!(err.code(), P2pErrorCode::RawCodecError);
}
