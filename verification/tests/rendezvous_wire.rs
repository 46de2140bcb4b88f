use p2p_frame::endpoint::{Endpoint, EndpointArea, IpAddr, Protocol, SocketAddr};
use p2p_frame::error::P2pErrorCode;
use p2p_frame::sn::protocol::sn::{
    SnTunnelRendezvous, SnTunnelRendezvousNotify, SnTunnelRendezvousOperation,
    SnTunnelRendezvousResp,
};
use p2p_frame::types::{P2pId, Sequence, TunnelId};

fn wan(port: u16) -> Endpoint {
    let mut ep = Endpoint::new(Protocol::Quic, SocketAddr::v4(119, 127, 198, 117, port));
    ep.set_area(EndpointArea::Wan);
    ep
}

fn v6() -> Endpoint {
    Endpoint::new(Protocol::Tcp, SocketAddr::new(IpAddr::V6(0x2400_0000_0000_0000_0000_0000_0000_0001), 443))
}

fn request() -> SnTunnelRendezvous {
    SnTunnelRendezvous {
        seq: Sequence(7),
        tunnel_id: TunnelId(9),
        to_peer_id: P2pId::from_bytes(vec![3u8; 32]),
        operation: SnTunnelRendezvousOperation::PunchOnly,
        end_point_array: vec![wan(4000), v6()],
        need_predict_endpoint: true,
    }
}

#[test]
fn rendezvous_request_bytes_follow_the_field_layout() {
    let small = SnTunnelRendezvous {
        seq: Sequence(1),
        tunnel_id: TunnelId(2),
        to_peer_id: P2pId::from_bytes(vec![0xAA, 0xBB]),
        operation: SnTunnelRendezvousOperation::WaitIncoming,
        end_point_array: vec![],
        need_predict_endpoint: false,
    };
    assert_eq!(
        small.to_vec(),
        vec![0, 0, 0, 1, 0, 0, 0, 2, 2, 0xAA, 0xBB, 3, 0, 0]
    );
    let one = SnTunnelRendezvous { end_point_array: vec![wan(4000)], ..small };
    assert_eq!(
        one.to_vec(),
        vec![0, 0, 0, 1, 0, 0, 0, 2, 2, 0xAA, 0xBB, 3, 1, 3, 1, 4, 119, 127, 198, 117, 0x0F, 0xA0, 0]
    );
}

#[test]
fn rendezvous_request_reads_back_from_its_bytes() {
    let r = request();
    let back = SnTunnelRendezvous::clone_from_slice(&r.to_vec()).unwrap();
    assert_eq!(back.seq, r.seq);
    assert_eq!(back.tunnel_id, r.tunnel_id);
    assert!(back.to_peer_id.same_as(&r.to_peer_id));
    assert_eq!(back.operation, r.operation);
    assert_eq!(back.end_point_array, r.end_point_array);
    assert!(back.need_predict_endpoint);
}

#[test]
fn rendezvous_request_with_trailing_bytes_is_invalid_data() {
    let mut bytes = request().to_vec();
    bytes.push(0);
    let err = SnTunnelRendezvous::clone_from_slice(&bytes).unwrap_err();
    assert_eq!(err.code(), P2pErrorCode::InvalidData);
}

#[test]
fn truncated_rendezvous_request_is_a_codec_error() {
    let bytes = request().to_vec();
    let err = SnTunnelRendezvous::clone_from_slice(&bytes[..bytes.len() - 1]).unwrap_err();
    assert_eq!(err.code(), P2pErrorCode::RawCodecError);
    let err = SnTunnelRendezvous::clone_from_slice(&[]).unwrap_err();
    assert_eq!(err.code(), P2pErrorCode::RawCodecError);
}

#[test]
fn unknown_operation_is_a_codec_error() {
    let mut bytes = request().to_vec();
    // The operation byte follows the two ids and the 32-byte peer id.
    bytes[8 + 1 + 32] = 9;
    let err = SnTunnelRendezvous::clone_from_slice(&bytes).unwrap_err();
    assert_eq!(err.code(), P2pErrorCode::RawCodecError);
}

#[test]
fn rendezvous_notify_and_response_read_back() {
    let n = SnTunnelRendezvousNotify {
        seq: Sequence(5),
        tunnel_id: TunnelId(6),
        peer_info: vec![1, 2, 3],
        operation: SnTunnelRendezvousOperation::ReverseConnectOnly,
        end_point_array: vec![v6()],
        need_predict_endpoint: false,
    };
    let back = SnTunnelRendezvousNotify::clone_from_slice(&n.to_vec()).unwrap();
    assert_eq!(back.peer_info, vec![1, 2, 3]);
    assert_eq!(back.end_point_array, vec![v6()]);
    assert_eq!(back.operation, SnTunnelRendezvousOperation::ReverseConnectOnly);

    let resp = SnTunnelRendezvousResp {
        seq: Sequence(5),
        result: 0,
        predicted_endpoint_array: vec![wan(1), wan(2)],
    };
    let bytes = resp.to_vec();
    assert_eq!(&bytes[..5], &[0, 0, 0, 5, 0]);
    let back = SnTunnelRendezvousResp::clone_from_slice(&bytes).unwrap();
    assert_eq!(back.predicted_endpoint_array, vec![wan(1), wan(2)]);
    let mut longer = bytes.clone();
    longer.extend_from_slice(&[1, 2]);
    assert_eq!(
        SnTunnelRendezvousResp::clone_from_slice(&longer).unwrap_err().code(),
        P2pErrorCode::InvalidData
    );
}
