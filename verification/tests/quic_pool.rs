use p2p_frame::endpoint::{Endpoint, IpAddr, Protocol, SocketAddr};
use p2p_frame::error::{P2pError, P2pErrorCode, P2pResult};
use p2p_frame::sockets::quic::{
    listener_for_local_ep, listeners_for_remote, make_conn_key, stream_connect_outcome, QuicConnPool,
};
use p2p_frame::types::P2pId;

fn id(seed: u8) -> P2pId {
    P2pId::from_bytes(vec![seed; 32])
}

fn v4(port: u16) -> Endpoint {
    Endpoint::new(Protocol::Quic, SocketAddr::v4(10, 0, 0, 1, port))
}

fn v6(port: u16) -> Endpoint {
    Endpoint::new(Protocol::Quic, SocketAddr::new(IpAddr::V6(7), port))
}

#[test]
fn listeners_are_chosen_by_ip_version_and_local_endpoint() {
    let listeners = [v4(1), v6(2), v4(3)];
    assert_eq!(listeners_for_remote(&listeners, &v4(9)), vec![0, 2]);
    assert_eq!(listeners_for_remote(&listeners, &v6(9)), vec![1]);
    assert_eq!(listener_for_local_ep(&listeners, &v4(3), &v4(9)), Ok(2));
    assert_eq!(listener_for_local_ep(&listeners, &v4(3), &v6(9)).unwrap_err().code(), P2pErrorCode::NotFound);
    assert_eq!(listener_for_local_ep(&listeners, &v4(4), &v4(9)).unwrap_err().code(), P2pErrorCode::NotFound);
}

#[test]
fn connect_outcome_keeps_connections_or_the_last_error() {
    let some: Vec<P2pResult<u8>> = vec![Err(P2pError::new(P2pErrorCode::ConnectFailed)), Ok(1), Ok(2)];
    assert_eq!(stream_connect_outcome(some), Ok(vec![1, 2]));
    let none: Vec<P2pResult<u8>> = vec![
        Err(P2pError::new(P2pErrorCode::ConnectFailed)),
        Err(P2pError::new(P2pErrorCode::TlsError)),
    ];
    assert_eq!(stream_connect_outcome(none).unwrap_err().code(), P2pErrorCode::TlsError);
    let untried: Vec<P2pResult<u8>> = Vec::new();
    assert_eq!(stream_connect_outcome(untried).unwrap_err().code(), P2pErrorCode::NotFound);
}

#[test]
fn pooled_connections_are_keyed_by_route_and_identity() {
    let mut pool: QuicConnPool<u32> = QuicConnPool::new();
    assert!(pool.is_empty());
    let a = make_conn_key(v4(1), &id(1), &v4(9), &id(5));
    let b = make_conn_key(v4(1), &id(2), &v4(9), &id(5));
    let unnamed = make_conn_key(v4(1), &id(1), &v4(9), &P2pId::from_bytes(Vec::new()));
    assert!(unnamed.remote_id_hint.is_none());
    pool.insert(a, 10);
    pool.insert(b, 20);
    pool.insert(unnamed, 30);
    assert_eq!(pool.get(&make_conn_key(v4(1), &id(1), &v4(9), &id(5))), Some(&10));
    assert_eq!(pool.get(&make_conn_key(v4(1), &id(2), &v4(9), &id(5))), Some(&20));
    pool.insert(make_conn_key(v4(1), &id(1), &v4(9), &id(5)), 11);
    assert_eq!(pool.remove(&make_conn_key(v4(1), &id(1), &v4(9), &id(5))), Some(11));
    assert_eq!(pool.get(&make_conn_key(v4(1), &id(1), &v4(9), &id(5))), None);
    let mut left = pool.drain();
    left.sort();
    assert_eq!(left, vec![20, 30]);
    assert!(pool.is_empty());
}
