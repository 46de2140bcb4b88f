use p2p_frame::endpoint::{Endpoint, EndpointArea, Protocol, SocketAddr};
use p2p_frame::error::{P2pError, P2pErrorCode};
use p2p_frame::networks::ValidateResult;
use p2p_frame::sn::types::{SnTunnelClassification, SnTunnelRead};
use p2p_frame::sockets::server_name::{parse_server_name, validate_server_name};
use p2p_frame::sockets::tcp::listener::{first_peer_certificate, TCPListener};
use p2p_frame::sockets::tcp::tcp_socket::TCPSocket;
use p2p_frame::sockets::UpdateOuterResult;
use p2p_frame::stream::stream_manager::{should_continue_accept_loop, stream_closed};
use p2p_frame::ttp::registry::TtpQueueRegistry;
use p2p_frame::ttp::server::incoming_tunnel_accepted;
use p2p_frame::types::P2pId;

fn id(seed: u8) -> P2pId {
    P2pId::from_bytes(vec![seed; 32])
}

fn ep(port: u16) -> Endpoint {
    Endpoint::new(Protocol::Tcp, SocketAddr::v4(119, 127, 198, 117, port))
}

#[test]
fn server_names_tls_accepts_are_kept_others_wrapped() {
    assert_eq!(validate_server_name("example.com".to_owned()), "example.com");
    assert_eq!(validate_server_name("127.0.0.1".to_owned()), "127.0.0.1");
    assert_eq!(validate_server_name("bad name".to_owned()), "p2p.bad name.com");
}

#[test]
fn server_name_parse_unwraps_the_p2p_form() {
    assert_eq!(parse_server_name("p2p.abc.com"), "abc");
    assert_eq!(parse_server_name("p2p.p2p.abc.com.com"), "abc");
    assert_eq!(parse_server_name("abc.com"), "abc.com");
    assert_eq!(parse_server_name("p2p.abc"), "p2p.abc");
    assert_eq!(parse_server_name("p2p.com"), "com");
    assert_eq!(parse_server_name("p2p.bad name.com"), "bad name");
    let wrapped = validate_server_name("bad name".to_owned());
    assert_eq!(parse_server_name(&wrapped), "bad name");
}

#[test]
fn listener_records_outer_address_changes() {
    let mut listener: TCPListener<u32, u32> = TCPListener::new();
    assert!(listener.outer().is_none());
    assert_eq!(listener.update_outer(&ep(1000)), UpdateOuterResult::Update);
    assert_eq!(listener.update_outer(&ep(1000)), UpdateOuterResult::Unchanged);
    let mut moved = ep(1000);
    moved.set_area(EndpointArea::Wan);
    assert_eq!(listener.update_outer(&moved), UpdateOuterResult::Unchanged);
    assert_eq!(listener.update_outer(&ep(1001)), UpdateOuterResult::Update);
    assert_eq!(listener.outer(), Some(ep(1001)));

    listener.bound(7, ep(2000), None, Some(3000));
    assert_eq!(listener.local(), ep(2000));
    assert_eq!(listener.mapping_port(), Some(3000));
    assert!(listener.outer().is_none());
    assert_eq!(listener.socket_ref(), Some(&7));
    listener.set_connection_event_listener(9);
    assert_eq!(listener.event_listener_ref(), Some(&9));
}

#[test]
fn tcp_socket_splits_once() {
    let mut socket = TCPSocket::new(5u8, id(1), id(2), ep(1), ep(2));
    assert!(!socket.is_split());
    assert_eq!(socket.split().unwrap(), 5u8);
    assert!(socket.is_split());
    assert_eq!(socket.split().unwrap_err().code(), P2pErrorCode::IoError);
    socket.unsplit(6u8);
    assert!(!socket.is_split());
    assert!(socket.remote_identity_id().same_as(&id(2)));
    assert!(socket.local_identity_id().same_as(&id(1)));
    assert_eq!(*socket.remote(), ep(2));
}

#[test]
fn sn_tunnel_read_serves_its_prefix_first() {
    let mut read = SnTunnelRead::new_with_prefix(0u8, ep(1), ep(2), id(1), id(2), vec![1, 2, 3, 4, 5]);
    assert_eq!(read.read_prefix(2), Some(vec![1, 2]));
    assert_eq!(read.read_prefix(10), Some(vec![3, 4, 5]));
    assert_eq!(read.read_prefix(10), None);
    let plain = SnTunnelRead::new(0u8, ep(1), ep(2), id(1), id(2));
    let c = plain.get_classification();
    assert_eq!(c.local_ep, Some(ep(1)));
    assert_eq!(c.remote_ep, ep(2));
    assert!(c == SnTunnelClassification::new(None, ep(2)));
    assert!(!(SnTunnelClassification::new(None, ep(2)) == c));
}

#[test]
fn queue_registry_listens_until_removed() {
    let mut registry: TtpQueueRegistry<P2pId, u32> = TtpQueueRegistry::new();
    assert!(!registry.is_listen(&id(1)));
    assert_eq!(registry.deliver(&id(1)).unwrap_err().code(), P2pErrorCode::NotFound);
    assert!(registry.register(id(1), 10).is_ok());
    assert_eq!(registry.register(id(1), 11).unwrap_err().code(), P2pErrorCode::AlreadyExists);
    assert_eq!(*registry.deliver(&id(1)).unwrap(), 10);
    registry.remove(&id(1));
    assert!(!registry.is_listen(&id(1)));
}

#[test]
fn stream_and_tunnel_verdicts() {
    assert!(should_continue_accept_loop(&P2pError::new(P2pErrorCode::PortNotListen)));
    assert!(!should_continue_accept_loop(&P2pError::new(P2pErrorCode::Interrupted)));
    assert!(stream_closed(None));
    assert!(stream_closed(Some(true)));
    assert!(!stream_closed(Some(false)));
    assert!(incoming_tunnel_accepted(&Ok(ValidateResult::Accept)));
    assert!(!incoming_tunnel_accepted(&Ok(ValidateResult::Reject("no".to_owned()))));
    assert!(!incoming_tunnel_accepted(&Err(P2pError::new(P2pErrorCode::Failed))));
}

#[test]
fn accepted_peer_must_present_a_certificate() {
    assert_eq!(first_peer_certificate(None).unwrap_err().code(), P2pErrorCode::CertError);
    let empty: Vec<Vec<u8>> = Vec::new();
    assert_eq!(first_peer_certificate(Some(&empty)).unwrap_err().code(), P2pErrorCode::CertError);
    let certs = vec![vec![1u8, 2], vec![3]];
    assert_eq!(first_peer_certificate(Some(&certs)).unwrap(), &vec![1u8, 2]);
}

#[test]
fn server_name_parse_undoes_validate() {
    for name in ["bad name", "example.org", "127.0.0.1", "peer_1"] {
        let validated = validate_server_name(name.to_owned());
        assert_eq!(parse_server_name(validated.as_str()), name);
    }
}
