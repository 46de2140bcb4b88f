use bucky_time::bucky_time_now;
use p2p_frame::endpoint::{Endpoint, EndpointArea, Protocol, SocketAddr};
use p2p_frame::p2p_identity::{P2pIdentityCert, P2pIdentityCertRef};
use p2p_frame::sn::service::peer_manager::{
    contain_addr, has_wan_endpoint, CachedPeerInfo, FindPeerReason, PeerManager, Peers,
};
use p2p_frame::types::P2pId;

fn test_id(seed: u8) -> P2pId {
    P2pId::from_bytes(vec![seed; 32])
}

fn lan_ep(port: u16) -> Endpoint {
    Endpoint::new(Protocol::Tcp, SocketAddr::v4(192, 168, 1, 2, port))
}

fn wan_ep(port: u16) -> Endpoint {
    let mut ep = Endpoint::new(Protocol::Quic, SocketAddr::v4(8, 8, 8, 8, port));
    ep.set_area(EndpointArea::Wan);
    ep
}

fn mapped_ep(port: u16) -> Endpoint {
    let mut ep = Endpoint::new(Protocol::Tcp, SocketAddr::v4(1, 1, 1, 1, port));
    ep.set_area(EndpointArea::Mapped);
    ep
}

fn test_cert(id: P2pId, endpoints: Vec<Endpoint>) -> P2pIdentityCertRef {
    P2pIdentityCert::new(id, "dummy".to_owned(), endpoints, vec![])
}

#[test]
fn test_has_wan_endpoint_detects_wan_or_mapped() {
    let lan = test_cert(test_id(1), vec![lan_ep(1001)]);
    let wan = test_cert(test_id(2), vec![wan_ep(1002)]);
    let mapped = test_cert(test_id(3), vec![mapped_ep(1003)]);

    assert!(!has_wan_endpoint(&lan));
    assert!(has_wan_endpoint(&wan));
    assert!(has_wan_endpoint(&mapped));
}

#[test]
fn test_contain_addr_matches_socket_addr() {
    let cert = test_cert(test_id(4), vec![lan_ep(2001), wan_ep(2002)]);
    let exists = SocketAddr::v4(8, 8, 8, 8, 2002);
    let missing = SocketAddr::v4(9, 9, 9, 9, 2003);

    assert!(contain_addr(&cert, &exists));
    assert!(!contain_addr(&cert, &missing));
}

#[test]
fn test_add_peer_info_insert_and_update() {
    let mut mgr = PeerManager::new();
    let remote_id = test_id(10);
    let wan_cert = test_cert(remote_id.clone(), vec![wan_ep(3001)]);
    let lan_cert = test_cert(remote_id.clone(), vec![lan_ep(3002)]);

    mgr.add_peer_info(remote_id.clone(), wan_cert.duplicate(), bucky_time_now());

    let inserted = mgr.find_peer(&remote_id).unwrap();
    assert!(inserted.is_wan);
    assert_eq!(inserted.desc.get_id(), remote_id);

    mgr.add_peer_info(remote_id.clone(), lan_cert, bucky_time_now());

    let updated = mgr.find_peer(&remote_id).unwrap();
    assert!(!updated.is_wan);
    assert_eq!(updated.desc.get_id(), remote_id);
}

#[test]
fn test_add_or_update_peer_skip_insert_when_device_none() {
    let mut mgr = PeerManager::new();
    let remote_id = test_id(11);
    let none_device: Option<P2pIdentityCertRef> = None;
    let local_eps = vec![lan_ep(4001)];

    mgr.add_or_update_peer(&remote_id, &none_device, vec![(Protocol::Tcp, 1234)], &local_eps, bucky_time_now());

    assert!(mgr.find_peer(&remote_id).is_none());
}

#[test]
fn test_add_or_update_peer_insert_and_update() {
    let mut mgr = PeerManager::new();
    let remote_id = test_id(12);

    let cert_wan = test_cert(remote_id.clone(), vec![wan_ep(5001)]);
    let some_device = Some(cert_wan);
    let local_eps1 = vec![lan_ep(5002)];
    mgr.add_or_update_peer(&remote_id, &some_device, vec![(Protocol::Quic, 6001)], &local_eps1, bucky_time_now());

    let inserted = mgr.find_peer(&remote_id).unwrap();
    assert!(inserted.is_wan);
    assert_eq!(inserted.map_ports, vec![(Protocol::Quic, 6001)]);
    assert_eq!(inserted.local_eps, local_eps1);

    let none_device: Option<P2pIdentityCertRef> = None;
    let local_eps2 = vec![lan_ep(5003), lan_ep(5004)];
    mgr.add_or_update_peer(&remote_id, &none_device, vec![(Protocol::Tcp, 6002)], &local_eps2, bucky_time_now());

    let updated_without_desc = mgr.find_peer(&remote_id).unwrap();
    assert!(updated_without_desc.is_wan);
    assert_eq!(updated_without_desc.map_ports, vec![(Protocol::Tcp, 6002)]);
    assert_eq!(updated_without_desc.local_eps, local_eps2);

    let cert_lan = test_cert(remote_id.clone(), vec![lan_ep(5005)]);
    let some_device2 = Some(cert_lan);
    let local_eps3 = vec![lan_ep(5006)];
    mgr.add_or_update_peer(&remote_id, &some_device2, vec![(Protocol::Tcp, 6003)], &local_eps3, bucky_time_now());

    let updated_with_desc = mgr.find_peer(&remote_id).unwrap();
    assert!(!updated_with_desc.is_wan);
    assert_eq!(updated_with_desc.map_ports, vec![(Protocol::Tcp, 6003)]);
    assert_eq!(updated_with_desc.local_eps, local_eps3);
}

#[test]
fn test_remove_peer_removes_cached_info() {
    let mut mgr = PeerManager::new();
    let remote_id = test_id(13);
    let cert = test_cert(remote_id.clone(), vec![wan_ep(7001)]);

    mgr.add_peer_info(remote_id.clone(), cert, bucky_time_now());
    assert!(mgr.find_peer(&remote_id).is_some());

    mgr.remove_peer(remote_id.clone());
    assert!(mgr.find_peer(&remote_id).is_none());
}

#[test]
fn peer_manager_new_entry_takes_the_given_send_time() {
    let mut mgr = PeerManager::new();
    let id = test_id(14);
    mgr.add_peer_info(id.clone(), test_cert(id.clone(), vec![lan_ep(1)]), 777);
    let info = mgr.find_peer(&id).unwrap();
    assert_eq!(info.last_send_time, 777);
    assert_eq!(info.last_call_time, 0);
    assert!(info.map_ports.is_empty());
    assert!(info.local_eps.is_empty());
    // A second report keeps the first send time.
    mgr.add_peer_info(id.clone(), test_cert(id.clone(), vec![wan_ep(2)]), 999);
    let info = mgr.find_peer(&id).unwrap();
    assert_eq!(info.last_send_time, 777);
    assert!(info.is_wan);
}

#[test]
fn cached_peer_info_update_desc_never_fails() {
    let id = test_id(15);
    let mut info = CachedPeerInfo::new(test_cert(id.clone(), vec![lan_ep(1)]), 5);
    assert!(!info.is_wan);
    let r = info.update_desc(&test_cert(id.clone(), vec![mapped_ep(2)]));
    assert_eq!(r.unwrap(), true);
    assert!(info.is_wan);
}

#[test]
fn peers_find_records_later_call_times_only() {
    let mut peers = Peers::new();
    let id = test_id(16);
    assert!(peers.find_peer(&id, FindPeerReason::CallFrom(10)).is_none());
    assert!(peers.find_peer(&id, FindPeerReason::Other).is_none());
}
