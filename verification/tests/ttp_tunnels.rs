use p2p_frame::endpoint::{Endpoint, EndpointArea, IpAddr, Protocol, SocketAddr};
use p2p_frame::error::P2pErrorCode;
use p2p_frame::ttp::client_tunnels::{
    add_server_target, configured_server_id, remove_server_target, TtpClientTunnels,
    DEFAULT_TTP_CLIENT_IDLE_TIMEOUT,
};
use p2p_frame::ttp::tunnel_cache::{
    is_default_endpoint, is_tunnel_available, match_target, TtpPeerTunnels, TtpTunnelCache,
    TunnelInfo,
};
use p2p_frame::ttp::types::TtpTarget;
use p2p_frame::types::P2pId;

fn id(seed: u8) -> P2pId {
    P2pId::from_bytes(vec![seed; 32])
}

fn ep(port: u16) -> Endpoint {
    Endpoint::new(Protocol::Quic, SocketAddr::v4(10, 0, 0, 1, port))
}

fn default_ep() -> Endpoint {
    Endpoint::new(Protocol::Unk, SocketAddr::new(IpAddr::V4(0), 0))
}

fn info(peer: u8, local: Option<u16>, remote: Option<u16>) -> TunnelInfo {
    TunnelInfo { remote_id: id(peer), local_ep: local.map(ep), remote_ep: remote.map(ep) }
}

fn target(peer: u8, local: Option<u16>, remote: Endpoint) -> TtpTarget {
    TtpTarget { local_ep: local.map(ep), remote_ep: remote, remote_id: id(peer), remote_name: None }
}

#[test]
fn targets_match_by_peer_and_known_endpoints() {
    assert!(match_target(&info(1, Some(1), Some(2)), &target(1, Some(1), ep(2))));
    assert!(!match_target(&info(2, Some(1), Some(2)), &target(1, Some(1), ep(2))));
    assert!(!match_target(&info(1, Some(3), Some(2)), &target(1, Some(1), ep(2))));
    assert!(match_target(&info(1, None, Some(2)), &target(1, Some(1), ep(2))));
    assert!(!match_target(&info(1, Some(1), Some(4)), &target(1, Some(1), ep(2))));
    assert!(match_target(&info(1, Some(1), Some(4)), &target(1, Some(1), default_ep())));
    assert!(match_target(&info(1, Some(1), None), &target(1, None, ep(2))));
    let mut wan = ep(2);
    wan.set_area(EndpointArea::Wan);
    assert!(match_target(&info(1, None, Some(2)), &target(1, None, wan)));
    assert!(is_default_endpoint(&default_ep()));
    assert!(!is_default_endpoint(&ep(0)));
    assert!(is_tunnel_available(false, true));
    assert!(!is_tunnel_available(true, true));
    assert!(!is_tunnel_available(false, false));
}

#[test]
fn route_cache_reuses_and_prunes_tunnels() {
    let mut cache: TtpTunnelCache<u32> = TtpTunnelCache::new();
    cache.remember(info(1, Some(1), Some(2)), 10);
    cache.remember(info(1, Some(3), Some(2)), 11);
    cache.remember(info(1, Some(1), Some(2)), 12);
    assert_eq!(cache.len(), 2);
    assert_eq!(cache.find(&target(1, Some(1), ep(2))), Some(&12));
    assert_eq!(cache.find(&target(1, Some(3), ep(2))), Some(&11));
    assert_eq!(cache.find(&target(2, None, ep(2))), None);
    let flags: Vec<bool> = (0..cache.len()).map(|i| *cache.tunnel_at(i) != 12).collect();
    cache.retain_available(&flags);
    assert_eq!(cache.len(), 1);
    assert_eq!(cache.find(&target(1, Some(1), ep(2))), None);
    assert_eq!(cache.find(&target(1, None, ep(2))), Some(&11));
}

#[test]
fn peer_cache_keeps_one_tunnel_per_peer() {
    let mut cache: TtpPeerTunnels<u32> = TtpPeerTunnels::new();
    assert_eq!(cache.get_existing_tunnel(&target(1, None, ep(2))).unwrap_err().code(), P2pErrorCode::NotFound);
    cache.remember(info(1, Some(1), Some(2)), 10);
    cache.remember(info(1, Some(1), Some(5)), 11);
    assert_eq!(cache.len(), 1);
    assert_eq!(cache.find(&target(1, None, ep(5))), Some(&11));
    assert_eq!(cache.find(&target(1, None, ep(2))), None);
    assert_eq!(*cache.get_existing_tunnel(&target(1, None, default_ep())).unwrap(), 11);
    cache.retain_available(&vec![false]);
    assert_eq!(cache.find(&target(1, None, ep(5))), None);
}

#[test]
fn client_tunnels_release_idle_ones() {
    let mut c: TtpClientTunnels<u32> = TtpClientTunnels::new(DEFAULT_TTP_CLIENT_IDLE_TIMEOUT);
    let servers = vec![target(1, None, ep(2))];
    c.remember_tunnel_entry(info(1, None, Some(2)), 10, 0, &servers, &vec![]);
    c.remember_tunnel_entry(info(3, None, Some(4)), 30, 0, &servers, &vec![true]);
    assert_eq!(c.len(), 2);
    let later = DEFAULT_TTP_CLIENT_IDLE_TIMEOUT + 1;
    c.release_idle_tunnels(later, &servers, &vec![true, true]);
    assert_eq!(c.len(), 1);
    assert_eq!(*c.tunnel_at(0), 10);
    c.release_idle_tunnels(later, &[], &vec![true]);
    assert_eq!(c.len(), 0);
}

#[test]
fn client_tunnels_keep_leased_ones_and_reuse_them() {
    let mut c: TtpClientTunnels<u32> = TtpClientTunnels::new(100);
    c.remember_tunnel_entry(info(3, None, Some(4)), 30, 0, &[], &vec![]);
    let t = target(3, None, ep(4));
    let key = c.acquire_lease(&t, 50).unwrap();
    assert!(key.remote_id.same_as(&id(3)));
    assert!(c.acquire_lease(&target(9, None, ep(4)), 50).is_none());
    c.release_idle_tunnels(1_000, &[], &vec![true]);
    assert_eq!(c.len(), 1);
    let found = c.find_existing_tunnel(&t, 1_000, &[], &vec![true]).unwrap();
    assert_eq!(*c.tunnel_at(found), 30);
    c.release_lease(&key, 1_050);
    c.release_idle_tunnels(1_100, &[], &vec![true]);
    assert_eq!(c.len(), 1);
    c.release_idle_tunnels(1_200, &[], &vec![true]);
    assert_eq!(c.len(), 0);
    assert!(c.find_existing_tunnel(&t, 1_300, &[], &vec![]).is_none());
}

#[test]
fn client_tunnels_follow_server_configuration() {
    let mut c: TtpClientTunnels<u32> = TtpClientTunnels::new(100);
    c.remember_tunnel_entry(info(1, None, Some(2)), 10, 0, &[], &vec![]);
    let servers = vec![target(1, None, ep(2))];
    c.refresh_maintained_cache_state(&id(1), &servers, 500);
    c.release_idle_tunnels(10_000, &servers, &vec![true]);
    assert_eq!(c.len(), 1);
    c.release_idle_tunnels(10_000, &servers, &vec![false]);
    assert_eq!(c.len(), 0);
}

#[test]
fn configured_servers() {
    let mut servers: Vec<TtpTarget> = Vec::new();
    assert!(configured_server_id(&servers).unwrap().is_none());
    add_server_target(&mut servers, target(1, None, ep(2)));
    add_server_target(&mut servers, target(1, Some(7), ep(2)));
    assert_eq!(servers.len(), 1);
    add_server_target(&mut servers, target(1, None, ep(3)));
    assert_eq!(servers.len(), 2);
    assert!(configured_server_id(&servers).unwrap().unwrap().same_as(&id(1)));
    add_server_target(&mut servers, target(2, None, ep(3)));
    assert_eq!(configured_server_id(&servers).unwrap_err().code(), P2pErrorCode::InvalidParam);
    remove_server_target(&mut servers, &target(1, None, ep(2)));
    assert_eq!(servers.len(), 2);
    assert_eq!(servers[0].remote_ep, ep(3));
    remove_server_target(&mut servers, &target(2, None, ep(3)));
    assert_eq!(servers.len(), 1);
    assert!(servers[0].remote_id.same_as(&id(1)));
}
