use std::time::Duration;

use p2p_frame::endpoint::{Endpoint, Protocol, SocketAddr};
use p2p_frame::sockets::quic::QuicCongestionAlgorithm;
use p2p_frame::stack::P2pConfig;

fn ep(port: u16) -> Endpoint {
    Endpoint::new(Protocol::Quic, SocketAddr::v4(10, 0, 0, 1, port))
}

#[test]
fn config_defaults() {
    let config = P2pConfig::new(vec![ep(1000)]);
    assert_eq!(config.endpoints().len(), 1);
    assert!(config.port_mapping().is_none());
    assert_eq!(config.tcp_accept_timout(), Duration::from_secs(10));
    assert_eq!(config.tcp_connect_timout(), Duration::from_secs(10));
    assert_eq!(config.quic_connect_timeout(), Duration::from_secs(10));
    assert_eq!(config.quic_idle_time(), Duration::from_secs(60));
    assert_eq!(config.quic_congestion_algorithm(), QuicCongestionAlgorithm::Bbr);
}

#[test]
fn config_setters_replace_only_their_value() {
    let config = P2pConfig::new(vec![])
        .add_endpoint(ep(1))
        .set_tcp_accept_timout(Duration::from_secs(3))
        .set_quic_idle_time(Duration::from_secs(10))
        .set_quic_congestion_algorithm(QuicCongestionAlgorithm::Cubic);
    assert_eq!(config.endpoints().len(), 1);
    assert_eq!(config.tcp_accept_timout(), Duration::from_secs(3));
    assert_eq!(config.tcp_connect_timout(), Duration::from_secs(10));
    assert_eq!(config.quic_idle_time(), Duration::from_secs(10));
    assert_eq!(config.quic_congestion_algorithm(), QuicCongestionAlgorithm::Cubic);
}

#[test]
fn first_single_port_mapping_only_starts_the_list() {
    let config = P2pConfig::new(vec![ep(1)]).add_port_mapping((ep(1), 5000));
    assert_eq!(config.port_mapping().as_ref().map(|v| v.len()), Some(0));
    let config = config.add_port_mapping((ep(1), 5001));
    let list = config.port_mapping().as_ref().unwrap();
    assert_eq!(list.len(), 1);
    assert_eq!(list[0].1, 5001);
}

#[test]
fn port_mapping_lists_are_appended() {
    let config = P2pConfig::new(vec![ep(1)])
        .add_port_mapping_list(vec![(ep(1), 5000)])
        .add_port_mapping_list(vec![(ep(2), 5001), (ep(3), 5002)]);
    let ports: Vec<u16> = config.port_mapping().as_ref().unwrap().iter().map(|m| m.1).collect();
    assert_eq!(ports, vec![5000, 5001, 5002]);
}
