use p2p_frame::endpoint::{Endpoint, EndpointArea, IpAddr, Protocol, SocketAddr};
use p2p_frame::error::P2pErrorCode;
use p2p_frame::sn::service::endpoints::{
    advertised_nat_probe_endpoints,
    classify_observed_endpoint, dedup_endpoints, extend_unique_endpoints,
    mapped_endpoint_from_observed, observed_endpoint_candidates, sanitize_reported_endpoints,
    unique_static_wan_ipv4, validate_nat_probe_config, MAX_REPORTED_LOCAL_ENDPOINTS,
};

fn public_addr(port: u16) -> SocketAddr {
    SocketAddr::v4(119, 127, 198, 117, port)
}

#[test]
fn reverse_endpoint_array_dedup_preserves_first_seen_endpoint() {
    let mut wan_ep = Endpoint::new(Protocol::Quic, public_addr(44325));
    wan_ep.set_area(EndpointArea::Wan);
    let mut mapped_same_addr = wan_ep;
    mapped_same_addr.set_area(EndpointArea::Mapped);
    let local_ep = Endpoint::new(Protocol::Quic, SocketAddr::v4(192, 168, 3, 137, 3622));
    let ipv6_ep = Endpoint::new(
        Protocol::Quic,
        SocketAddr::new(IpAddr::V6(0x240e_03b1_d003_70a0_7817_42c0_a827_056b), 3622),
    );

    let mut endpoints = vec![wan_ep, wan_ep, local_ep];
    dedup_endpoints(&mut endpoints);
    extend_unique_endpoints(&mut endpoints, &[mapped_same_addr, ipv6_ep]);

    assert_eq!(endpoints, vec![wan_ep, local_ep, ipv6_ep]);
    assert_eq!(endpoints[0].get_area(), EndpointArea::Wan);
}

#[test]
fn sn_observed_endpoint_matching_reported_addr_is_wan() {
    let reported = Endpoint::new(Protocol::Quic, public_addr(44325));
    let observed = Endpoint::new(Protocol::Quic, public_addr(44325));

    let classified = classify_observed_endpoint(observed, &[reported]);

    assert_eq!(classified.get_area(), EndpointArea::Wan);
}

#[test]
fn sn_observed_endpoint_matching_reported_addr_ignores_area() {
    let mut reported = Endpoint::new(Protocol::Quic, public_addr(44325));
    reported.set_area(EndpointArea::ServerReflexive);
    let observed = Endpoint::new(Protocol::Quic, public_addr(44325));

    let classified = classify_observed_endpoint(observed, &[reported]);

    assert_eq!(classified.get_area(), EndpointArea::Wan);
}

#[test]
fn sn_observed_endpoint_protocol_mismatch_is_server_reflexive() {
    let reported = Endpoint::new(Protocol::Tcp, public_addr(44325));
    let observed = Endpoint::new(Protocol::Quic, public_addr(44325));

    let classified = classify_observed_endpoint(observed, &[reported]);

    assert_eq!(classified.get_area(), EndpointArea::ServerReflexive);
}

#[test]
fn sn_unique_endpoint_extension_keeps_wan_over_lan_duplicate() {
    let mut observed = Endpoint::new(Protocol::Quic, public_addr(44325));
    observed.set_area(EndpointArea::Wan);
    let reported_lan = Endpoint::new(Protocol::Quic, public_addr(44325));
    let mut endpoints = vec![observed];

    extend_unique_endpoints(&mut endpoints, &[reported_lan]);

    assert_eq!(endpoints, vec![observed]);
    assert_eq!(endpoints[0].get_area(), EndpointArea::Wan);
}

#[test]
fn sn_map_port_candidate_from_observed_endpoint_is_mapped() {
    let observed = Endpoint::new(Protocol::Quic, public_addr(44325));

    let mapped = mapped_endpoint_from_observed(&observed, Protocol::Quic, 7000);

    assert_eq!(mapped.get_area(), EndpointArea::Mapped);
    assert_eq!(mapped.protocol(), Protocol::Quic);
    assert_eq!(mapped.addr().ip(), observed.addr().ip());
    assert_eq!(mapped.addr().port(), 7000);
}

#[test]
fn sn_tcp_observed_endpoint_without_map_ports_is_not_returned() {
    let observed_tcp = Endpoint::new(Protocol::Tcp, public_addr(44325));
    let reported_tcp = observed_tcp;

    let endpoints = observed_endpoint_candidates(&[observed_tcp], &[], &[reported_tcp]);

    assert!(endpoints.is_empty());
}

#[test]
fn sn_tcp_observed_endpoint_with_map_ports_returns_only_mapped_candidates() {
    let observed_tcp = Endpoint::new(Protocol::Tcp, public_addr(44325));

    let endpoints = observed_endpoint_candidates(
        &[observed_tcp],
        &[(Protocol::Tcp, 7000), (Protocol::Quic, 7001)],
        &[],
    );

    let mut mapped_tcp = Endpoint::new(Protocol::Tcp, public_addr(7000));
    mapped_tcp.set_area(EndpointArea::Mapped);
    let mut mapped_quic = Endpoint::new(Protocol::Quic, public_addr(7001));
    mapped_quic.set_area(EndpointArea::Mapped);

    assert_eq!(endpoints, vec![mapped_tcp, mapped_quic]);
    assert!(endpoints.iter().all(|ep| ep.get_area() == EndpointArea::Mapped));
    assert!(endpoints.iter().all(|ep| ep.addr().port() != 44325));
}

#[test]
fn sn_non_tcp_observed_endpoint_remains_direct_candidate() {
    let reported_quic = Endpoint::new(Protocol::Quic, public_addr(44325));
    let observed_quic = reported_quic;

    let endpoints = observed_endpoint_candidates(&[observed_quic], &[], &[reported_quic]);

    assert_eq!(endpoints.len(), 1);
    assert_eq!(endpoints[0].protocol(), Protocol::Quic);
    assert_eq!(endpoints[0].addr(), observed_quic.addr());
    assert_eq!(endpoints[0].get_area(), EndpointArea::Wan);
}

#[test]
fn sn_observed_endpoint_mismatch_is_server_reflexive() {
    let reported = Endpoint::new(Protocol::Quic, SocketAddr::v4(192, 168, 1, 10, 44325));
    let observed = Endpoint::new(Protocol::Quic, public_addr(44325));

    let classified = classify_observed_endpoint(observed, &[reported]);

    assert_eq!(classified.get_area(), EndpointArea::ServerReflexive);
}

#[test]
fn dedup_keeps_first_of_each_endpoint_in_order() {
    let a = Endpoint::new(Protocol::Tcp, public_addr(1));
    let b = Endpoint::new(Protocol::Quic, public_addr(1));
    let mut a_wan = a;
    a_wan.set_area(EndpointArea::Wan);
    let mut endpoints = vec![a, b, a_wan, b, a];
    dedup_endpoints(&mut endpoints);
    assert_eq!(endpoints.len(), 2);
    assert_eq!(endpoints[0].protocol(), Protocol::Tcp);
    assert_eq!(endpoints[0].get_area(), EndpointArea::Lan);
    assert_eq!(endpoints[1].protocol(), Protocol::Quic);
}

#[test]
fn mapped_candidates_skip_ones_already_listed() {
    let observed_quic = Endpoint::new(Protocol::Quic, public_addr(7001));
    let endpoints = observed_endpoint_candidates(
        &[observed_quic, observed_quic],
        &[(Protocol::Quic, 7001), (Protocol::Tcp, 7002)],
        &[],
    );
    // Both observations stay direct candidates; of the mapped ones only the
    // TCP one is new.
    assert_eq!(endpoints.len(), 3);
    assert_eq!(endpoints[0].get_area(), EndpointArea::ServerReflexive);
    assert_eq!(endpoints[1].get_area(), EndpointArea::ServerReflexive);
    assert_eq!(endpoints[2].protocol(), Protocol::Tcp);
    assert_eq!(endpoints[2].addr().port(), 7002);
    assert_eq!(endpoints[2].get_area(), EndpointArea::Mapped);
}

#[test]
fn sanitize_rejects_too_many_reported_endpoints() {
    let eps = vec![Endpoint::new(Protocol::Tcp, SocketAddr::v4(10, 0, 0, 1, 80)); MAX_REPORTED_LOCAL_ENDPOINTS + 1];
    let err = sanitize_reported_endpoints(&eps, None).err().unwrap();
    assert_eq!(err.code(), P2pErrorCode::OutOfLimit);
    let ok = sanitize_reported_endpoints(&eps[..MAX_REPORTED_LOCAL_ENDPOINTS], None).unwrap();
    assert_eq!(ok.len(), 1);
}

#[test]
fn sanitize_keeps_lan_and_observed_public_ipv4_only() {
    let lan = Endpoint::new(Protocol::Tcp, SocketAddr::v4(192, 168, 1, 5, 4000));
    let link_local = Endpoint::new(Protocol::Quic, SocketAddr::v4(169, 254, 3, 3, 4001));
    let udp = Endpoint::new(Protocol::Udp, SocketAddr::v4(192, 168, 1, 5, 4002));
    let zero_port = Endpoint::new(Protocol::Tcp, SocketAddr::v4(192, 168, 1, 5, 0));
    let public = Endpoint::new(Protocol::Quic, public_addr(4003));
    let other_public = Endpoint::new(Protocol::Quic, SocketAddr::v4(8, 8, 4, 4, 4004));
    let loopback = Endpoint::new(Protocol::Tcp, SocketAddr::v4(127, 0, 0, 1, 4005));
    let observed = Endpoint::new(Protocol::Quic, public_addr(9999));
    let reported = vec![lan, link_local, udp, zero_port, public, other_public, loopback, lan];

    let kept = sanitize_reported_endpoints(&reported, Some(&observed)).unwrap();
    assert_eq!(kept.len(), 3);
    assert_eq!(kept[0], lan);
    assert_eq!(kept[0].get_area(), EndpointArea::Lan);
    assert_eq!(kept[1], link_local);
    assert_eq!(kept[2], public);
    assert_eq!(kept[2].get_area(), EndpointArea::Wan);

    let without_tunnel = sanitize_reported_endpoints(&reported, None).unwrap();
    assert_eq!(without_tunnel.len(), 2);
}

#[test]
fn unique_static_wan_ipv4_needs_exactly_one_address() {
    let mut wan1 = Endpoint::new(Protocol::Quic, public_addr(1));
    wan1.set_area(EndpointArea::Wan);
    let mut mapped_same = Endpoint::new(Protocol::Tcp, public_addr(2));
    mapped_same.set_area(EndpointArea::Mapped);
    let mut wan_other = Endpoint::new(Protocol::Quic, SocketAddr::v4(8, 8, 8, 8, 3));
    wan_other.set_area(EndpointArea::Wan);
    let lan = Endpoint::new(Protocol::Quic, SocketAddr::v4(10, 0, 0, 1, 4));
    let ip = 119u32 << 24 | 127 << 16 | 198 << 8 | 117;

    assert_eq!(unique_static_wan_ipv4(&[lan, wan1, mapped_same]), Some(ip));
    assert_eq!(unique_static_wan_ipv4(&[wan1, wan_other]), None);
    assert_eq!(unique_static_wan_ipv4(&[lan]), None);
    assert_eq!(unique_static_wan_ipv4(&[]), None);
}

#[test]
fn nat_probe_config_rules() {
    let ip = Some(119u32 << 24 | 127 << 16 | 198 << 8 | 117);
    assert!(validate_nat_probe_config(&[], None).is_ok());
    assert!(validate_nat_probe_config(&[4000, 4001], ip).is_ok());
    assert_eq!(validate_nat_probe_config(&[4000], ip).err().unwrap().code(), P2pErrorCode::InvalidParam);
    assert!(validate_nat_probe_config(&[1, 2, 3, 4, 5, 6, 7, 8], ip).is_ok());
    assert!(validate_nat_probe_config(&[1, 2, 3, 4, 5, 6, 7, 8, 9], ip).is_err());
    assert!(validate_nat_probe_config(&[4000, 0], ip).is_err());
    assert!(validate_nat_probe_config(&[4000, 4000], ip).is_err());
    assert!(validate_nat_probe_config(&[4000, 4001], None).is_err());
    assert!(validate_nat_probe_config(&[4000, 4001], Some(0)).is_err());
    assert!(validate_nat_probe_config(&[4000, 4001], Some(0xffff_ffff)).is_err());
    assert!(validate_nat_probe_config(&[4000, 4001], Some(224 << 24 | 1)).is_err());
}

#[test]
fn advertised_nat_probe_endpoints_are_quic_wan_per_port() {
    let ip: u32 = (203 << 24) | (0 << 16) | (113 << 8) | 7;
    let eps = advertised_nat_probe_endpoints(&[4000, 4001], Some(ip));
    assert_eq!(eps.len(), 2);
    for (ep, port) in eps.iter().zip([4000u16, 4001]) {
        assert_eq!(ep.protocol(), Protocol::Quic);
        assert_eq!(ep.get_area(), EndpointArea::Wan);
        assert_eq!(ep.addr(), SocketAddr::new(IpAddr::V4(ip), port));
    }
    assert!(advertised_nat_probe_endpoints(&[4000, 4001], None).is_empty());
}
