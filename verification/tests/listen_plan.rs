use p2p_frame::endpoint::{Endpoint, EndpointArea, IpAddr, Protocol, SocketAddr};
use p2p_frame::error::P2pErrorCode;
use p2p_frame::sockets::net_manager::listen_plan;

fn ep(protocol: Protocol, a: u8, port: u16, area: EndpointArea) -> Endpoint {
    let mut e = Endpoint::new(protocol, SocketAddr::v4(192, 168, 1, a, port));
    e.set_area(area);
    e
}

#[test]
fn listen_plan_pairs_mapped_endpoints_and_takes_port_mappings() {
    let mapped = ep(Protocol::Quic, 9, 5000, EndpointArea::Mapped);
    let quic_lan = ep(Protocol::Quic, 2, 5000, EndpointArea::Lan);
    let tcp_lan = ep(Protocol::Tcp, 2, 6000, EndpointArea::Lan);
    let trailing = ep(Protocol::Tcp, 9, 6000, EndpointArea::Mapped);
    let mapping = vec![(tcp_lan, 8000), (mapped, 7000), (tcp_lan, 9000)];
    let plans = listen_plan(
        &[mapped, quic_lan, tcp_lan, trailing],
        Some(mapping),
        &[Protocol::Quic, Protocol::Tcp],
    )
    .unwrap();
    assert_eq!(plans.len(), 2);
    assert_eq!(plans[0].local, quic_lan);
    assert_eq!(plans[0].outer, Some(mapped));
    assert_eq!(plans[0].mapping_port, Some(7000));
    assert_eq!(plans[1].local, tcp_lan);
    assert_eq!(plans[1].outer, None);
    assert_eq!(plans[1].mapping_port, Some(8000));
}

#[test]
fn listen_plan_skips_what_cannot_listen() {
    let mapped = ep(Protocol::Quic, 9, 5000, EndpointArea::Mapped);
    let wan = ep(Protocol::Quic, 3, 5000, EndpointArea::Wan);
    let v6 = Endpoint::new(Protocol::Quic, SocketAddr::new(IpAddr::V6(5), 5000));
    let tcp_lan = ep(Protocol::Tcp, 2, 6000, EndpointArea::Lan);
    let quic_lan = ep(Protocol::Quic, 2, 5001, EndpointArea::Lan);
    let plans = listen_plan(
        &[mapped, wan, mapped, v6, tcp_lan, quic_lan],
        None,
        &[Protocol::Quic],
    )
    .unwrap();
    assert_eq!(plans.len(), 1);
    assert_eq!(plans[0].local, quic_lan);
    assert_eq!(plans[0].mapping_port, None);
    assert_eq!(listen_plan(&[], None, &[Protocol::Quic]).unwrap_err().code(), P2pErrorCode::InvalidParam);
}
