use p2p_frame::endpoint::{Endpoint, Protocol, SocketAddr};
use p2p_frame::p2p_identity::P2pIdentityCert;
use p2p_frame::sn::protocol::message::SnCall;
use p2p_frame::sn::protocol::sn::NAT_PROBE_CONTROL_VERSION;
use p2p_frame::sn::protocol::v0::TunnelType;
use p2p_frame::sn::service::call_stub::CallStub;
use p2p_frame::sn::service::nat_probe_scheduler::NatProbeScheduler;
use p2p_frame::sn::service::peer_manager::CachedPeerInfo;
use p2p_frame::sn::service::service::{handle_call_step, CallDecision};
use p2p_frame::types::{P2pId, Sequence, TunnelId};

fn id(seed: u8) -> P2pId {
    P2pId::from_bytes(vec![seed; 32])
}

fn quic(port: u16) -> Endpoint {
    Endpoint::new(Protocol::Quic, SocketAddr::v4(119, 127, 198, 117, port))
}

fn cached(seed: u8) -> CachedPeerInfo {
    CachedPeerInfo::new(P2pIdentityCert::new(id(seed), format!("peer-{}", seed), vec![], vec![seed]), 1)
}

fn call(from: u8, to: u8, tunnel: u32) -> SnCall {
    SnCall {
        protocol_version: 1,
        stack_version: 1,
        seq: Sequence(11),
        tunnel_id: TunnelId(tunnel),
        sn_peer_id: id(99),
        to_peer_id: id(to),
        from_peer_id: id(from),
        reverse_endpoint_array: None,
        active_pn_list: None,
        peer_info: Some(vec![from]),
        send_time: 5_000,
        call_type: TunnelType::Stream,
        payload: vec![],
        is_always_call: false,
        nat_context: None,
    }
}

#[test]
fn call_drops_callee_registration_without_its_tunnel_then_decides() {
    let mut scheduler = NatProbeScheduler::new(id(9));
    scheduler.observe_capable_report(&id(2), 55, quic(4000), Some(NAT_PROBE_CONTROL_VERSION), None, 100);
    assert_eq!(scheduler.authority_tunnel(&id(2)), Some(55));
    let mut stub = CallStub::new(0);
    let from = cached(1);
    let to = cached(2);
    let (decision, outcome) = handle_call_step(
        &mut scheduler,
        &mut stub,
        &id(9),
        &id(1),
        &[],
        None,
        &[56],
        &call(1, 2, 7),
        Some(&from),
        Some(&to),
        true,
        &[],
        200,
    );
    assert!(!outcome.caller_dropped);
    assert!(outcome.callee_dropped);
    assert!(outcome.transition.is_none());
    assert_eq!(scheduler.authority_tunnel(&id(2)), None);
    assert!(matches!(decision, CallDecision::Answer { deliver: true, .. }));
}

#[test]
fn call_keeps_live_callee_and_observes_caller_control() {
    let mut scheduler = NatProbeScheduler::new(id(9));
    scheduler.observe_capable_report(&id(2), 55, quic(4000), Some(NAT_PROBE_CONTROL_VERSION), None, 100);
    let mut stub = CallStub::new(0);
    let to = cached(2);
    let (decision, outcome) = handle_call_step(
        &mut scheduler,
        &mut stub,
        &id(9),
        &id(1),
        &[77],
        Some((77, quic(5000))),
        &[55],
        &call(1, 2, 7),
        None,
        Some(&to),
        true,
        &[],
        200,
    );
    assert!(!outcome.caller_dropped);
    assert!(!outcome.callee_dropped);
    assert!(outcome.transition.is_some());
    assert_eq!(scheduler.authority_tunnel(&id(2)), Some(55));
    assert!(matches!(decision, CallDecision::FromNotFound));
}
