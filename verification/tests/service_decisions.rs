use bucky_time::bucky_time_now;
use p2p_frame::endpoint::{Endpoint, EndpointArea, Protocol, SocketAddr};
use p2p_frame::error::{P2pError, P2pErrorCode};
use p2p_frame::nat_type::{NatMappingObservation, NatProfile};
use p2p_frame::networks::ValidateResult;
use p2p_frame::p2p_identity::{P2pIdentityCert, P2pIdentityCertRef};
use p2p_frame::sn::protocol::message::{ReportSn, SnCall};
use p2p_frame::sn::protocol::v0::TunnelType;
use p2p_frame::sn::service::call_stub::CallStub;
use p2p_frame::sn::service::peer_manager::{CachedPeerInfo, PeerManager};
use p2p_frame::sn::service::service::{
    apply_report_to_peers, build_called, call_answer, check_report_sender,
    client_cert_from_request_or_cache, collect_remote_details, connection_verdict, decide_call,
    decide_relayed_call, effective_local_sn_id, peer_wan_classified_eps, query_answer,
    relay_answer, report_client_cert, validate_context_from_cert, CallDecision, LeaseDetail,
    RelayCallOutcome, RemotePeerDetails, ServingPeerDetail,
};
use p2p_frame::types::{P2pId, Sequence, TunnelId};

fn id(seed: u8) -> P2pId {
    P2pId::from_bytes(vec![seed; 32])
}

fn public(port: u16) -> SocketAddr {
    SocketAddr::v4(119, 127, 198, 117, port)
}

fn lan(port: u16) -> Endpoint {
    Endpoint::new(Protocol::Quic, SocketAddr::v4(192, 168, 1, 2, port))
}

fn wan(port: u16) -> Endpoint {
    let mut ep = Endpoint::new(Protocol::Quic, public(port));
    ep.set_area(EndpointArea::Wan);
    ep
}

fn cert(seed: u8, endpoints: Vec<Endpoint>) -> P2pIdentityCertRef {
    P2pIdentityCert::new(id(seed), format!("peer-{}", seed), endpoints, vec![seed, 0xCE])
}

fn cached(seed: u8, endpoints: Vec<Endpoint>, local_eps: Vec<Endpoint>) -> CachedPeerInfo {
    let mut info = CachedPeerInfo::new(cert(seed, endpoints), 1_000);
    info.update_local_eps(&local_eps);
    info
}

fn call(from: u8, to: u8, tunnel: u32, always: bool) -> SnCall {
    SnCall {
        protocol_version: 1,
        stack_version: 1,
        seq: Sequence(11),
        tunnel_id: TunnelId(tunnel),
        sn_peer_id: id(99),
        to_peer_id: id(to),
        from_peer_id: id(from),
        reverse_endpoint_array: None,
        active_pn_list: None,
        peer_info: Some(vec![from, 0xCE]),
        send_time: 5_000,
        call_type: TunnelType::Stream,
        payload: vec![1, 2, 3],
        is_always_call: always,
        nat_context: None,
    }
}

fn report(from: Option<P2pId>, peer_info: Option<Vec<u8>>) -> ReportSn {
    ReportSn {
        protocol_version: 1,
        stack_version: 1,
        seq: Sequence(3),
        sn_peer_id: id(99),
        from_peer_id: from,
        peer_info,
        send_time: 1,
        contract_id: None,
        receipt: None,
        map_ports: Vec::new(),
        local_eps: Vec::new(),
        net_profile: None,
        nat_probe_control_version: None,
        nat_probe_result: None,
    }
}

#[test]
fn call_from_unknown_peer_is_not_found() {
    let mut stub = CallStub::new(0);
    let to = cached(2, vec![], vec![]);
    let d = decide_call(&mut stub, &call(1, 2, 7, false), None, Some(&to), true, &[], 10);
    assert!(matches!(d, CallDecision::FromNotFound));
    let resp = call_answer(&d, Sequence(11), &id(99), Some(&to)).unwrap();
    assert_eq!(resp.result, P2pErrorCode::NotFound.value());
    assert_eq!(resp.seq, Sequence(11));
    assert!(resp.to_peer_info.is_none());
    assert!(stub.insert(&id(1), &TunnelId(7), 10));
}

#[test]
fn call_to_unknown_peer_is_relayed() {
    let mut stub = CallStub::new(0);
    let from = cached(1, vec![], vec![]);
    let d = decide_call(&mut stub, &call(1, 2, 7, false), Some(&from), None, true, &[], 10);
    assert!(matches!(d, CallDecision::RelayToServingSn));
    assert!(call_answer(&d, Sequence(11), &id(99), None).is_none());
}

#[test]
fn call_without_caller_certificate_is_not_found() {
    let mut stub = CallStub::new(0);
    let from = cached(1, vec![], vec![]);
    let to = cached(2, vec![], vec![]);
    let d = decide_call(&mut stub, &call(1, 2, 7, false), Some(&from), Some(&to), false, &[], 10);
    assert!(matches!(d, CallDecision::NoFromDesc));
    let resp = call_answer(&d, Sequence(11), &id(99), Some(&to)).unwrap();
    assert_eq!(resp.result, P2pErrorCode::NotFound.value());
}

#[test]
fn call_is_delivered_once_to_a_lan_callee() {
    let mut stub = CallStub::new(0);
    let from = cached(1, vec![], vec![lan(3000)]);
    let to = cached(2, vec![lan(4000)], vec![]);
    let observed = [Endpoint::new(Protocol::Quic, public(5000))];
    let first = decide_call(&mut stub, &call(1, 2, 7, false), Some(&from), Some(&to), true, &observed, 10);
    match &first {
        CallDecision::Answer { deliver, reverse_eps } => {
            assert!(*deliver);
            assert_eq!(reverse_eps.len(), 2);
            assert_eq!(reverse_eps[0].addr(), public(5000));
            assert_eq!(reverse_eps[0].get_area(), EndpointArea::ServerReflexive);
            assert_eq!(reverse_eps[1], lan(3000));
        }
        _ => panic!("expected an answer"),
    }
    let resp = call_answer(&first, Sequence(11), &id(99), Some(&to)).unwrap();
    assert_eq!(resp.result, P2pErrorCode::Success.value());
    assert_eq!(resp.to_peer_info, Some(vec![2, 0xCE]));
    assert!(resp.sn_peer_id.same_as(&id(99)));

    let again = decide_call(&mut stub, &call(1, 2, 7, false), Some(&from), Some(&to), true, &observed, 20);
    assert!(matches!(again, CallDecision::Answer { deliver: false, .. }));
}

#[test]
fn call_to_wan_callee_is_delivered_only_when_insisted() {
    let mut stub = CallStub::new(0);
    let from = cached(1, vec![], vec![]);
    let to = cached(2, vec![wan(4000)], vec![]);
    assert!(to.is_wan);
    let plain = decide_call(&mut stub, &call(1, 2, 7, false), Some(&from), Some(&to), true, &[], 10);
    assert!(matches!(plain, CallDecision::Answer { deliver: false, .. }));
    let insisting = decide_call(&mut stub, &call(1, 2, 8, true), Some(&from), Some(&to), true, &[], 10);
    assert!(matches!(insisting, CallDecision::Answer { deliver: true, .. }));
}

#[test]
fn called_carries_the_call_and_merged_reverse_endpoints() {
    let mut req = call(1, 2, 7, false);
    req.reverse_endpoint_array = Some(vec![lan(3000), lan(3000), wan(3001)]);
    req.active_pn_list = Some(vec![id(5)]);
    let found = vec![wan(3001), lan(3002)];
    let called = build_called(req, &id(99), vec![1, 0xCE], &found, Sequence(42));
    assert_eq!(called.seq, Sequence(42));
    assert!(called.sn_peer_id.same_as(&id(99)));
    assert!(called.to_peer_id.same_as(&id(2)));
    assert_eq!(called.peer_info, vec![1, 0xCE]);
    assert_eq!(called.tunnel_id, TunnelId(7));
    assert_eq!(called.call_send_time, 5_000);
    assert_eq!(called.call_type, TunnelType::Stream);
    assert_eq!(called.payload, vec![1, 2, 3]);
    assert_eq!(called.reverse_endpoint_array, vec![lan(3000), wan(3001), lan(3002)]);
    assert_eq!(called.active_pn_list.len(), 1);
    assert!(called.active_pn_list[0].same_as(&id(5)));
}

#[test]
fn relayed_call_decisions() {
    let mut stub = CallStub::new(0);
    let to = cached(2, vec![], vec![]);
    let (deliver, unknown) = decide_relayed_call(&mut stub, &call(1, 2, 7, false), None, 10);
    assert!(!deliver);
    assert!(!unknown.accepted);
    assert!(relay_answer(Sequence(11), &id(99), unknown).is_none());

    let mut no_cert = call(1, 2, 7, false);
    no_cert.peer_info = None;
    let (deliver, refused) = decide_relayed_call(&mut stub, &no_cert, Some(&to), 10);
    assert!(!deliver);
    assert!(!refused.accepted);
    assert_eq!(refused.to_peer_info, Some(vec![2, 0xCE]));

    let (deliver, taken) = decide_relayed_call(&mut stub, &call(1, 2, 7, false), Some(&to), 10);
    assert!(deliver);
    assert!(taken.accepted);
    let resp = relay_answer(Sequence(11), &id(98), taken).unwrap();
    assert_eq!(resp.result, P2pErrorCode::Success.value());
    assert!(resp.sn_peer_id.same_as(&id(98)));
    assert_eq!(resp.to_peer_info, Some(vec![2, 0xCE]));

    let (deliver, repeat) = decide_relayed_call(&mut stub, &call(1, 2, 7, false), Some(&to), 11);
    assert!(!deliver);
    assert!(repeat.accepted);
    let _ = RelayCallOutcome { accepted: false, to_peer_info: None };
}

#[test]
fn report_checks() {
    let with_cert = report(Some(id(1)), Some(vec![1, 0xCE]));
    assert_eq!(report_client_cert(&with_cert).unwrap(), vec![1, 0xCE]);
    let without = report(None, None);
    assert_eq!(report_client_cert(&without).unwrap_err().code(), P2pErrorCode::PermissionDenied);

    assert!(check_report_sender(&with_cert, &id(1)).is_ok());
    assert_eq!(
        check_report_sender(&with_cert, &id(2)).unwrap_err().code(),
        P2pErrorCode::PermissionDenied
    );
    assert!(check_report_sender(&without, &id(2)).is_ok());
}

#[test]
fn connection_verdicts() {
    assert!(connection_verdict(Ok(ValidateResult::Accept)).is_ok());
    assert_eq!(
        connection_verdict(Ok(ValidateResult::Reject("no".to_owned()))).unwrap_err().code(),
        P2pErrorCode::PermissionDenied
    );
    assert_eq!(
        connection_verdict(Err(P2pError::new(P2pErrorCode::Interrupted))).unwrap_err().code(),
        P2pErrorCode::Interrupted
    );
}

#[test]
fn validate_context_requires_the_peers_own_certificate() {
    let ctx = validate_context_from_cert(&id(1), Ok(id(1)), vec![7]).unwrap();
    assert!(ctx.client_id.same_as(&id(1)));
    assert_eq!(ctx.client_cert, vec![7]);
    let other = validate_context_from_cert(&id(1), Ok(id(2)), vec![7]);
    assert_eq!(other.err().unwrap().code(), P2pErrorCode::PermissionDenied);
    let broken = validate_context_from_cert(&id(1), Err(P2pError::new(P2pErrorCode::InvalidData)), vec![7]);
    assert_eq!(broken.err().unwrap().code(), P2pErrorCode::InvalidData);
}

#[test]
fn client_cert_comes_from_request_then_cache() {
    let mut peers = PeerManager::new();
    assert_eq!(
        client_cert_from_request_or_cache(&peers, &id(1), Some(vec![9])).unwrap(),
        vec![9]
    );
    assert_eq!(
        client_cert_from_request_or_cache(&peers, &id(1), None).unwrap_err().code(),
        P2pErrorCode::PermissionDenied
    );
    peers.add_peer_info(id(1), cert(1, vec![]), bucky_time_now());
    assert_eq!(
        client_cert_from_request_or_cache(&peers, &id(1), None).unwrap(),
        vec![1, 0xCE]
    );
}

#[test]
fn local_sn_id_prefers_the_configured_one() {
    assert!(effective_local_sn_id(&Some(id(5)), &id(6)).same_as(&id(5)));
    assert!(effective_local_sn_id(&None, &id(6)).same_as(&id(6)));
}

#[test]
fn report_updates_the_peer_cache_with_sanitized_endpoints() {
    let mut peers = PeerManager::new();
    let desc = Some(cert(1, vec![]));
    let tunnel = Endpoint::new(Protocol::Quic, public(6000));
    let local = vec![lan(3000), lan(3000)];
    let reported = apply_report_to_peers(
        &mut peers,
        &id(1),
        &desc,
        vec![(Protocol::Tcp, 8080)],
        &local,
        Some(&tunnel),
        1_000,
    )
    .unwrap();
    let entry = peers.find_peer(&id(1)).unwrap();
    assert_eq!(entry.local_eps, reported);
    assert_eq!(entry.map_ports, vec![(Protocol::Tcp, 8080)]);
    assert_eq!(entry.last_send_time, 1_000);

    let too_many: Vec<Endpoint> = (1..=40u16).map(lan).collect();
    let refused = apply_report_to_peers(&mut peers, &id(2), &desc, Vec::new(), &too_many, None, 1_000);
    assert_eq!(refused.unwrap_err().code(), P2pErrorCode::OutOfLimit);
    assert!(peers.find_peer(&id(2)).is_none());
}

#[test]
fn observed_endpoints_classified_against_reports() {
    let observed = [
        Endpoint::new(Protocol::Quic, public(5000)),
        Endpoint::new(Protocol::Tcp, public(5001)),
    ];
    let reported = [Endpoint::new(Protocol::Quic, public(5000))];
    let eps = peer_wan_classified_eps(&observed, &reported);
    assert_eq!(eps.len(), 1);
    assert_eq!(eps[0].addr(), public(5000));
    assert_eq!(eps[0].get_area(), EndpointArea::Wan);
}

fn profile(valid_until: u64) -> NatProfile {
    NatProfile { version: 1, observation: NatMappingObservation::EndpointIndependent, valid_until }
}

fn detail(seed: u8, port: u16, version: Option<u8>) -> ServingPeerDetail {
    ServingPeerDetail {
        peer_info: vec![seed],
        endpoints: vec![wan(port)],
        net_profile: Some(profile(seed as u64)),
        target_protocol_version: version,
    }
}

#[test]
fn remote_details_agree_on_a_version_only_when_all_report_it() {
    let agreed = collect_remote_details(vec![
        LeaseDetail::Found(detail(1, 7000, Some(3))),
        LeaseDetail::Found(detail(2, 7001, Some(3))),
    ]);
    assert_eq!(agreed.details.len(), 2);
    assert_eq!(agreed.target_protocol_version, Some(3));

    let split = collect_remote_details(vec![
        LeaseDetail::Found(detail(1, 7000, Some(3))),
        LeaseDetail::Found(detail(2, 7001, Some(4))),
    ]);
    assert_eq!(split.target_protocol_version, None);

    let partial = collect_remote_details(vec![
        LeaseDetail::OwnLease,
        LeaseDetail::Found(detail(2, 7001, Some(3))),
        LeaseDetail::Unavailable,
    ]);
    assert_eq!(partial.details.len(), 1);
    assert_eq!(partial.details[0].peer_info, vec![2]);
    assert_eq!(partial.target_protocol_version, None);

    let none = collect_remote_details(Vec::new());
    assert!(none.details.is_empty());
    assert_eq!(none.target_protocol_version, None);
}

#[test]
fn query_of_a_cached_peer() {
    let device = cached(1, vec![], vec![lan(3000)]);
    let remote = RemotePeerDetails { details: vec![detail(2, 7001, Some(3))], target_protocol_version: Some(3) };
    let observed = [Endpoint::new(Protocol::Quic, public(5000))];
    let resp = query_answer(Sequence(4), Some(&device), &observed, Some(profile(10)), Some(2), remote);
    assert_eq!(resp.seq, Sequence(4));
    assert_eq!(resp.peer_info, Some(vec![1, 0xCE]));
    assert_eq!(
        resp.end_point_array,
        vec![Endpoint::new(Protocol::Quic, public(5000)), lan(3000), wan(7001)]
    );
    assert_eq!(resp.net_profile, Some(profile(10)));
    assert_eq!(resp.target_protocol_version, Some(2));
}

#[test]
fn query_of_a_peer_served_elsewhere_or_unknown() {
    let remote = RemotePeerDetails {
        details: vec![detail(2, 7001, Some(3)), detail(3, 7001, Some(3))],
        target_protocol_version: Some(3),
    };
    let resp = query_answer(Sequence(4), None, &[], None, None, remote);
    assert_eq!(resp.peer_info, Some(vec![2]));
    assert_eq!(resp.end_point_array, vec![wan(7001)]);
    assert_eq!(resp.net_profile, Some(profile(2)));
    assert_eq!(resp.target_protocol_version, Some(3));

    let empty = RemotePeerDetails { details: Vec::new(), target_protocol_version: None };
    let unknown = query_answer(Sequence(5), None, &[], Some(profile(1)), Some(1), empty);
    assert!(unknown.peer_info.is_none());
    assert!(unknown.end_point_array.is_empty());
    assert!(unknown.net_profile.is_none());
    assert!(unknown.target_protocol_version.is_none());
}
