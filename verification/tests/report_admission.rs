use p2p_frame::endpoint::{Endpoint, Protocol, SocketAddr};
use p2p_frame::error::{P2pError, P2pErrorCode, P2pResult};
use p2p_frame::networks::ValidateResult;
use p2p_frame::p2p_identity::{P2pIdentityCert, P2pIdentityCertRef};
use p2p_frame::sn::protocol::message::ReportSn;
use p2p_frame::sn::service::peer_manager::PeerManager;
use p2p_frame::sn::service::service::{admit_report, report_validate_context};
use p2p_frame::types::{P2pId, Sequence};

fn pid(seed: u8) -> P2pId {
    P2pId::from_bytes(vec![seed; 32])
}

fn cert_of(seed: u8) -> P2pResult<P2pIdentityCertRef> {
    Ok(P2pIdentityCert::new(pid(seed), format!("peer-{}", seed), vec![], vec![seed; 32]))
}

fn test_report(from_peer_id: P2pId, client_cert: Vec<u8>) -> ReportSn {
    ReportSn {
        protocol_version: 0,
        stack_version: 0,
        seq: Sequence(1),
        sn_peer_id: pid(9),
        from_peer_id: Some(from_peer_id),
        peer_info: Some(client_cert),
        send_time: 0,
        contract_id: None,
        receipt: None,
        map_ports: vec![],
        local_eps: vec![],
        net_profile: None,
        nat_probe_control_version: Some(1),
        nat_probe_result: None,
    }
}

#[test]
fn sn_service_rejects_report_when_validator_rejects() {
    let mut peers = PeerManager::new();
    let reported_peer = pid(8);
    let client_peer = pid(3);
    let report = test_report(reported_peer.clone(), vec![3u8; 32]);

    let ctx = report_validate_context(&report, &client_peer, &cert_of(3)).unwrap();
    assert_eq!(ctx.client_id, client_peer);
    assert_eq!(ctx.client_cert, vec![3u8; 32]);

    let err = admit_report(
        &mut peers,
        &report,
        &client_peer,
        cert_of(3),
        Ok(ValidateResult::Reject("blocked-by-test".to_owned())),
        None,
        1_000,
    )
    .unwrap_err();
    assert_eq!(err.code(), P2pErrorCode::PermissionDenied);
    assert!(peers.find_peer(&reported_peer).is_none());
    assert!(peers.find_peer(&client_peer).is_none());
}

#[test]
fn sn_service_rejects_report_when_client_cert_mismatches_peer_id() {
    let mut peers = PeerManager::new();
    let reported_peer = pid(8);
    let client_peer = pid(3);
    let report = test_report(reported_peer.clone(), vec![4u8; 32]);

    // No context is made, so the validator is never asked.
    let ctx = report_validate_context(&report, &client_peer, &cert_of(4));
    assert_eq!(ctx.err().map(|e| e.code()), Some(P2pErrorCode::PermissionDenied));

    let err = admit_report(
        &mut peers,
        &report,
        &client_peer,
        cert_of(4),
        Ok(ValidateResult::Accept),
        None,
        1_000,
    )
    .unwrap_err();
    assert_eq!(err.code(), P2pErrorCode::PermissionDenied);
    assert!(peers.find_peer(&reported_peer).is_none());
    assert!(peers.find_peer(&client_peer).is_none());
}

#[test]
fn report_without_certificate_is_denied() {
    let mut peers = PeerManager::new();
    let mut report = test_report(pid(3), vec![3u8; 32]);
    report.peer_info = None;
    let err = admit_report(&mut peers, &report, &pid(3), cert_of(3), Ok(ValidateResult::Accept), None, 1)
        .unwrap_err();
    assert_eq!(err.code(), P2pErrorCode::PermissionDenied);
    assert!(peers.find_peer(&pid(3)).is_none());
}

#[test]
fn report_with_unparsable_certificate_keeps_the_parse_error() {
    let mut peers = PeerManager::new();
    let report = test_report(pid(3), vec![3u8; 32]);
    let err = admit_report(
        &mut peers,
        &report,
        &pid(3),
        Err(P2pError::new(P2pErrorCode::CertError)),
        Ok(ValidateResult::Accept),
        None,
        1,
    )
    .unwrap_err();
    assert_eq!(err.code(), P2pErrorCode::CertError);
    assert!(peers.find_peer(&pid(3)).is_none());
}

#[test]
fn report_failing_validator_keeps_its_error() {
    let mut peers = PeerManager::new();
    let report = test_report(pid(3), vec![3u8; 32]);
    let err = admit_report(
        &mut peers,
        &report,
        &pid(3),
        cert_of(3),
        Err(P2pError::new(P2pErrorCode::Interrupted)),
        None,
        1,
    )
    .unwrap_err();
    assert_eq!(err.code(), P2pErrorCode::Interrupted);
    assert!(peers.find_peer(&pid(3)).is_none());
}

#[test]
fn report_naming_another_sender_is_denied() {
    let mut peers = PeerManager::new();
    let report = test_report(pid(8), vec![3u8; 32]);
    let err = admit_report(&mut peers, &report, &pid(3), cert_of(3), Ok(ValidateResult::Accept), None, 1)
        .unwrap_err();
    assert_eq!(err.code(), P2pErrorCode::PermissionDenied);
    assert!(peers.find_peer(&pid(3)).is_none());
    assert!(peers.find_peer(&pid(8)).is_none());
}

#[test]
fn admitted_report_is_cached_under_the_authenticated_peer() {
    let mut peers = PeerManager::new();
    let mut report = test_report(pid(3), vec![3u8; 32]);
    report.map_ports = vec![(Protocol::Tcp, 4000)];
    report.local_eps = vec![Endpoint::new(Protocol::Quic, SocketAddr::v4(192, 168, 1, 2, 3000))];
    let reported =
        admit_report(&mut peers, &report, &pid(3), cert_of(3), Ok(ValidateResult::Accept), None, 7)
            .unwrap();
    assert_eq!(reported.len(), 1);
    let cached = peers.find_peer(&pid(3)).unwrap();
    assert_eq!(cached.map_ports, vec![(Protocol::Tcp, 4000)]);
    assert_eq!(cached.local_eps.len(), 1);
}
