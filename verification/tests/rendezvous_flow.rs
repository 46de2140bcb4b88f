use p2p_frame::endpoint::{Endpoint, EndpointArea, IpAddr, Protocol, SocketAddr};
use p2p_frame::error::{P2pError, P2pErrorCode};
use p2p_frame::nat_type::{NatMappingObservation, NatProfile};
use p2p_frame::p2p_identity::P2pIdentityCert;
use p2p_frame::sn::protocol::sn::{
    SnTunnelRendezvous, SnTunnelRendezvousOperation, SnTunnelRendezvousResp,
    SN_TUNNEL_RENDEZVOUS_RESULT_FAILED, SN_TUNNEL_RENDEZVOUS_RESULT_OK,
};
use p2p_frame::sn::service::nat_probe_scheduler::NatProbeScheduler;
use p2p_frame::sn::service::peer_manager::CachedPeerInfo;
use p2p_frame::sn::service::rendezvous::{
    accept_rendezvous_response, build_rendezvous_notify, check_rendezvous_cmd_version, finish_rendezvous,
    inflight_rendezvous_answer, observed_remotes, relay_rendezvous_outcome,
    rendezvous_endpoints_owned_by, rendezvous_request_admissible, rendezvous_step,
    validate_rendezvous_response_owner, RendezvousStep,
};
use p2p_frame::sn::service::rendezvous_state::{RendezvousBegin, RendezvousState};
use p2p_frame::sn::service::service::local_peer_detail;
use p2p_frame::stream::stream_manager::{accept_outcome, push_accepted_outcome, ChannelSend};
use p2p_frame::types::{P2pId, Sequence, TunnelId};

fn id(seed: u8) -> P2pId {
    P2pId::from_bytes(vec![seed; 32])
}

fn wan(a: u8, port: u16) -> Endpoint {
    let mut ep = Endpoint::new(Protocol::Quic, SocketAddr::v4(119, 127, 198, a, port));
    ep.set_area(EndpointArea::Wan);
    ep
}

fn request(seq: u32, need_predict: bool) -> SnTunnelRendezvous {
    SnTunnelRendezvous {
        seq: Sequence(seq),
        tunnel_id: TunnelId(4),
        to_peer_id: id(2),
        operation: SnTunnelRendezvousOperation::PunchOnly,
        end_point_array: vec![wan(1, 4000)],
        need_predict_endpoint: need_predict,
    }
}

#[test]
fn observed_remotes_skip_loopback_and_repeats() {
    let loopback = Endpoint::new(Protocol::Quic, SocketAddr::v4(127, 0, 0, 1, 5000));
    let v6_loopback = Endpoint::new(Protocol::Quic, SocketAddr::new(IpAddr::V6(1), 5000));
    let remotes = [wan(1, 5000), loopback, wan(1, 5000), v6_loopback, wan(2, 5000)];
    assert_eq!(observed_remotes(&remotes), vec![wan(1, 5000), wan(2, 5000)]);
    assert!(loopback.is_loopback());
    assert!(!wan(1, 5000).is_loopback());
}

#[test]
fn rendezvous_endpoints_must_be_on_the_tunnel_address() {
    assert!(rendezvous_endpoints_owned_by(&[], None));
    assert!(!rendezvous_endpoints_owned_by(&[wan(1, 4000)], None));
    assert!(rendezvous_endpoints_owned_by(&[wan(1, 4000), wan(1, 4001)], Some(wan(1, 9000))));
    assert!(!rendezvous_endpoints_owned_by(&[wan(1, 4000), wan(2, 4001)], Some(wan(1, 9000))));
}

#[test]
fn rendezvous_response_may_only_predict_observed_addresses() {
    let none = SnTunnelRendezvousResp::success(Sequence(1), Vec::new());
    assert!(validate_rendezvous_response_owner(&none, &[]).is_ok());
    let predicted = SnTunnelRendezvousResp::success(Sequence(1), vec![wan(1, 4000)]);
    assert_eq!(
        validate_rendezvous_response_owner(&predicted, &[]).unwrap_err().code(),
        P2pErrorCode::PermissionDenied
    );
    assert!(validate_rendezvous_response_owner(&predicted, &[wan(2, 1), wan(1, 7)]).is_ok());
    assert_eq!(
        validate_rendezvous_response_owner(&predicted, &[wan(2, 1)]).unwrap_err().code(),
        P2pErrorCode::PermissionDenied
    );
}

#[test]
fn rendezvous_target_answers_are_checked() {
    let req = request(5, true);
    let notify = build_rendezvous_notify(&req, &vec![1, 2]);
    assert_eq!(notify.seq, Sequence(5));
    assert_eq!(notify.peer_info, vec![1, 2]);
    assert!(notify.validate().is_ok());
    let good = SnTunnelRendezvousResp::success(Sequence(5), vec![wan(3, 4000)]);
    assert!(accept_rendezvous_response(good, &notify, &[wan(3, 1)]).is_ok());
    let stranger = SnTunnelRendezvousResp::success(Sequence(5), vec![wan(3, 4000)]);
    assert_eq!(
        accept_rendezvous_response(stranger, &notify, &[wan(4, 1)]).unwrap_err().code(),
        P2pErrorCode::PermissionDenied
    );
    let wrong_seq = SnTunnelRendezvousResp::success(Sequence(6), vec![wan(3, 4000)]);
    assert_eq!(
        accept_rendezvous_response(wrong_seq, &notify, &[wan(3, 1)]).unwrap_err().code(),
        P2pErrorCode::Unmatch
    );
    assert!(relay_rendezvous_outcome(&notify, Err(P2pError::new(P2pErrorCode::NotFound))).is_none());
    let relayed = relay_rendezvous_outcome(&notify, Ok(SnTunnelRendezvousResp::failure(Sequence(5))));
    assert!(matches!(relayed, Some(Ok(_))));
    let invalid = relay_rendezvous_outcome(&notify, Ok(SnTunnelRendezvousResp::failure(Sequence(9))));
    assert_eq!(invalid.unwrap().unwrap_err().code(), P2pErrorCode::Unmatch);
}

#[test]
fn rendezvous_requests_to_oneself_are_refused() {
    let req = request(5, false);
    assert!(rendezvous_request_admissible(&req, &id(1)));
    assert!(!rendezvous_request_admissible(&req, &id(2)));
    let mut invalid = request(5, false);
    invalid.seq = Sequence(0);
    assert!(!rendezvous_request_admissible(&invalid, &id(1)));
}

#[test]
fn rendezvous_steps_follow_the_begin_answer() {
    assert!(matches!(rendezvous_step(Ok(RendezvousBegin::New), Sequence(1)), RendezvousStep::Run));
    assert!(matches!(rendezvous_step(Ok(RendezvousBegin::InFlight), Sequence(1)), RendezvousStep::Wait));
    match rendezvous_step(Err(P2pError::new(P2pErrorCode::OutOfLimit)), Sequence(3)) {
        RendezvousStep::Reply(r) => {
            assert_eq!(r.seq, Sequence(3));
            assert_eq!(r.result, SN_TUNNEL_RENDEZVOUS_RESULT_FAILED);
        }
        _ => panic!("a refused request is answered"),
    }
    let cached = SnTunnelRendezvousResp::success(Sequence(1), Vec::new());
    match rendezvous_step(Ok(RendezvousBegin::Cached(cached)), Sequence(1)) {
        RendezvousStep::Reply(r) => assert_eq!(r.result, SN_TUNNEL_RENDEZVOUS_RESULT_OK),
        _ => panic!("a cached answer is repeated"),
    }
    let waited = inflight_rendezvous_answer(Some(Ok(SnTunnelRendezvousResp::success(Sequence(1), Vec::new()))), Sequence(1));
    assert_eq!(waited.result, SN_TUNNEL_RENDEZVOUS_RESULT_OK);
    let timed_out = inflight_rendezvous_answer(None, Sequence(1));
    assert_eq!(timed_out.result, SN_TUNNEL_RENDEZVOUS_RESULT_FAILED);
}

#[test]
fn finished_attempt_answers_leader_and_waiters() {
    let mut state = RendezvousState::new();
    let req = request(5, true);
    let _ = state.begin(&id(1), &req, 1_000);
    let _ = state.begin(&id(1), &req, 1_000);
    let resp = SnTunnelRendezvousResp::success(Sequence(5), vec![wan(3, 4000)]);
    let (answer, waiters) = finish_rendezvous(&mut state, &id(1), &req, Some(Ok(resp)), 2_000);
    assert_eq!(answer.result, SN_TUNNEL_RENDEZVOUS_RESULT_OK);
    let told = waiters.unwrap().unwrap();
    assert_eq!(told.predicted_endpoint_array, vec![wan(3, 4000)]);
    match state.begin(&id(1), &req, 3_000).1 {
        Ok(RendezvousBegin::Cached(c)) => assert_eq!(c.result, SN_TUNNEL_RENDEZVOUS_RESULT_FAILED),
        _ => panic!("a predicted answer is replayed as a failure"),
    }
}

#[test]
fn failed_attempt_fails_its_waiters() {
    let mut state = RendezvousState::new();
    let req = request(6, false);
    let _ = state.begin(&id(1), &req, 1_000);
    let (answer, waiters) = finish_rendezvous(&mut state, &id(1), &req, None, 2_000);
    assert_eq!(answer.result, SN_TUNNEL_RENDEZVOUS_RESULT_FAILED);
    assert_eq!(waiters.unwrap().unwrap_err().code(), P2pErrorCode::NetworkError);
    assert!(matches!(state.begin(&id(1), &req, 3_000).1, Ok(RendezvousBegin::New)));

    let late = request(7, false);
    let _ = state.begin(&id(1), &late, 1_000);
    let resp = SnTunnelRendezvousResp::success(Sequence(7), Vec::new());
    let (answer, waiters) = finish_rendezvous(&mut state, &id(1), &late, Some(Ok(resp)), 1_000 + 30_000_000);
    assert_eq!(answer.result, SN_TUNNEL_RENDEZVOUS_RESULT_FAILED);
    assert_eq!(waiters.unwrap().unwrap_err().code(), P2pErrorCode::Expired);
}

#[test]
fn authority_is_dropped_when_its_tunnel_is_gone() {
    let mut s = NatProbeScheduler::new(id(9));
    s.observe_control(&id(1), 77, wan(1, 4000), 1_000);
    assert!(!s.reconcile_authority(&id(1), &[5, 77]));
    assert_eq!(s.authority_tunnel(&id(1)), Some(77));
    assert!(!s.reconcile_authority(&id(2), &[]));
    assert!(s.reconcile_authority(&id(1), &[5]));
    assert_eq!(s.authority_tunnel(&id(1)), None);
}

#[test]
fn local_detail_of_a_served_peer() {
    assert!(local_peer_detail(None, None, None).is_none());
    let cert = P2pIdentityCert::new(id(1), "p".to_owned(), vec![wan(1, 1), wan(1, 1)], vec![4, 2]);
    let mut info = CachedPeerInfo::new(cert, 10);
    info.update_local_eps(&vec![wan(1, 1), wan(1, 2)]);
    let profile = NatProfile { version: 1, observation: NatMappingObservation::Unknown, valid_until: 5 };
    let d = local_peer_detail(Some(&info), Some(profile), Some(1)).unwrap();
    assert_eq!(d.peer_info, vec![4, 2]);
    assert_eq!(d.endpoints, vec![wan(1, 1), wan(1, 2)]);
    assert_eq!(d.net_profile, Some(profile));
    assert_eq!(d.target_protocol_version, Some(1));
}

#[test]
fn stream_listener_outcomes() {
    assert!(push_accepted_outcome(false, ChannelSend::Sent).is_ok());
    assert_eq!(push_accepted_outcome(false, ChannelSend::Full).unwrap_err().code(), P2pErrorCode::OutOfLimit);
    assert_eq!(push_accepted_outcome(false, ChannelSend::Closed).unwrap_err().code(), P2pErrorCode::Interrupted);
    assert_eq!(push_accepted_outcome(true, ChannelSend::Sent).unwrap_err().code(), P2pErrorCode::UserCanceled);
    assert_eq!(accept_outcome(false, Some(3u8)), Ok(3u8));
    assert_eq!(accept_outcome(false, None::<u8>).unwrap_err().code(), P2pErrorCode::Interrupted);
    assert_eq!(accept_outcome(true, Some(3u8)).unwrap_err().code(), P2pErrorCode::UserCanceled);
}

#[test]
fn rendezvous_commands_need_their_version() {
    assert!(check_rendezvous_cmd_version(1).is_ok());
    assert_eq!(check_rendezvous_cmd_version(2).unwrap_err().code(), P2pErrorCode::InvalidParam);
}
