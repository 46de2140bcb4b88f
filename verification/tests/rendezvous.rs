use p2p_frame::endpoint::{Endpoint, EndpointArea, Protocol, SocketAddr};
use p2p_frame::error::P2pErrorCode;
use p2p_frame::sn::protocol::sn::{
    validate_rendezvous_endpoints, SnTunnelRendezvous, SnTunnelRendezvousOperation,
    SnTunnelRendezvousResp, SN_TUNNEL_RENDEZVOUS_RESULT_FAILED, SN_TUNNEL_RENDEZVOUS_RESULT_OK,
};
use p2p_frame::sn::service::rendezvous_state::{
    RendezvousBegin, RendezvousState, MAX_INFLIGHT_WAITERS_PER_ATTEMPT, MAX_LIVE_ATTEMPTS_PER_PAIR,
    MAX_REQUESTS_PER_INITIATOR_WINDOW, MAX_REQUEST_LIFETIME, RATE_WINDOW,
};
use p2p_frame::types::{P2pId, Sequence, TunnelId};

fn id(seed: u8) -> P2pId {
    P2pId::from_bytes(vec![seed; 32])
}

fn wan(protocol: Protocol, port: u16) -> Endpoint {
    let mut ep = Endpoint::new(protocol, SocketAddr::v4(119, 127, 198, 117, port));
    ep.set_area(EndpointArea::Wan);
    ep
}

fn request(seq: u32, tunnel: u32, to: u8, need_predict: bool) -> SnTunnelRendezvous {
    SnTunnelRendezvous {
        seq: Sequence(seq),
        tunnel_id: TunnelId(tunnel),
        to_peer_id: id(to),
        operation: SnTunnelRendezvousOperation::PunchOnly,
        end_point_array: vec![wan(Protocol::Quic, 4000)],
        need_predict_endpoint: need_predict,
    }
}

fn is_new(r: &Result<RendezvousBegin, p2p_frame::error::P2pError>) -> bool {
    matches!(r, Ok(RendezvousBegin::New))
}

fn is_in_flight(r: &Result<RendezvousBegin, p2p_frame::error::P2pError>) -> bool {
    matches!(r, Ok(RendezvousBegin::InFlight))
}

fn err_code(r: &Result<RendezvousBegin, p2p_frame::error::P2pError>) -> Option<P2pErrorCode> {
    match r {
        Err(e) => Some(e.code()),
        Ok(_) => None,
    }
}

#[test]
fn rendezvous_first_request_starts_an_attempt_and_repeats_wait() {
    let mut state = RendezvousState::new();
    let req = request(7, 1, 2, false);
    let (expired, first) = state.begin(&id(1), &req, 1_000);
    assert!(expired.is_empty());
    assert!(is_new(&first));
    let (_, second) = state.begin(&id(1), &req, 2_000);
    assert!(is_in_flight(&second));
}

#[test]
fn rendezvous_answer_is_replayed_to_repeated_requests() {
    let mut state = RendezvousState::new();
    let req = request(7, 1, 2, false);
    let (_, first) = state.begin(&id(1), &req, 1_000);
    assert!(is_new(&first));
    let resp = SnTunnelRendezvousResp::success(Sequence(7), Vec::new());
    assert!(state.cache_response(&id(1), &req, &resp, 2_000).is_ok());
    let (_, again) = state.begin(&id(1), &req, 3_000);
    match again {
        Ok(RendezvousBegin::Cached(cached)) => {
            assert_eq!(cached.seq, Sequence(7));
            assert_eq!(cached.result, SN_TUNNEL_RENDEZVOUS_RESULT_OK);
            assert!(cached.predicted_endpoint_array.is_empty());
        }
        _ => panic!("expected the cached answer"),
    }
}

#[test]
fn rendezvous_predicted_answer_is_replayed_as_failure() {
    let mut state = RendezvousState::new();
    let req = request(9, 3, 2, true);
    let (_, first) = state.begin(&id(1), &req, 1_000);
    assert!(is_new(&first));
    let resp = SnTunnelRendezvousResp::success(Sequence(9), vec![wan(Protocol::Quic, 5000)]);
    assert!(state.cache_response(&id(1), &req, &resp, 2_000).is_ok());
    let (_, again) = state.begin(&id(1), &req, 3_000);
    match again {
        Ok(RendezvousBegin::Cached(cached)) => {
            assert_eq!(cached.seq, Sequence(9));
            assert_eq!(cached.result, SN_TUNNEL_RENDEZVOUS_RESULT_FAILED);
            assert!(cached.predicted_endpoint_array.is_empty());
        }
        _ => panic!("expected the cached failure"),
    }
}

#[test]
fn rendezvous_conflicting_request_under_same_key_is_refused() {
    let mut state = RendezvousState::new();
    let req = request(7, 1, 2, false);
    let _ = state.begin(&id(1), &req, 1_000);
    let other = request(7, 1, 3, false);
    let (_, r) = state.begin(&id(1), &other, 2_000);
    assert_eq!(err_code(&r), Some(P2pErrorCode::Conflict));
    let resp = SnTunnelRendezvousResp::success(Sequence(7), Vec::new());
    let cached = state.cache_response(&id(1), &other, &resp, 2_000);
    assert_eq!(cached.unwrap_err().code(), P2pErrorCode::Conflict);
}

#[test]
fn rendezvous_waiters_are_limited_per_attempt() {
    let mut state = RendezvousState::new();
    let req = request(7, 1, 2, false);
    let _ = state.begin(&id(1), &req, 1_000);
    for _ in 0..MAX_INFLIGHT_WAITERS_PER_ATTEMPT {
        let (_, r) = state.begin(&id(1), &req, 1_000);
        assert!(is_in_flight(&r));
    }
    let (_, r) = state.begin(&id(1), &req, 1_000);
    assert_eq!(err_code(&r), Some(P2pErrorCode::OutOfLimit));
}

#[test]
fn rendezvous_attempts_per_pair_are_limited() {
    let mut state = RendezvousState::new();
    for seq in 1..=MAX_LIVE_ATTEMPTS_PER_PAIR as u32 {
        let (_, r) = state.begin(&id(1), &request(seq, seq, 2, false), 1_000);
        assert!(is_new(&r));
    }
    let (_, r) = state.begin(&id(1), &request(100, 100, 2, false), 1_000);
    assert_eq!(err_code(&r), Some(P2pErrorCode::OutOfLimit));
    let (_, other_target) = state.begin(&id(1), &request(100, 100, 3, false), 1_000);
    assert!(is_new(&other_target));
}

#[test]
fn rendezvous_rate_window_limits_new_attempts_of_one_initiator() {
    let mut state = RendezvousState::new();
    let mut seq: u32 = 1;
    for _ in 0..MAX_REQUESTS_PER_INITIATOR_WINDOW {
        let req = request(seq, seq, 2, false);
        let (_, r) = state.begin(&id(1), &req, 1_000);
        assert!(is_new(&r));
        assert!(state.fail_unanswered(&id(1), &req));
        seq += 1;
    }
    let (_, r) = state.begin(&id(1), &request(seq, seq, 2, false), 1_000);
    assert_eq!(err_code(&r), Some(P2pErrorCode::OutOfLimit));
    let (_, later) = state.begin(&id(1), &request(seq, seq, 2, false), 1_000 + RATE_WINDOW + 1);
    assert!(is_new(&later));
}

#[test]
fn rendezvous_cleanup_reports_expired_attempts() {
    let mut state = RendezvousState::new();
    let req = request(7, 1, 2, false);
    let _ = state.begin(&id(1), &req, 1_000);
    let still = state.cleanup(1_000 + MAX_REQUEST_LIFETIME - 1);
    assert!(still.is_empty());
    let gone = state.cleanup(1_000 + MAX_REQUEST_LIFETIME);
    assert_eq!(gone.len(), 1);
    assert_eq!(gone[0].seq, Sequence(7));
    assert_eq!(gone[0].tunnel_id, TunnelId(1));
    assert!(gone[0].initiator.same_as(&id(1)));
}

#[test]
fn rendezvous_cache_response_errors() {
    let mut state = RendezvousState::new();
    let req = request(7, 1, 2, false);
    let resp = SnTunnelRendezvousResp::success(Sequence(7), Vec::new());
    let unknown = state.cache_response(&id(1), &req, &resp, 1_000);
    assert_eq!(unknown.unwrap_err().code(), P2pErrorCode::NotFound);

    let _ = state.begin(&id(1), &req, 1_000);
    let wrong_seq = SnTunnelRendezvousResp::success(Sequence(8), Vec::new());
    let unmatched = state.cache_response(&id(1), &req, &wrong_seq, 2_000);
    assert_eq!(unmatched.unwrap_err().code(), P2pErrorCode::Unmatch);

    let unasked = SnTunnelRendezvousResp::success(Sequence(7), vec![wan(Protocol::Quic, 5000)]);
    let invalid = state.cache_response(&id(1), &req, &unasked, 2_000);
    assert_eq!(invalid.unwrap_err().code(), P2pErrorCode::InvalidData);

    let expired = state.cache_response(&id(1), &req, &resp, 1_000 + MAX_REQUEST_LIFETIME);
    assert_eq!(expired.unwrap_err().code(), P2pErrorCode::Expired);
    let after = state.cache_response(&id(1), &req, &resp, 1_000 + MAX_REQUEST_LIFETIME);
    assert_eq!(after.unwrap_err().code(), P2pErrorCode::NotFound);
}

#[test]
fn rendezvous_fail_unanswered_drops_only_open_attempts() {
    let mut state = RendezvousState::new();
    let req = request(7, 1, 2, false);
    assert!(!state.fail_unanswered(&id(1), &req));
    let _ = state.begin(&id(1), &req, 1_000);
    let resp = SnTunnelRendezvousResp::failure(Sequence(7));
    assert!(state.cache_response(&id(1), &req, &resp, 1_500).is_ok());
    assert!(!state.fail_unanswered(&id(1), &req));

    let open = request(8, 2, 2, false);
    let _ = state.begin(&id(1), &open, 1_000);
    assert!(state.fail_unanswered(&id(1), &open));
    let (_, again) = state.begin(&id(1), &open, 2_000);
    assert!(is_new(&again));
}

#[test]
fn rendezvous_remove_peer_drops_attempts_from_and_to_it() {
    let mut state = RendezvousState::new();
    let _ = state.begin(&id(1), &request(1, 1, 2, false), 1_000);
    let _ = state.begin(&id(3), &request(2, 2, 1, false), 1_000);
    let _ = state.begin(&id(3), &request(3, 3, 4, false), 1_000);
    let removed = state.remove_peer(&id(1));
    assert_eq!(removed.len(), 2);
    let (_, kept) = state.begin(&id(3), &request(3, 3, 4, false), 1_500);
    assert!(is_in_flight(&kept));
    let (_, fresh) = state.begin(&id(1), &request(1, 1, 2, false), 1_500);
    assert!(is_new(&fresh));
}

#[test]
fn rendezvous_request_validation() {
    let good = request(7, 1, 2, false);
    assert!(good.validate().is_ok());
    let mut zero_seq = request(7, 1, 2, false);
    zero_seq.seq = Sequence(0);
    assert_eq!(zero_seq.validate().unwrap_err().code(), P2pErrorCode::InvalidParam);

    let punch_over_tcp = [wan(Protocol::Tcp, 4000)];
    assert_eq!(
        validate_rendezvous_endpoints(&punch_over_tcp, SnTunnelRendezvousOperation::PunchOnly)
            .unwrap_err()
            .code(),
        P2pErrorCode::InvalidParam
    );
    assert!(validate_rendezvous_endpoints(&punch_over_tcp, SnTunnelRendezvousOperation::ReverseConnectOnly).is_ok());
    assert!(validate_rendezvous_endpoints(&[], SnTunnelRendezvousOperation::WaitIncoming).is_ok());
    assert_eq!(
        validate_rendezvous_endpoints(&[], SnTunnelRendezvousOperation::PunchOnly).unwrap_err().code(),
        P2pErrorCode::InvalidParam
    );
    let duplicate = [wan(Protocol::Quic, 4000), wan(Protocol::Quic, 4000)];
    assert_eq!(
        validate_rendezvous_endpoints(&duplicate, SnTunnelRendezvousOperation::PunchOnly)
            .unwrap_err()
            .code(),
        P2pErrorCode::InvalidParam
    );
    let mut reflexive = wan(Protocol::Quic, 4001);
    reflexive.set_area(EndpointArea::ServerReflexive);
    assert!(validate_rendezvous_endpoints(&[reflexive], SnTunnelRendezvousOperation::PunchOnly).is_ok());
    assert_eq!(
        validate_rendezvous_endpoints(&[reflexive], SnTunnelRendezvousOperation::PunchAndReverseConnect)
            .unwrap_err()
            .code(),
        P2pErrorCode::InvalidParam
    );
    let too_many: Vec<Endpoint> = (1..=9u16).map(|p| wan(Protocol::Quic, p)).collect();
    assert_eq!(
        validate_rendezvous_endpoints(&too_many, SnTunnelRendezvousOperation::PunchOnly)
            .unwrap_err()
            .code(),
        P2pErrorCode::OutOfLimit
    );
}
