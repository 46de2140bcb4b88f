use p2p_frame::endpoint::{Endpoint, Protocol, SocketAddr};
use p2p_frame::nat_type::{NatMappingObservation, NatProfile};
use p2p_frame::sn::protocol::sn::{NatProbeDirective, NatProbeResult, NAT_PROBE_CONTROL_VERSION};
use p2p_frame::sn::service::nat_probe_scheduler::{
    duration_to_bucky_time, NatProbeAuthorityRemovalReason, NatProbeResultRejectReason,
    NatProbeScheduler, NatProbeTriggerReason, NAT_PROBE_DIRECTIVE_TIMEOUT, NAT_PROBE_PERIOD,
};
use p2p_frame::types::P2pId;

fn id(seed: u8) -> P2pId {
    P2pId::from_bytes(vec![seed; 32])
}

fn quic(port: u16) -> Endpoint {
    Endpoint::new(Protocol::Quic, SocketAddr::v4(119, 127, 198, 117, port))
}

fn result_for(d: &NatProbeDirective, observation: NatMappingObservation, valid_until: u64) -> NatProbeResult {
    NatProbeResult {
        version: d.version,
        sn_peer_id: d.sn_peer_id.clone(),
        peer_id: d.peer_id.clone(),
        registration_generation: d.registration_generation,
        request_id: d.request_id,
        probe_config_generation: d.probe_config_generation,
        profile: NatProfile { version: 1, observation, valid_until },
    }
}

#[test]
fn probe_ports_are_sorted_and_checked() {
    let mut s = NatProbeScheduler::new(id(9));
    assert!(s.ports().is_empty());
    assert!(s.set_ports(vec![3000, 2000]).is_empty());
    assert_eq!(s.ports(), &[2000, 3000]);
    assert!(s.set_ports(vec![2000, 3000]).is_empty());
    assert!(s.set_ports(vec![4000]).is_empty());
    assert!(s.ports().is_empty());
    assert!(s.set_ports(vec![5000, 5000]).is_empty());
    assert!(s.ports().is_empty());
}

#[test]
fn capable_report_issues_a_directive_once_ports_are_set() {
    let mut s = NatProbeScheduler::new(id(9));
    let first = s.observe_capable_report(&id(1), 77, quic(4000), Some(NAT_PROBE_CONTROL_VERSION), None, 1_000);
    assert!(first.directive.is_none());
    assert_eq!(first.profile_update, Some(None));
    assert_eq!(s.authority_tunnel(&id(1)), Some(77));

    let mut s = NatProbeScheduler::new(id(9));
    s.set_ports(vec![2000, 3000]);
    let t = s.observe_capable_report(&id(1), 77, quic(4000), Some(NAT_PROBE_CONTROL_VERSION), None, 1_000);
    let d = t.directive.expect("a directive");
    assert_eq!(d.version, NAT_PROBE_CONTROL_VERSION);
    assert!(d.sn_peer_id.same_as(&id(9)));
    assert!(d.peer_id.same_as(&id(1)));
    assert_eq!(d.request_id, 1);
    assert_eq!(d.registration_generation, 1);
    assert_eq!(d.expires_at, 1_000 + NAT_PROBE_DIRECTIVE_TIMEOUT);
    assert_eq!(d.ports, vec![2000, 3000]);
    assert_eq!(s.authority_registration(&id(1)), Some((77, 1)));
}

#[test]
fn report_without_control_support_gets_no_directive() {
    let mut s = NatProbeScheduler::new(id(9));
    s.set_ports(vec![2000, 3000]);
    let t = s.observe_capable_report(&id(1), 77, quic(4000), None, None, 1_000);
    assert!(t.directive.is_none());
}

#[test]
fn accepted_result_publishes_a_profile_once() {
    let mut s = NatProbeScheduler::new(id(9));
    s.set_ports(vec![2000, 3000]);
    let d = s
        .observe_capable_report(&id(1), 77, quic(4000), Some(NAT_PROBE_CONTROL_VERSION), None, 1_000)
        .directive
        .unwrap();
    let res = result_for(&d, NatMappingObservation::EndpointIndependent, u64::MAX);
    let t = s.observe_capable_report(
        &id(1),
        77,
        quic(4000),
        Some(NAT_PROBE_CONTROL_VERSION),
        Some(res.clone()),
        2_000,
    );
    let expected = NatProfile {
        version: 1,
        observation: NatMappingObservation::EndpointIndependent,
        valid_until: 2_000 + NAT_PROBE_PERIOD,
    };
    assert_eq!(t.profile_update, Some(Some(expected)));
    assert!(t.directive.is_none());
    assert_eq!(s.current_profile(&id(1), 3_000), Some(expected));
    assert_eq!(s.current_profile(&id(1), 2_000 + NAT_PROBE_PERIOD + 1), None);

    let replay =
        s.observe_capable_report(&id(1), 77, quic(4000), Some(NAT_PROBE_CONTROL_VERSION), Some(res), 3_000);
    assert_eq!(replay.profile_update, None);
    assert_eq!(s.current_profile(&id(1), 3_000), Some(expected));
}

#[test]
fn unknown_observation_withdraws_the_profile() {
    let mut s = NatProbeScheduler::new(id(9));
    s.set_ports(vec![2000, 3000]);
    let d = s
        .observe_capable_report(&id(1), 77, quic(4000), Some(NAT_PROBE_CONTROL_VERSION), None, 1_000)
        .directive
        .unwrap();
    let res = result_for(&d, NatMappingObservation::Unknown, 0);
    let t = s.observe_capable_report(&id(1), 77, quic(4000), Some(NAT_PROBE_CONTROL_VERSION), Some(res), 2_000);
    assert_eq!(t.profile_update, Some(None));
    assert_eq!(s.current_profile(&id(1), 2_000), None);
}

#[test]
fn report_over_another_tunnel_is_ignored_and_tcp_authority_is_dropped() {
    let mut s = NatProbeScheduler::new(id(9));
    s.observe_capable_report(&id(1), 77, quic(4000), Some(NAT_PROBE_CONTROL_VERSION), None, 1_000);
    let other = s.observe_capable_report(&id(1), 78, quic(4001), Some(NAT_PROBE_CONTROL_VERSION), None, 1_000);
    assert!(other.directive.is_none());
    assert_eq!(other.profile_update, None);
    assert_eq!(s.authority_tunnel(&id(1)), Some(77));

    let tcp = Endpoint::new(Protocol::Tcp, SocketAddr::v4(119, 127, 198, 117, 4000));
    let dropped = s.observe_capable_report(&id(1), 77, tcp, None, None, 1_000);
    assert_eq!(dropped.profile_update, Some(None));
    assert_eq!(s.authority_tunnel(&id(1)), None);
}

#[test]
fn overdue_directives_expire() {
    let mut s = NatProbeScheduler::new(id(9));
    s.set_ports(vec![2000, 3000]);
    s.observe_capable_report(&id(1), 77, quic(4000), Some(NAT_PROBE_CONTROL_VERSION), None, 1_000);
    assert!(s.expire_due(1_000 + NAT_PROBE_DIRECTIVE_TIMEOUT).is_empty());
    let expired = s.expire_due(1_000 + NAT_PROBE_DIRECTIVE_TIMEOUT + 1);
    assert_eq!(expired.len(), 1);
    assert!(expired[0].same_as(&id(1)));
    assert!(s.expire_due(1_000 + NAT_PROBE_DIRECTIVE_TIMEOUT + 2).is_empty());
}

#[test]
fn authority_removal_follows_the_snapshot() {
    let mut s = NatProbeScheduler::new(id(9));
    s.observe_capable_report(&id(1), 77, quic(4000), Some(NAT_PROBE_CONTROL_VERSION), None, 1_000);
    assert!(!s.remove_peer_if_authority(&id(1), 77, 2, NatProbeAuthorityRemovalReason::TunnelMissing));
    assert!(s.remove_peer_if_authority(&id(1), 77, 1, NatProbeAuthorityRemovalReason::TunnelMissing));
    assert!(!s.remove_peer(&id(1), NatProbeAuthorityRemovalReason::TunnelMissing));
    assert!(s.authorities().is_empty());
}

#[test]
fn control_observation_registers_moved_peers() {
    let mut s = NatProbeScheduler::new(id(9));
    let t = s.observe_control(&id(1), 77, quic(4000), 1_000);
    assert_eq!(t.profile_update, Some(None));
    let same = s.observe_control(&id(1), 77, quic(4000), 1_000);
    assert_eq!(same.profile_update, None);
    let all = s.authorities();
    assert_eq!(all.len(), 1);
    assert_eq!(all[0].1, 77);
}

#[test]
fn reason_names() {
    assert_eq!(NatProbeTriggerReason::Online.as_str(), "online");
    assert_eq!(NatProbeResultRejectReason::DeadlineExpired.as_str(), "deadline_expired");
    assert_eq!(duration_to_bucky_time(5), 5);
    assert_eq!(duration_to_bucky_time(u128::MAX), u64::MAX);
}
