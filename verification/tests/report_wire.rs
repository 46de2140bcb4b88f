use p2p_frame::endpoint::{Endpoint, Protocol, SocketAddr};
use p2p_frame::error::P2pErrorCode;
use p2p_frame::nat_type::{NatMappingObservation, NatProfile};
use p2p_frame::sn::protocol::message::{ReportSn, ReportSnResp};
use p2p_frame::sn::protocol::receipt::{
    ReceiptWithSignature, SnServiceGrade, SnServiceReceipt, SnServiceReceiptVersion,
};
use p2p_frame::sn::protocol::sn::{NatProbeDirective, NatProbeResult};
use p2p_frame::types::{P2pId, Sequence};

const START_TIME: u64 = 13_000_000_000_000_000;

fn id(seed: u8) -> P2pId {
    P2pId::from_bytes(vec![seed; 4])
}

fn profile(version: u8) -> NatProfile {
    NatProfile { version, observation: NatMappingObservation::AddressDependent, valid_until: 99 }
}

fn receipt(start_time: u64) -> SnServiceReceipt {
    SnServiceReceipt {
        version: SnServiceReceiptVersion::Current,
        grade: SnServiceGrade::Normal,
        rto: 7,
        duration_ms: 1_000,
        start_time,
        ping_count: 1,
        ping_resp_count: 2,
        called_count: 3,
        call_peer_count: 4,
        connect_peer_count: 5,
        call_delay: 6,
    }
}

fn result(version: u8, profile_version: u8) -> NatProbeResult {
    NatProbeResult {
        version,
        sn_peer_id: id(9),
        peer_id: id(1),
        registration_generation: 10,
        request_id: 11,
        probe_config_generation: 12,
        profile: profile(profile_version),
    }
}

fn bare() -> ReportSn {
    ReportSn {
        protocol_version: 1,
        stack_version: 2,
        seq: Sequence(3),
        sn_peer_id: id(9),
        from_peer_id: None,
        peer_info: None,
        send_time: 5,
        contract_id: None,
        receipt: None,
        map_ports: vec![],
        local_eps: vec![],
        net_profile: None,
        nat_probe_control_version: None,
        nat_probe_result: None,
    }
}

fn full(control_version: Option<u8>, res: Option<NatProbeResult>) -> ReportSn {
    ReportSn {
        protocol_version: 1,
        stack_version: 2,
        seq: Sequence(3),
        sn_peer_id: id(9),
        from_peer_id: Some(id(1)),
        peer_info: Some(vec![0xCE]),
        send_time: 5,
        contract_id: Some(id(4)),
        receipt: Some(ReceiptWithSignature::from_parts(receipt(START_TIME), vec![0x51, 0x52])),
        map_ports: vec![(Protocol::Tcp, 80), (Protocol::Udp, 53)],
        local_eps: vec![Endpoint::new(Protocol::Udp, SocketAddr::v4(192, 168, 1, 2, 3000))],
        net_profile: Some(profile(1)),
        nat_probe_control_version: control_version,
        nat_probe_result: res,
    }
}

#[test]
fn report_sn_has_its_field_layout() {
    assert_eq!(
        bare().to_vec().unwrap(),
        vec![1, 0, 0, 0, 2, 0, 0, 0, 3, 4, 9, 9, 9, 9, 0, 0, 0, 0, 0, 0, 0, 0, 0, 5, 0, 0, 0, 0]
    );
}

#[test]
fn report_sn_ports_are_protocol_index_and_port() {
    let mut r = bare();
    r.map_ports = vec![(Protocol::Quic, 0x0102)];
    let bytes = r.to_vec().unwrap();
    assert_eq!(&bytes[bytes.len() - 5..], &[1, 3, 0x01, 0x02, 0]);
}

#[test]
fn report_sn_reads_back_with_all_fields() {
    let r = full(Some(1), Some(result(1, 1)));
    let back = ReportSn::clone_from_slice(&r.to_vec().unwrap()).unwrap();
    assert_eq!(back.protocol_version, 1);
    assert_eq!(back.stack_version, 2);
    assert_eq!(back.seq, Sequence(3));
    assert!(back.sn_peer_id.same_as(&id(9)));
    assert!(back.from_peer_id.unwrap().same_as(&id(1)));
    assert_eq!(back.peer_info, Some(vec![0xCE]));
    assert_eq!(back.send_time, 5);
    assert!(back.contract_id.unwrap().same_as(&id(4)));
    let rs = back.receipt.unwrap();
    assert_eq!(*rs.receipt(), receipt(START_TIME));
    assert_eq!(*rs.signature(), vec![0x51, 0x52]);
    assert_eq!(back.map_ports, vec![(Protocol::Tcp, 80), (Protocol::Udp, 53)]);
    assert_eq!(back.local_eps, r.local_eps);
    assert_eq!(back.net_profile, Some(profile(1)));
    assert_eq!(back.nat_probe_control_version, Some(1));
    let res = back.nat_probe_result.unwrap();
    assert_eq!(res.version, 1);
    assert!(res.sn_peer_id.same_as(&id(9)) && res.peer_id.same_as(&id(1)));
    assert_eq!((res.registration_generation, res.request_id, res.probe_config_generation), (10, 11, 12));
    assert_eq!(res.profile, profile(1));
}

#[test]
fn report_sn_reads_back_without_extensions() {
    let back = ReportSn::clone_from_slice(&bare().to_vec().unwrap()).unwrap();
    assert!(back.receipt.is_none());
    assert_eq!(back.net_profile, None);
    assert_eq!(back.nat_probe_control_version, None);
    assert!(back.nat_probe_result.is_none());
}

#[test]
fn report_sn_drops_an_unsupported_profile() {
    let mut r = full(None, None);
    r.net_profile = Some(profile(2));
    let back = ReportSn::clone_from_slice(&r.to_vec().unwrap()).unwrap();
    assert_eq!(back.net_profile, None);
}

#[test]
fn report_sn_keeps_control_version_without_result() {
    let back = ReportSn::clone_from_slice(&full(Some(1), None).to_vec().unwrap()).unwrap();
    assert_eq!(back.nat_probe_control_version, Some(1));
    assert!(back.nat_probe_result.is_none());
}

#[test]
fn report_sn_drops_control_of_another_version() {
    let back = ReportSn::clone_from_slice(&full(Some(2), Some(result(1, 1))).to_vec().unwrap()).unwrap();
    assert_eq!(back.nat_probe_control_version, None);
    assert!(back.nat_probe_result.is_none());
}

#[test]
fn report_sn_result_without_version_travels_at_version_zero() {
    let back = ReportSn::clone_from_slice(&full(None, Some(result(1, 1))).to_vec().unwrap()).unwrap();
    assert_eq!(back.nat_probe_control_version, None);
    assert!(back.nat_probe_result.is_none());
}

#[test]
fn report_sn_drops_an_unsupported_result() {
    let back = ReportSn::clone_from_slice(&full(Some(1), Some(result(1, 3))).to_vec().unwrap()).unwrap();
    assert_eq!(back.nat_probe_control_version, Some(1));
    assert!(back.nat_probe_result.is_none());
}

#[test]
fn report_sn_truncated_is_a_codec_error() {
    let bytes = bare().to_vec().unwrap();
    let err = ReportSn::clone_from_slice(&bytes[..bytes.len() - 1]).err().unwrap();
    assert_eq!(err.code(), P2pErrorCode::RawCodecError);
}

#[test]
fn report_sn_with_a_receipt_before_the_epoch_is_a_codec_error() {
    let mut r = full(None, None);
    r.receipt = Some(ReceiptWithSignature::from_parts(receipt(1), vec![]));
    let err = ReportSn::clone_from_slice(&r.to_vec().unwrap()).err().unwrap();
    assert_eq!(err.code(), P2pErrorCode::RawCodecError);
}

fn directive(version: u8, ports: Vec<u16>) -> NatProbeDirective {
    NatProbeDirective {
        version,
        sn_peer_id: id(9),
        peer_id: id(1),
        registration_generation: 20,
        request_id: 21,
        probe_config_generation: 22,
        expires_at: 23,
        ports,
    }
}

fn answer(ports: Vec<u16>, d: Option<NatProbeDirective>) -> ReportSnResp {
    ReportSnResp {
        seq: Sequence(3),
        sn_peer_id: id(9),
        result: 0,
        peer_info: Some(vec![0xCE]),
        end_point_array: vec![Endpoint::new(Protocol::Tcp, SocketAddr::v4(1, 2, 3, 4, 5))],
        receipt: Some(receipt(START_TIME)),
        nat_probe_ports: ports,
        nat_probe_directive: d,
    }
}

#[test]
fn report_sn_resp_has_its_field_layout() {
    let a = ReportSnResp {
        seq: Sequence(3),
        sn_peer_id: id(9),
        result: 2,
        peer_info: None,
        end_point_array: vec![],
        receipt: None,
        nat_probe_ports: vec![],
        nat_probe_directive: None,
    };
    assert_eq!(a.to_vec().unwrap(), vec![0, 0, 0, 3, 4, 9, 9, 9, 9, 2, 0, 0, 0]);
}

#[test]
fn report_sn_resp_reads_back_with_ports_and_directive() {
    let a = answer(vec![2000, 3000], Some(directive(1, vec![2000, 3000])));
    let plain = answer(vec![], None).to_vec().unwrap();
    let bytes = a.to_vec().unwrap();
    // A 9-byte header before the 5-byte port list; another before the directive.
    assert!(bytes.len() > plain.len() + 9 + 5 + 9);
    let back = ReportSnResp::clone_from_slice(&bytes).unwrap();
    assert_eq!(back.seq, Sequence(3));
    assert!(back.sn_peer_id.same_as(&id(9)));
    assert_eq!(back.result, 0);
    assert_eq!(back.peer_info, Some(vec![0xCE]));
    assert_eq!(back.end_point_array, a.end_point_array);
    assert_eq!(back.receipt, Some(receipt(START_TIME)));
    assert_eq!(back.nat_probe_ports, vec![2000, 3000]);
    let d = back.nat_probe_directive.unwrap();
    assert_eq!(d.version, 1);
    assert!(d.sn_peer_id.same_as(&id(9)) && d.peer_id.same_as(&id(1)));
    assert_eq!((d.registration_generation, d.request_id, d.probe_config_generation, d.expires_at), (20, 21, 22, 23));
    assert_eq!(d.ports, vec![2000, 3000]);
}

#[test]
fn report_sn_resp_drops_unusable_ports_and_directive() {
    let back = ReportSnResp::clone_from_slice(
        &answer(vec![2000], Some(directive(1, vec![2000]))).to_vec().unwrap(),
    )
    .unwrap();
    assert!(back.nat_probe_ports.is_empty());
    assert!(back.nat_probe_directive.is_none());
}

#[test]
fn report_sn_resp_drops_a_directive_of_another_version() {
    let back = ReportSnResp::clone_from_slice(
        &answer(vec![2000, 3000], Some(directive(2, vec![2000, 3000]))).to_vec().unwrap(),
    )
    .unwrap();
    assert_eq!(back.nat_probe_ports, vec![2000, 3000]);
    assert!(back.nat_probe_directive.is_none());
}

#[test]
fn report_sn_resp_truncated_is_a_codec_error() {
    let bytes = answer(vec![], None).to_vec().unwrap();
    let err = ReportSnResp::clone_from_slice(&bytes[..bytes.len() - 10]).err().unwrap();
    assert_eq!(err.code(), P2pErrorCode::RawCodecError);
}
