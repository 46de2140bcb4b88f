use p2p_frame::error::{P2pError, P2pErrorCode};
use p2p_frame::nat_type::{NatMappingObservation, NatProfile};
use p2p_frame::sn::protocol::extension::{
    extension_decode, extension_encode, extension_measure, extension_value,
    strict_rendezvous_decode, ExtensionFrame, REPORT_SN_EXTENSION_MAGIC,
    REPORT_SN_PROBE_RESULT_EXTENSION_MAGIC, SN_CALL_EXTENSION_MAGIC, SN_EXTENSION_HEADER_LEN,
};
use p2p_frame::sn::protocol::message::{
    report_extensions_from_wire, report_probe_control, report_resp_extensions_from_wire,
    ReportSnProbeControl,
};
use p2p_frame::sn::protocol::sn::{
    NatProbeDirective, NatProbeResult, SnTunnelRendezvous, SnTunnelRendezvousOperation,
    SnTunnelRendezvousResp, NAT_PROBE_CONTROL_VERSION,
};
use p2p_frame::types::{P2pId, Sequence, TunnelId};

fn id(seed: u8) -> P2pId {
    P2pId::from_bytes(vec![seed; 32])
}

#[test]
fn extension_bytes_are_magic_version_length_payload() {
    let mut out = vec![0xAA];
    extension_encode(Some(&[1, 2, 3]), REPORT_SN_EXTENSION_MAGIC, &mut out).unwrap();
    assert_eq!(out, vec![0xAA, b'R', b'S', b'N', b'P', 1, 0, 0, 0, 3, 1, 2, 3]);
    let mut untouched = vec![7];
    extension_encode(None, REPORT_SN_EXTENSION_MAGIC, &mut untouched).unwrap();
    assert_eq!(untouched, vec![7]);
    assert_eq!(extension_measure(Some(3)), 3 + SN_EXTENSION_HEADER_LEN);
    assert_eq!(extension_measure(None), 0);
}

#[test]
fn extension_reads_back_and_leaves_what_follows() {
    let mut buf = Vec::new();
    extension_encode(Some(&[9, 8]), SN_CALL_EXTENSION_MAGIC, &mut buf).unwrap();
    extension_encode(Some(&[5]), REPORT_SN_EXTENSION_MAGIC, &mut buf).unwrap();
    let first = extension_decode(&buf, SN_CALL_EXTENSION_MAGIC);
    assert_eq!(first, ExtensionFrame::Payload { start: 9, end: 11 });
    assert_eq!(&buf[9..11], &[9, 8]);
    let rest = &buf[first.rest()..];
    assert_eq!(extension_decode(rest, SN_CALL_EXTENSION_MAGIC), ExtensionFrame::Absent);
    assert_eq!(
        extension_decode(rest, REPORT_SN_EXTENSION_MAGIC),
        ExtensionFrame::Payload { start: 9, end: 10 }
    );
}

#[test]
fn malformed_extensions_are_skipped() {
    assert_eq!(extension_decode(&[b'R', b'S'], REPORT_SN_EXTENSION_MAGIC), ExtensionFrame::Absent);
    let truncated_header = [b'R', b'S', b'N', b'P', 1, 0];
    assert_eq!(
        extension_decode(&truncated_header, REPORT_SN_EXTENSION_MAGIC),
        ExtensionFrame::Skipped { rest: 6 }
    );
    let truncated_payload = [b'R', b'S', b'N', b'P', 1, 0, 0, 0, 4, 1, 2];
    assert_eq!(
        extension_decode(&truncated_payload, REPORT_SN_EXTENSION_MAGIC),
        ExtensionFrame::Skipped { rest: 11 }
    );
    let other_version = [b'R', b'S', b'N', b'P', 2, 0, 0, 0, 1, 1, 0xEE];
    assert_eq!(
        extension_decode(&other_version, REPORT_SN_EXTENSION_MAGIC),
        ExtensionFrame::Skipped { rest: 10 }
    );
}

#[test]
fn extension_value_needs_the_whole_payload() {
    let frame = ExtensionFrame::Payload { start: 9, end: 12 };
    assert_eq!(extension_value(frame, Some((5u8, 3))), Some(5u8));
    assert_eq!(extension_value(frame, Some((5u8, 2))), None);
    assert_eq!(extension_value(frame, None::<(u8, usize)>), None);
    assert_eq!(extension_value(ExtensionFrame::Absent, Some((5u8, 0))), None);
}

#[test]
fn strict_decode_refuses_trailing_bytes() {
    assert_eq!(strict_rendezvous_decode(Ok((3u8, 4)), 4), Ok(3u8));
    assert_eq!(
        strict_rendezvous_decode(Ok((3u8, 3)), 4).unwrap_err().code(),
        P2pErrorCode::InvalidData
    );
    let failed: Result<(u8, usize), P2pError> = Err(P2pError::new(P2pErrorCode::RawCodecError));
    assert_eq!(strict_rendezvous_decode(failed, 4).unwrap_err().code(), P2pErrorCode::RawCodecError);

    let request = SnTunnelRendezvous {
        seq: Sequence(1),
        tunnel_id: TunnelId(2),
        to_peer_id: id(3),
        operation: SnTunnelRendezvousOperation::WaitIncoming,
        end_point_array: Vec::new(),
        need_predict_endpoint: false,
    };
    let bytes = request.to_vec();
    let kept = SnTunnelRendezvous::clone_from_slice(&bytes).unwrap();
    assert_eq!(kept.seq, Sequence(1));
    let resp = SnTunnelRendezvousResp::failure(Sequence(1));
    let mut resp_bytes = resp.to_vec();
    resp_bytes.push(0);
    assert!(SnTunnelRendezvousResp::clone_from_slice(&resp_bytes).is_err());
}

fn profile(version: u8) -> NatProfile {
    NatProfile { version, observation: NatMappingObservation::EndpointIndependent, valid_until: 99 }
}

fn result(version: u8, profile_version: u8) -> NatProbeResult {
    NatProbeResult {
        version,
        sn_peer_id: id(9),
        peer_id: id(1),
        registration_generation: 1,
        request_id: 1,
        probe_config_generation: 1,
        profile: profile(profile_version),
    }
}

#[test]
fn report_probe_control_is_sent_when_named() {
    assert!(report_probe_control(None, None).is_none());
    let c = report_probe_control(Some(NAT_PROBE_CONTROL_VERSION), None).unwrap();
    assert_eq!(c.version, NAT_PROBE_CONTROL_VERSION);
    assert!(c.result.is_none());
    let r = report_probe_control(None, Some(result(1, 1))).unwrap();
    assert_eq!(r.version, 0);
    assert!(r.result.is_some());
}

#[test]
fn report_keeps_only_supported_extensions() {
    let (p, v, r) = report_extensions_from_wire(
        Some(profile(1)),
        Some(ReportSnProbeControl { version: NAT_PROBE_CONTROL_VERSION, result: Some(result(1, 1)) }),
    );
    assert_eq!(p, Some(profile(1)));
    assert_eq!(v, Some(NAT_PROBE_CONTROL_VERSION));
    assert!(r.is_some());

    let (p, v, r) = report_extensions_from_wire(
        Some(profile(2)),
        Some(ReportSnProbeControl { version: NAT_PROBE_CONTROL_VERSION, result: Some(result(1, 2)) }),
    );
    assert_eq!(p, None);
    assert_eq!(v, Some(NAT_PROBE_CONTROL_VERSION));
    assert!(r.is_none());

    let (_, v, r) = report_extensions_from_wire(
        None,
        Some(ReportSnProbeControl { version: 7, result: Some(result(1, 1)) }),
    );
    assert_eq!(v, None);
    assert!(r.is_none());
}

#[test]
fn extension_magics_spell_their_names() {
    assert_eq!(REPORT_SN_EXTENSION_MAGIC, u32::from_be_bytes(*b"RSNP"));
    assert_eq!(REPORT_SN_PROBE_RESULT_EXTENSION_MAGIC, u32::from_be_bytes(*b"RSNR"));
    assert_eq!(SN_CALL_EXTENSION_MAGIC, u32::from_be_bytes(*b"SCAL"));
}

#[test]
fn report_response_keeps_usable_ports_and_supported_directives() {
    let directive = |ports: Vec<u16>| NatProbeDirective {
        version: NAT_PROBE_CONTROL_VERSION,
        sn_peer_id: id(9),
        peer_id: id(1),
        registration_generation: 1,
        request_id: 1,
        probe_config_generation: 1,
        expires_at: 10,
        ports,
    };
    let (ports, d) = report_resp_extensions_from_wire(Some(vec![2000, 3000]), Some(directive(vec![2000, 3000])));
    assert_eq!(ports, vec![2000, 3000]);
    assert!(d.is_some());
    let (ports, d) = report_resp_extensions_from_wire(Some(vec![2000]), Some(directive(vec![2000])));
    assert!(ports.is_empty());
    assert!(d.is_none());
    let (ports, d) = report_resp_extensions_from_wire(None, None);
    assert!(ports.is_empty());
    assert!(d.is_none());
}
