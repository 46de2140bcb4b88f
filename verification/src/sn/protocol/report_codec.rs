use vstd::prelude::*;
use crate::codec::{
    append_bytes, decode_u16, encode_u16, encode_u32, encode_u64, encode_u8, spec_be16, spec_be32,
    spec_be64,
};
use crate::endpoint::{Endpoint, Protocol};
use crate::error::{P2pError, P2pErrorCode, P2pResult};
use crate::nat_type::NatProfile;
use crate::sn::protocol::call_codec::{
    decode_profile, encode_profile, lemma_profile_roundtrip, spec_parse_profile,
    spec_profile_bytes,
};
use crate::sn::protocol::extension::{
    extension_decode, extension_encode, lemma_extension_decode_bounds, lemma_extension_roundtrip,
    lemma_other_extension_absent, spec_extension_bytes, spec_extension_decode, ExtensionFrame,
    REPORT_SN_EXTENSION_MAGIC, REPORT_SN_PROBE_RESULT_EXTENSION_MAGIC,
};
use crate::sn::protocol::message::{report_extensions_from_wire, ReportSn, ReportSnProbeControl};
use crate::sn::protocol::query_codec::spec_supported_profile;
use crate::sn::protocol::receipt::{
    lemma_receipt_roundtrip, spec_grade_value, spec_receipt_bytes, spec_receipt_decode_error,
    spec_receipt_fields_match, spec_receipt_version_value, ReceiptWithSignature, SnServiceReceipt,
    SN_SERVICE_RECEIPT_LEN,
};
use crate::sn::protocol::sn::{NatProbeResult, NatProbeResultView, NAT_PROBE_CONTROL_VERSION};
use crate::sn::protocol::wire::{
    append_bytes_field, append_endpoint_list, append_opt_bytes_field, decode_bytes_field,
    decode_endpoint_list, decode_opt_bytes_field, decode_u32_field, decode_u64_field,
    decode_u8_field, decode_varsize, encode_varsize, lemma_bytes_field_roundtrip,
    lemma_endpoint_list_roundtrip, lemma_opt_bytes_field_roundtrip, lemma_u16_roundtrip,
    lemma_u32_roundtrip, lemma_u64_roundtrip, lemma_u8_roundtrip, lemma_varsize_roundtrip,
    spec_bytes_field, spec_endpoint_list_bytes, spec_opt_bytes_field, spec_parse_bytes_field,
    spec_parse_endpoint_list, spec_parse_opt_bytes_field, spec_parse_u16, spec_parse_u32,
    spec_parse_u64, spec_parse_u8, spec_parse_varsize, spec_protocol_of, spec_protocol_tag,
    spec_varsize, MAX_LIST_LEN, VARSIZE_MAX,
};
use crate::types::{P2pId, Sequence, Timestamp};

verus! {

pub struct ReportSnView {
    pub protocol_version: u8,
    pub stack_version: u32,
    pub seq: Sequence,
    pub sn_peer_id: Seq<u8>,
    pub from_peer_id: Option<Seq<u8>>,
    pub peer_info: Option<Seq<u8>>,
    pub send_time: Timestamp,
    pub contract_id: Option<Seq<u8>>,
    pub receipt: Option<(SnServiceReceipt, Seq<u8>)>,
    pub map_ports: Seq<(Protocol, u16)>,
    pub local_eps: Seq<Endpoint>,
    pub net_profile: Option<NatProfile>,
    pub nat_probe_control_version: Option<u8>,
    pub nat_probe_result: Option<NatProbeResultView>,
}

pub open spec fn spec_opt_id(o: Option<P2pId>) -> Option<Seq<u8>> {
    match o {
        Some(id) => Some(id@),
        None => None,
    }
}

/// A signed receipt as its receipt and its signature's bytes.
pub open spec fn spec_receipt_sig_view(o: Option<ReceiptWithSignature>) -> Option<(SnServiceReceipt, Seq<u8>)> {
    match o {
        Some(r) => Some((r.spec_receipt(), r.spec_signature())),
        None => None,
    }
}

pub open spec fn spec_opt_result_view(o: Option<NatProbeResult>) -> Option<NatProbeResultView> {
    match o {
        Some(r) => Some(r@),
        None => None,
    }
}

impl View for ReportSn {
    type V = ReportSnView;

    open spec fn view(&self) -> ReportSnView {
        ReportSnView {
            protocol_version: self.protocol_version,
            stack_version: self.stack_version,
            seq: self.seq,
            sn_peer_id: self.sn_peer_id@,
            from_peer_id: spec_opt_id(self.from_peer_id),
            peer_info: match self.peer_info {
                Some(v) => Some(v@),
                None => None,
            },
            send_time: self.send_time,
            contract_id: spec_opt_id(self.contract_id),
            receipt: spec_receipt_sig_view(self.receipt),
            map_ports: self.map_ports@,
            local_eps: self.local_eps@,
            net_profile: self.net_profile,
            nat_probe_control_version: self.nat_probe_control_version,
            nat_probe_result: spec_opt_result_view(self.nat_probe_result),
        }
    }
}

// ----- the leading fields -----

/// The leading fields of a report: protocol and stack versions, sequence,
/// the SN's id, the sender's id and certificate (optional), the send time
/// and the contract id (optional).
#[verifier::opaque]
pub open spec fn spec_report_head_bytes(m: ReportSnView) -> Seq<u8> {
    seq![m.protocol_version] + spec_be32(m.stack_version) + spec_be32(m.seq.0) + spec_bytes_field(
        m.sn_peer_id,
    ) + spec_opt_bytes_field(m.from_peer_id) + spec_opt_bytes_field(m.peer_info) + spec_be64(
        m.send_time,
    ) + spec_opt_bytes_field(m.contract_id)
}

pub struct ReportHead {
    pub protocol_version: u8,
    pub stack_version: u32,
    pub seq: u32,
    pub sn_peer_id: Seq<u8>,
    pub from_peer_id: Option<Seq<u8>>,
    pub peer_info: Option<Seq<u8>>,
    pub send_time: u64,
    pub contract_id: Option<Seq<u8>>,
}

#[verifier::opaque]
pub open spec fn spec_parse_report_head(b: Seq<u8>) -> Option<(ReportHead, Seq<u8>)> {
    match spec_parse_u8(b) {
        None => None,
        Some((pv, r1)) => match spec_parse_u32(r1) {
            None => None,
            Some((sv, r2)) => match spec_parse_u32(r2) {
                None => None,
                Some((seq, r3)) => match spec_parse_bytes_field(r3) {
                    None => None,
                    Some((sn, r4)) => match spec_parse_opt_bytes_field(r4) {
                        None => None,
                        Some((from, r5)) => match spec_parse_opt_bytes_field(r5) {
                            None => None,
                            Some((info, r6)) => match spec_parse_u64(r6) {
                                None => None,
                                Some((time, r7)) => match spec_parse_opt_bytes_field(r7) {
                                    None => None,
                                    Some((contract, r8)) => Some(
                                        (
                                            ReportHead {
                                                protocol_version: pv,
                                                stack_version: sv,
                                                seq,
                                                sn_peer_id: sn,
                                                from_peer_id: from,
                                                peer_info: info,
                                                send_time: time,
                                                contract_id: contract,
                                            },
                                            r8,
                                        ),
                                    ),
                                },
                            },
                        },
                    },
                },
            },
        },
    }
}

// ----- the signed receipt -----

/// The receipt whose fields the bytes at the start of `b` hold.
pub open spec fn spec_receipt_of(b: Seq<u8>) -> SnServiceReceipt {
    choose|r: SnServiceReceipt| spec_receipt_fields_match(r, b)
}

/// A receipt read from the start of `b`, and what follows it.
pub open spec fn spec_parse_receipt(b: Seq<u8>) -> Option<(SnServiceReceipt, Seq<u8>)> {
    if spec_receipt_decode_error(b) is None {
        Some((spec_receipt_of(b), b.skip(SN_SERVICE_RECEIPT_LEN as int)))
    } else {
        None
    }
}

/// An optional signed receipt: 0 when absent, else 1, the receipt and the
/// signature's bytes.
#[verifier::opaque]
pub open spec fn spec_receipt_sig_bytes(o: Option<(SnServiceReceipt, Seq<u8>)>) -> Seq<u8> {
    match o {
        None => seq![0u8],
        Some((r, s)) => seq![1u8] + spec_receipt_bytes(r) + spec_bytes_field(s),
    }
}

#[verifier::opaque]
pub open spec fn spec_parse_receipt_sig(b: Seq<u8>) -> Option<
    (Option<(SnServiceReceipt, Seq<u8>)>, Seq<u8>),
> {
    match spec_parse_u8(b) {
        None => None,
        Some((t, r1)) => if t == 1 {
            match spec_parse_receipt(r1) {
                None => None,
                Some((rec, r2)) => match spec_parse_bytes_field(r2) {
                    None => None,
                    Some((sig, r3)) => Some((Some((rec, sig)), r3)),
                },
            }
        } else {
            Some((None, r1))
        },
    }
}

/// Two receipts that the same bytes hold are the same receipt.
pub proof fn lemma_receipt_fields_unique(a: SnServiceReceipt, c: SnServiceReceipt, b: Seq<u8>)
    requires
        spec_receipt_fields_match(a, b),
        spec_receipt_fields_match(c, b),
    ensures
        a == c,
{
    assert(a.version == c.version) by {
        assert(spec_receipt_version_value(a.version) == spec_receipt_version_value(c.version));
    }
    assert(a.grade == c.grade) by {
        assert(spec_grade_value(a.grade) == spec_grade_value(c.grade));
    }
}

/// A receipt that can be read back (its start time not before the Unix
/// epoch, its duration within the 32 bits the wire gives it) reads back
/// from its bytes, whatever follows them.
pub proof fn lemma_receipt_read_back(r: SnServiceReceipt, rest: Seq<u8>)
    requires
        r.start_time >= crate::time::spec_min_bucky_time(),
        r.duration_ms <= u32::MAX,
    ensures
        spec_parse_receipt(spec_receipt_bytes(r) + rest) == Some((r, rest)),
{
    let a = spec_receipt_bytes(r);
    let b = a + rest;
    lemma_receipt_roundtrip(r);
    assert(spec_receipt_decode_error(b) is None) by {
        assert(b[0] == a[0] && b[1] == a[1]);
        assert(b.subrange(8, 16) =~= a.subrange(8, 16));
    }
    assert(spec_receipt_fields_match(r, b)) by {
        assert(b[0] == a[0] && b[1] == a[1]);
        assert(b.subrange(2, 4) =~= a.subrange(2, 4));
        assert(b.subrange(4, 8) =~= a.subrange(4, 8));
        assert(b.subrange(8, 16) =~= a.subrange(8, 16));
        assert(b.subrange(16, 20) =~= a.subrange(16, 20));
        assert(b.subrange(20, 24) =~= a.subrange(20, 24));
        assert(b.subrange(24, 28) =~= a.subrange(24, 28));
        assert(b.subrange(28, 32) =~= a.subrange(28, 32));
        assert(b.subrange(32, 36) =~= a.subrange(32, 36));
        assert(b.subrange(36, 38) =~= a.subrange(36, 38));
    }
    lemma_receipt_fields_unique(r, spec_receipt_of(b), b);
    assert(b.skip(38) =~= rest);
}

pub proof fn lemma_receipt_sig_roundtrip(o: Option<(SnServiceReceipt, Seq<u8>)>, rest: Seq<u8>)
    requires
        o matches Some((r, s)) ==> r.start_time >= crate::time::spec_min_bucky_time()
            && r.duration_ms <= u32::MAX && s.len() <= MAX_LIST_LEN,
    ensures
        spec_parse_receipt_sig(spec_receipt_sig_bytes(o) + rest) == Some((o, rest)),
{
    reveal(spec_receipt_sig_bytes);
    reveal(spec_parse_receipt_sig);
    match o {
        None => {
            lemma_u8_roundtrip(0u8, rest);
        },
        Some((r, s)) => {
            let f = spec_bytes_field(s);
            let a = spec_receipt_bytes(r);
            assert(spec_receipt_sig_bytes(o) + rest =~= seq![1u8] + (a + (f + rest)));
            lemma_u8_roundtrip(1u8, a + (f + rest));
            lemma_receipt_read_back(r, f + rest);
            lemma_bytes_field_roundtrip(s, rest);
        },
    }
}

// ----- the mapped ports -----

/// A mapped port: its protocol's index and the port, big-endian.
pub open spec fn spec_port_bytes(p: (Protocol, u16)) -> Seq<u8> {
    seq![spec_protocol_tag(p.0)] + spec_be16(p.1)
}

pub open spec fn spec_parse_port(b: Seq<u8>) -> Option<((Protocol, u16), Seq<u8>)> {
    match spec_parse_u8(b) {
        None => None,
        Some((t, r1)) => match spec_parse_u16(r1) {
            None => None,
            Some((port, r2)) => match spec_protocol_of(t) {
                None => None,
                Some(p) => Some(((p, port), r2)),
            },
        },
    }
}

pub open spec fn spec_ports_concat(ports: Seq<(Protocol, u16)>) -> Seq<u8>
    decreases ports.len(),
{
    if ports.len() == 0 {
        Seq::empty()
    } else {
        spec_port_bytes(ports[0]) + spec_ports_concat(ports.drop_first())
    }
}

/// A port list: its length as a count, then each mapped port.
#[verifier::opaque]
pub open spec fn spec_port_list_bytes(ports: Seq<(Protocol, u16)>) -> Seq<u8> {
    spec_varsize(ports.len()) + spec_ports_concat(ports)
}

pub open spec fn spec_parse_ports_n(b: Seq<u8>, n: nat) -> Option<(Seq<(Protocol, u16)>, Seq<u8>)>
    decreases n,
{
    if n == 0 {
        Some((Seq::empty(), b))
    } else {
        match spec_parse_port(b) {
            None => None,
            Some((p, r)) => match spec_parse_ports_n(r, (n - 1) as nat) {
                None => None,
                Some((ps, r2)) => Some((seq![p] + ps, r2)),
            },
        }
    }
}

/// A port list read from the start of `b`; one announcing more than
/// `MAX_LIST_LEN` ports is refused.
#[verifier::opaque]
pub open spec fn spec_parse_port_list(b: Seq<u8>) -> Option<(Seq<(Protocol, u16)>, Seq<u8>)> {
    match spec_parse_varsize(b) {
        None => None,
        Some((n, rest)) => if n > MAX_LIST_LEN {
            None
        } else {
            spec_parse_ports_n(rest, n)
        },
    }
}

pub proof fn lemma_port_roundtrip(p: (Protocol, u16), rest: Seq<u8>)
    ensures
        spec_parse_port(spec_port_bytes(p) + rest) == Some((p, rest)),
{
    let t = spec_protocol_tag(p.0);
    let r2 = rest;
    let r1 = spec_be16(p.1) + r2;
    assert(spec_port_bytes(p) + rest =~= seq![t] + r1);
    lemma_u8_roundtrip(t, r1);
    lemma_u16_roundtrip(p.1, r2);
    assert(spec_protocol_of(t) == Some(p.0));
}

pub proof fn lemma_ports_n_roundtrip(ports: Seq<(Protocol, u16)>, rest: Seq<u8>)
    ensures
        spec_parse_ports_n(spec_ports_concat(ports) + rest, ports.len()) == Some((ports, rest)),
    decreases ports.len(),
{
    if ports.len() > 0 {
        let tail = ports.drop_first();
        let t = spec_ports_concat(tail);
        assert(spec_ports_concat(ports) + rest =~= spec_port_bytes(ports[0]) + (t + rest));
        lemma_port_roundtrip(ports[0], t + rest);
        lemma_ports_n_roundtrip(tail, rest);
        assert(seq![ports[0]] + tail =~= ports);
    } else {
        assert(spec_ports_concat(ports) + rest =~= rest);
        assert(ports =~= Seq::<(Protocol, u16)>::empty());
    }
}

pub proof fn lemma_port_list_roundtrip(ports: Seq<(Protocol, u16)>, rest: Seq<u8>)
    requires
        ports.len() <= MAX_LIST_LEN,
    ensures
        spec_parse_port_list(spec_port_list_bytes(ports) + rest) == Some((ports, rest)),
{
    reveal(spec_port_list_bytes);
    reveal(spec_parse_port_list);
    let c = spec_ports_concat(ports);
    let b = spec_varsize(ports.len()) + (c + rest);
    assert(spec_port_list_bytes(ports) + rest =~= b);
    lemma_varsize_roundtrip(ports.len(), c + rest);
    assert(spec_parse_varsize(b) == Some((ports.len(), c + rest)));
    lemma_ports_n_roundtrip(ports, rest);
}

// ----- the trailing legacy fields -----

/// The trailing legacy fields of a report: the signed receipt (optional),
/// the mapped ports and the local endpoints.
#[verifier::opaque]
pub open spec fn spec_report_tail_bytes(m: ReportSnView) -> Seq<u8> {
    spec_receipt_sig_bytes(m.receipt) + spec_port_list_bytes(m.map_ports) + spec_endpoint_list_bytes(
        m.local_eps,
    )
}

pub struct ReportTail {
    pub receipt: Option<(SnServiceReceipt, Seq<u8>)>,
    pub map_ports: Seq<(Protocol, u16)>,
    pub local_eps: Seq<Endpoint>,
}

#[verifier::opaque]
pub open spec fn spec_parse_report_tail(b: Seq<u8>) -> Option<(ReportTail, Seq<u8>)> {
    match spec_parse_receipt_sig(b) {
        None => None,
        Some((receipt, r1)) => match spec_parse_port_list(r1) {
            None => None,
            Some((ports, r2)) => match spec_parse_endpoint_list(r2) {
                None => None,
                Some((eps, r3)) => Some(
                    (ReportTail { receipt, map_ports: ports, local_eps: eps }, r3),
                ),
            },
        },
    }
}

// ----- the NAT-probe control extension -----

/// A NAT-probe result: version, the SN's and peer's ids, the three
/// generations and request id (eight big-endian bytes each) and the
/// observed profile.
#[verifier::opaque]
pub open spec fn spec_probe_result_bytes(r: NatProbeResultView) -> Seq<u8> {
    seq![r.version] + spec_bytes_field(r.sn_peer_id) + spec_bytes_field(r.peer_id) + spec_be64(
        r.registration_generation,
    ) + spec_be64(r.request_id) + spec_be64(r.probe_config_generation) + spec_profile_bytes(
        r.profile,
    )
}

#[verifier::opaque]
pub open spec fn spec_parse_probe_result(b: Seq<u8>) -> Option<(NatProbeResultView, Seq<u8>)> {
    match spec_parse_u8(b) {
        None => None,
        Some((v, r1)) => match spec_parse_bytes_field(r1) {
            None => None,
            Some((sn, r2)) => match spec_parse_bytes_field(r2) {
                None => None,
                Some((peer, r3)) => match spec_parse_u64(r3) {
                    None => None,
                    Some((reg, r4)) => match spec_parse_u64(r4) {
                        None => None,
                        Some((req, r5)) => match spec_parse_u64(r5) {
                            None => None,
                            Some((cfg, r6)) => match spec_parse_profile(r6) {
                                None => None,
                                Some((profile, r7)) => Some(
                                    (
                                        NatProbeResultView {
                                            version: v,
                                            sn_peer_id: sn,
                                            peer_id: peer,
                                            registration_generation: reg,
                                            request_id: req,
                                            probe_config_generation: cfg,
                                            profile,
                                        },
                                        r7,
                                    ),
                                ),
                            },
                        },
                    },
                },
            },
        },
    }
}

proof fn lemma_probe_result_len(r: NatProbeResultView)
    requires
        r.sn_peer_id.len() <= MAX_LIST_LEN,
        r.peer_id.len() <= MAX_LIST_LEN,
    ensures
        spec_probe_result_bytes(r).len() <= 0x1000_0040,
{
    reveal(spec_probe_result_bytes);
    reveal(crate::sn::protocol::wire::spec_bytes_field);
    lemma_varsize_roundtrip(r.sn_peer_id.len(), Seq::empty());
    lemma_varsize_roundtrip(r.peer_id.len(), Seq::empty());
    crate::codec::lemma_be64_roundtrip(r.registration_generation);
    crate::codec::lemma_be64_roundtrip(r.request_id);
    crate::codec::lemma_be64_roundtrip(r.probe_config_generation);
    lemma_profile_roundtrip(r.profile, Seq::empty());
}

pub proof fn lemma_probe_result_roundtrip(r: NatProbeResultView, rest: Seq<u8>)
    requires
        r.sn_peer_id.len() <= MAX_LIST_LEN,
        r.peer_id.len() <= MAX_LIST_LEN,
    ensures
        spec_parse_probe_result(spec_probe_result_bytes(r) + rest) == Some((r, rest)),
        spec_probe_result_bytes(r).len() <= 0x1000_0040,
{
    lemma_probe_result_len(r);
    reveal(spec_probe_result_bytes);
    reveal(spec_parse_probe_result);
    let r7 = rest;
    let r6 = spec_profile_bytes(r.profile) + r7;
    let r5 = spec_be64(r.probe_config_generation) + r6;
    let r4 = spec_be64(r.request_id) + r5;
    let r3 = spec_be64(r.registration_generation) + r4;
    let r2 = spec_bytes_field(r.peer_id) + r3;
    let r1 = spec_bytes_field(r.sn_peer_id) + r2;
    let b = seq![r.version] + r1;
    assert(spec_probe_result_bytes(r) + rest =~= b);
    lemma_u8_roundtrip(r.version, r1);
    lemma_bytes_field_roundtrip(r.sn_peer_id, r2);
    lemma_bytes_field_roundtrip(r.peer_id, r3);
    lemma_u64_roundtrip(r.registration_generation, r4);
    lemma_u64_roundtrip(r.request_id, r5);
    lemma_u64_roundtrip(r.probe_config_generation, r6);
    lemma_profile_roundtrip(r.profile, r7);
}

/// The probe control a report carries: its version, then its result when
/// there is one (1 and the result, else 0).
pub open spec fn spec_control_bytes(version: u8, result: Option<NatProbeResultView>) -> Seq<u8> {
    seq![version] + match result {
        None => seq![0u8],
        Some(r) => seq![1u8] + spec_probe_result_bytes(r),
    }
}

pub open spec fn spec_parse_control(b: Seq<u8>) -> Option<((u8, Option<NatProbeResultView>), Seq<u8>)> {
    match spec_parse_u8(b) {
        None => None,
        Some((v, r1)) => match spec_parse_u8(r1) {
            None => None,
            Some((t, r2)) => if t == 1 {
                match spec_parse_probe_result(r2) {
                    None => None,
                    Some((r, r3)) => Some(((v, Some(r)), r3)),
                }
            } else {
                Some(((v, None), r2))
            },
        },
    }
}

pub proof fn lemma_control_roundtrip(version: u8, result: Option<NatProbeResultView>, rest: Seq<u8>)
    requires
        result matches Some(r) ==> r.sn_peer_id.len() <= MAX_LIST_LEN && r.peer_id.len()
            <= MAX_LIST_LEN,
    ensures
        spec_parse_control(spec_control_bytes(version, result) + rest) == Some(
            ((version, result), rest),
        ),
        spec_control_bytes(version, result).len() <= 0x1000_0042,
{
    match result {
        None => {
            let r1 = seq![0u8] + rest;
            assert(spec_control_bytes(version, result) + rest =~= seq![version] + r1);
            lemma_u8_roundtrip(version, r1);
            lemma_u8_roundtrip(0u8, rest);
        },
        Some(r) => {
            let p = spec_probe_result_bytes(r);
            let r2 = p + rest;
            let r1 = seq![1u8] + r2;
            assert(spec_control_bytes(version, result) + rest =~= seq![version] + r1);
            lemma_u8_roundtrip(version, r1);
            lemma_u8_roundtrip(1u8, r2);
            lemma_probe_result_roundtrip(r, rest);
        },
    }
}

/// Whether a result is of the current control version with a supported
/// profile.
pub open spec fn spec_result_supported(r: NatProbeResultView) -> bool {
    r.version == NAT_PROBE_CONTROL_VERSION && r.profile.spec_is_supported()
}

// ----- the extensions -----

/// The profile extension of a report, empty without a profile.
pub open spec fn spec_report_profile_ext_bytes(p: Option<NatProfile>) -> Seq<u8> {
    match p {
        Some(p) => spec_extension_bytes(spec_profile_bytes(p), REPORT_SN_EXTENSION_MAGIC),
        None => Seq::empty(),
    }
}

/// Whether a report carries a probe control: when it has a control version
/// or a result.
pub open spec fn spec_has_control(v: Option<u8>, r: Option<NatProbeResultView>) -> bool {
    v is Some || r is Some
}

/// The probe-control extension of a report: present when the report has a
/// control version or a result, its version 0 when it has none.
pub open spec fn spec_report_control_ext_bytes(v: Option<u8>, r: Option<NatProbeResultView>) -> Seq<u8> {
    if spec_has_control(v, r) {
        spec_extension_bytes(
            spec_control_bytes(
                match v {
                    Some(x) => x,
                    None => 0u8,
                },
                r,
            ),
            REPORT_SN_PROBE_RESULT_EXTENSION_MAGIC,
        )
    } else {
        Seq::empty()
    }
}

/// The bytes of a report: its legacy fields, then its NAT profile and its
/// probe control, each in its own extension when there is one.
pub open spec fn spec_report_sn_bytes(m: ReportSnView) -> Seq<u8> {
    spec_report_head_bytes(m) + spec_report_tail_bytes(m) + spec_report_profile_ext_bytes(
        m.net_profile,
    ) + spec_report_control_ext_bytes(m.nat_probe_control_version, m.nat_probe_result)
}

/// The profile the report's profile extension in `b` carries, if it is
/// there, of the current envelope version and fills its payload exactly.
pub open spec fn spec_report_profile(b: Seq<u8>) -> Option<NatProfile> {
    match spec_extension_decode(b, REPORT_SN_EXTENSION_MAGIC) {
        ExtensionFrame::Payload { start, end } => match spec_parse_profile(
            b.subrange(start as int, end as int),
        ) {
            Some((p, rr)) => if rr.len() == 0 {
                Some(p)
            } else {
                None
            },
            None => None,
        },
        _ => None,
    }
}

/// The probe control the report's control extension in `b` carries,
/// likewise.
pub open spec fn spec_report_control(b: Seq<u8>) -> Option<(u8, Option<NatProbeResultView>)> {
    match spec_extension_decode(b, REPORT_SN_PROBE_RESULT_EXTENSION_MAGIC) {
        ExtensionFrame::Payload { start, end } => match spec_parse_control(
            b.subrange(start as int, end as int),
        ) {
            Some((c, rr)) => if rr.len() == 0 {
                Some(c)
            } else {
                None
            },
            None => None,
        },
        _ => None,
    }
}

/// What a report keeps of a probe control: the control only at the current
/// version; from it, its version and its result when supported.
pub open spec fn spec_kept_control(c: Option<(u8, Option<NatProbeResultView>)>) -> (
    Option<u8>,
    Option<NatProbeResultView>,
) {
    match c {
        Some((v, r)) => if v == NAT_PROBE_CONTROL_VERSION {
            (
                Some(v),
                match r {
                    Some(x) => if spec_result_supported(x) {
                        Some(x)
                    } else {
                        None
                    },
                    None => None,
                },
            )
        } else {
            (None, None)
        },
        None => (None, None),
    }
}

/// The extensions after a report's legacy fields: its profile (kept only
/// when supported), its kept probe control, and what follows them.
pub open spec fn spec_report_exts(r: Seq<u8>) -> (Option<NatProfile>, (Option<u8>, Option<NatProbeResultView>), Seq<u8>) {
    let r4 = r.skip(spec_extension_decode(r, REPORT_SN_EXTENSION_MAGIC).spec_rest() as int);
    let r5 = r4.skip(
        spec_extension_decode(r4, REPORT_SN_PROBE_RESULT_EXTENSION_MAGIC).spec_rest() as int,
    );
    (
        spec_supported_profile(spec_report_profile(r)),
        spec_kept_control(spec_report_control(r4)),
        r5,
    )
}

/// A report read from the start of `b`, with the profile and probe control
/// it keeps, and what follows it.
pub open spec fn spec_parse_report_sn(b: Seq<u8>) -> Option<(ReportSnView, Seq<u8>)> {
    match spec_parse_report_head(b) {
        None => None,
        Some((h, r1)) => match spec_parse_report_tail(r1) {
            None => None,
            Some((t, r2)) => {
                let exts = spec_report_exts(r2);
                Some(
                    (
                        ReportSnView {
                            protocol_version: h.protocol_version,
                            stack_version: h.stack_version,
                            seq: Sequence(h.seq),
                            sn_peer_id: h.sn_peer_id,
                            from_peer_id: h.from_peer_id,
                            peer_info: h.peer_info,
                            send_time: h.send_time,
                            contract_id: h.contract_id,
                            receipt: t.receipt,
                            map_ports: t.map_ports,
                            local_eps: t.local_eps,
                            net_profile: exts.0,
                            nat_probe_control_version: exts.1.0,
                            nat_probe_result: exts.1.1,
                        },
                        exts.2,
                    ),
                )
            },
        },
    }
}

/// A report whose fields are short enough, and whose receipt is recent and
/// short enough, to be read back.
pub open spec fn spec_report_readable(m: ReportSnView) -> bool {
    &&& m.sn_peer_id.len() <= MAX_LIST_LEN
    &&& m.from_peer_id matches Some(s) ==> s.len() <= MAX_LIST_LEN
    &&& m.peer_info matches Some(s) ==> s.len() <= MAX_LIST_LEN
    &&& m.contract_id matches Some(s) ==> s.len() <= MAX_LIST_LEN
    &&& m.receipt matches Some((r, s)) ==> r.start_time >= crate::time::spec_min_bucky_time()
        && r.duration_ms <= u32::MAX && s.len() <= MAX_LIST_LEN
    &&& m.map_ports.len() <= MAX_LIST_LEN
    &&& m.local_eps.len() <= MAX_LIST_LEN
    &&& m.nat_probe_result matches Some(r) ==> r.sn_peer_id.len() <= MAX_LIST_LEN
        && r.peer_id.len() <= MAX_LIST_LEN
}

/// A report whose variable-size fields each fit a count.
pub open spec fn spec_report_encodable(m: ReportSnView) -> bool {
    &&& m.sn_peer_id.len() <= VARSIZE_MAX
    &&& m.from_peer_id matches Some(s) ==> s.len() <= VARSIZE_MAX
    &&& m.peer_info matches Some(s) ==> s.len() <= VARSIZE_MAX
    &&& m.contract_id matches Some(s) ==> s.len() <= VARSIZE_MAX
    &&& m.receipt matches Some((r, s)) ==> s.len() <= VARSIZE_MAX
    &&& m.map_ports.len() <= VARSIZE_MAX
    &&& m.local_eps.len() <= VARSIZE_MAX
    &&& m.nat_probe_result matches Some(r) ==> r.sn_peer_id.len() <= VARSIZE_MAX
        && r.peer_id.len() <= VARSIZE_MAX
}

/// Whether the report's probe control is too long for its extension's
/// 32-bit length.
pub open spec fn spec_control_too_long(m: ReportSnView) -> bool {
    spec_has_control(m.nat_probe_control_version, m.nat_probe_result) && spec_control_bytes(
        match m.nat_probe_control_version {
            Some(x) => x,
            None => 0u8,
        },
        m.nat_probe_result,
    ).len() > u32::MAX
}

/// What a report keeps of its own probe control when read back.
pub open spec fn spec_own_kept_control(v: Option<u8>, r: Option<NatProbeResultView>) -> (
    Option<u8>,
    Option<NatProbeResultView>,
) {
    if spec_has_control(v, r) {
        spec_kept_control(
            Some(
                (
                    match v {
                        Some(x) => x,
                        None => 0u8,
                    },
                    r,
                ),
            ),
        )
    } else {
        (None, None)
    }
}

proof fn lemma_report_head_roundtrip(m: ReportSnView, rest: Seq<u8>)
    requires
        spec_report_readable(m),
    ensures
        spec_parse_report_head(spec_report_head_bytes(m) + rest) == Some(
            (
                ReportHead {
                    protocol_version: m.protocol_version,
                    stack_version: m.stack_version,
                    seq: m.seq.0,
                    sn_peer_id: m.sn_peer_id,
                    from_peer_id: m.from_peer_id,
                    peer_info: m.peer_info,
                    send_time: m.send_time,
                    contract_id: m.contract_id,
                },
                rest,
            ),
        ),
{
    reveal(spec_report_head_bytes);
    reveal(spec_parse_report_head);
    let r8 = rest;
    let r7 = spec_opt_bytes_field(m.contract_id) + r8;
    let r6 = spec_be64(m.send_time) + r7;
    let r5 = spec_opt_bytes_field(m.peer_info) + r6;
    let r4 = spec_opt_bytes_field(m.from_peer_id) + r5;
    let r3 = spec_bytes_field(m.sn_peer_id) + r4;
    let r2 = spec_be32(m.seq.0) + r3;
    let r1 = spec_be32(m.stack_version) + r2;
    let b = seq![m.protocol_version] + r1;
    assert(spec_report_head_bytes(m) + rest =~= b);
    lemma_u8_roundtrip(m.protocol_version, r1);
    lemma_u32_roundtrip(m.stack_version, r2);
    lemma_u32_roundtrip(m.seq.0, r3);
    lemma_bytes_field_roundtrip(m.sn_peer_id, r4);
    lemma_opt_bytes_field_roundtrip(m.from_peer_id, r5);
    lemma_opt_bytes_field_roundtrip(m.peer_info, r6);
    lemma_u64_roundtrip(m.send_time, r7);
    lemma_opt_bytes_field_roundtrip(m.contract_id, r8);
}

proof fn lemma_report_tail_roundtrip(m: ReportSnView, rest: Seq<u8>)
    requires
        spec_report_readable(m),
    ensures
        spec_parse_report_tail(spec_report_tail_bytes(m) + rest) == Some(
            (ReportTail { receipt: m.receipt, map_ports: m.map_ports, local_eps: m.local_eps }, rest),
        ),
{
    reveal(spec_report_tail_bytes);
    reveal(spec_parse_report_tail);
    let r3 = rest;
    let r2 = spec_endpoint_list_bytes(m.local_eps) + r3;
    let r1 = spec_port_list_bytes(m.map_ports) + r2;
    let b = spec_receipt_sig_bytes(m.receipt) + r1;
    assert(spec_report_tail_bytes(m) + rest =~= b);
    lemma_receipt_sig_roundtrip(m.receipt, r1);
    lemma_port_list_roundtrip(m.map_ports, r2);
    lemma_endpoint_list_roundtrip(m.local_eps, r3);
}

proof fn lemma_control_ext_alone(v: Option<u8>, r: Option<NatProbeResultView>)
    requires
        r matches Some(x) ==> x.sn_peer_id.len() <= MAX_LIST_LEN && x.peer_id.len()
            <= MAX_LIST_LEN,
    ensures
        ({
            let e2 = spec_report_control_ext_bytes(v, r);
            &&& spec_extension_decode(e2, REPORT_SN_EXTENSION_MAGIC) == ExtensionFrame::Absent
            &&& spec_kept_control(spec_report_control(e2)) == spec_own_kept_control(v, r)
            &&& e2.skip(
                spec_extension_decode(e2, REPORT_SN_PROBE_RESULT_EXTENSION_MAGIC).spec_rest() as int,
            ) == Seq::<u8>::empty()
        }),
{
    let e2 = spec_report_control_ext_bytes(v, r);
    let ver = match v {
        Some(x) => x,
        None => 0u8,
    };
    let payload2 = spec_control_bytes(ver, r);
    lemma_control_roundtrip(ver, r, Seq::empty());
    if spec_has_control(v, r) {
        lemma_other_extension_absent(
            payload2,
            REPORT_SN_PROBE_RESULT_EXTENSION_MAGIC,
            REPORT_SN_EXTENSION_MAGIC,
            Seq::empty(),
        );
        assert(payload2 + Seq::<u8>::empty() =~= payload2);
        lemma_extension_roundtrip(payload2, REPORT_SN_PROBE_RESULT_EXTENSION_MAGIC, Seq::empty());
        assert(e2 + Seq::<u8>::empty() =~= e2);
        assert(spec_report_control(e2) == Some((ver, r)));
        assert(e2.skip(e2.len() as int) =~= Seq::<u8>::empty());
    } else {
        assert(spec_extension_decode(e2, REPORT_SN_PROBE_RESULT_EXTENSION_MAGIC)
            == ExtensionFrame::Absent);
        assert(e2.skip(0) =~= e2);
    }
}

proof fn lemma_report_exts_roundtrip(
    p: Option<NatProfile>,
    v: Option<u8>,
    r: Option<NatProbeResultView>,
)
    requires
        r matches Some(x) ==> x.sn_peer_id.len() <= MAX_LIST_LEN && x.peer_id.len()
            <= MAX_LIST_LEN,
    ensures
        spec_report_exts(spec_report_profile_ext_bytes(p) + spec_report_control_ext_bytes(v, r))
            == (spec_supported_profile(p), spec_own_kept_control(v, r), Seq::<u8>::empty()),
{
    let e1 = spec_report_profile_ext_bytes(p);
    let e2 = spec_report_control_ext_bytes(v, r);
    let all = e1 + e2;
    lemma_control_ext_alone(v, r);
    match p {
        Some(x) => {
            let payload = spec_profile_bytes(x);
            lemma_profile_roundtrip(x, Seq::empty());
            assert(payload + Seq::<u8>::empty() =~= payload);
            lemma_extension_roundtrip(payload, REPORT_SN_EXTENSION_MAGIC, e2);
            assert(spec_report_profile(all) == Some(x));
            assert(all.skip(e1.len() as int) =~= e2);
        },
        None => {
            assert(all =~= e2);
            assert(all.skip(0) =~= e2);
        },
    }
}

/// A report reads back from its own bytes: its NAT profile kept when
/// supported, its probe control kept only at the current version (its
/// result only when supported), with nothing left over.
pub proof fn lemma_report_sn_roundtrip(m: ReportSnView)
    requires
        spec_report_readable(m),
    ensures
        spec_parse_report_sn(spec_report_sn_bytes(m)) == Some(
            (
                ReportSnView {
                    net_profile: spec_supported_profile(m.net_profile),
                    nat_probe_control_version: spec_own_kept_control(
                        m.nat_probe_control_version,
                        m.nat_probe_result,
                    ).0,
                    nat_probe_result: spec_own_kept_control(
                        m.nat_probe_control_version,
                        m.nat_probe_result,
                    ).1,
                    ..m
                },
                Seq::<u8>::empty(),
            ),
        ),
{
    let ext = spec_report_profile_ext_bytes(m.net_profile) + spec_report_control_ext_bytes(
        m.nat_probe_control_version,
        m.nat_probe_result,
    );
    let t = spec_report_tail_bytes(m);
    let h = spec_report_head_bytes(m);
    assert(spec_report_sn_bytes(m) =~= h + (t + ext));
    lemma_report_head_roundtrip(m, t + ext);
    lemma_report_tail_roundtrip(m, ext);
    lemma_report_exts_roundtrip(m.net_profile, m.nat_probe_control_version, m.nat_probe_result);
}

// ----- encoding -----

fn protocol_index(p: Protocol) -> (r: u8)
    ensures
        r == spec_protocol_tag(p),
{
    match p {
        Protocol::Unk => 0,
        Protocol::Tcp => 1,
        Protocol::Udp => 2,
        Protocol::Quic => 3,
    }
}

fn append_opt_id(out: &mut Vec<u8>, o: &Option<P2pId>)
    requires
        o matches Some(id) ==> id@.len() <= VARSIZE_MAX,
    ensures
        final(out)@ == old(out)@ + spec_opt_bytes_field(spec_opt_id(*o)),
{
    match o {
        None => {
            let t = encode_u8(0);
            append_bytes(out, t.as_slice());
        },
        Some(id) => {
            let t = encode_u8(1);
            append_bytes(out, t.as_slice());
            append_bytes_field(out, id.0.as_slice());
            assert(final(out)@ =~= old(out)@ + spec_opt_bytes_field(Some(id@)));
        },
    }
}

fn append_report_head(out: &mut Vec<u8>, m: &ReportSn)
    requires
        m.sn_peer_id@.len() <= VARSIZE_MAX,
        m.from_peer_id matches Some(id) ==> id@.len() <= VARSIZE_MAX,
        m.peer_info matches Some(s) ==> s@.len() <= VARSIZE_MAX,
        m.contract_id matches Some(id) ==> id@.len() <= VARSIZE_MAX,
    ensures
        final(out)@ == old(out)@ + spec_report_head_bytes(m@),
{
    reveal(spec_report_head_bytes);
    let ghost v = m@;
    let ghost o0 = out@;
    let pv = encode_u8(m.protocol_version);
    append_bytes(out, pv.as_slice());
    let sv = encode_u32(m.stack_version);
    append_bytes(out, sv.as_slice());
    let seq = encode_u32(m.seq.0);
    append_bytes(out, seq.as_slice());
    append_bytes_field(out, m.sn_peer_id.0.as_slice());
    let ghost o1 = out@;
    append_opt_id(out, &m.from_peer_id);
    let ghost o2 = out@;
    append_opt_bytes_field(out, &m.peer_info);
    let ghost o3 = out@;
    let time = encode_u64(m.send_time);
    append_bytes(out, time.as_slice());
    let ghost o4 = out@;
    append_opt_id(out, &m.contract_id);
    proof {
        let a = seq![v.protocol_version] + spec_be32(v.stack_version) + spec_be32(v.seq.0)
            + spec_bytes_field(v.sn_peer_id);
        let b = spec_opt_bytes_field(v.from_peer_id);
        let c = spec_opt_bytes_field(v.peer_info);
        let d = spec_be64(v.send_time);
        let e = spec_opt_bytes_field(v.contract_id);
        assert(o1 =~= o0 + a);
        assert(o2 == o1 + b);
        assert(o3 == o2 + c);
        assert(o4 == o3 + d);
        assert(out@ == o4 + e);
        assert(spec_report_head_bytes(v) == a + b + c + d + e);
        assert(out@ =~= o0 + (a + b + c + d + e));
    }
}

fn append_receipt_sig(out: &mut Vec<u8>, o: &Option<ReceiptWithSignature>)
    requires
        o matches Some(r) ==> r.spec_signature().len() <= VARSIZE_MAX,
    ensures
        final(out)@ == old(out)@ + spec_receipt_sig_bytes(spec_receipt_sig_view(*o)),
{
    reveal(spec_receipt_sig_bytes);
    match o {
        None => {
            let t = encode_u8(0);
            append_bytes(out, t.as_slice());
        },
        Some(r) => {
            let t = encode_u8(1);
            append_bytes(out, t.as_slice());
            let rec = r.receipt().encode();
            append_bytes(out, rec.as_slice());
            append_bytes_field(out, r.signature().as_slice());
            assert(final(out)@ =~= old(out)@ + spec_receipt_sig_bytes(spec_receipt_sig_view(*o)));
        },
    }
}

fn append_port_list(out: &mut Vec<u8>, ports: &[(Protocol, u16)])
    requires
        ports@.len() <= VARSIZE_MAX,
    ensures
        final(out)@ == old(out)@ + spec_port_list_bytes(ports@),
{
    reveal(spec_port_list_bytes);
    let n = encode_varsize(ports.len() as u64);
    append_bytes(out, n.as_slice());
    let ghost start = out@;
    let mut i: usize = 0;
    assert(ports@.skip(0) =~= ports@);
    while i < ports.len()
        invariant
            i <= ports@.len(),
            start + spec_ports_concat(ports@) == out@ + spec_ports_concat(ports@.skip(i as int)),
        decreases ports.len() - i,
    {
        let ghost before = out@;
        let (p, port) = ports[i];
        let t = encode_u8(protocol_index(p));
        append_bytes(out, t.as_slice());
        let pb = encode_u16(port);
        append_bytes(out, pb.as_slice());
        proof {
            let s = ports@.skip(i as int);
            assert(s.drop_first() =~= ports@.skip(i + 1));
            assert(s[0] == ports@[i as int]);
            assert(out@ =~= before + spec_port_bytes(s[0]));
            assert(before + spec_ports_concat(s) =~= out@ + spec_ports_concat(ports@.skip(i + 1)));
        }
        i = i + 1;
    }
    assert(ports@.skip(ports@.len() as int) =~= Seq::<(Protocol, u16)>::empty());
    assert(out@ =~= start + spec_ports_concat(ports@));
    assert(final(out)@ =~= old(out)@ + spec_port_list_bytes(ports@));
}

fn append_report_tail(out: &mut Vec<u8>, m: &ReportSn)
    requires
        m.receipt matches Some(r) ==> r.spec_signature().len() <= VARSIZE_MAX,
        m.map_ports@.len() <= VARSIZE_MAX,
        m.local_eps@.len() <= VARSIZE_MAX,
    ensures
        final(out)@ == old(out)@ + spec_report_tail_bytes(m@),
{
    reveal(spec_report_tail_bytes);
    let ghost o0 = out@;
    append_receipt_sig(out, &m.receipt);
    let ghost o1 = out@;
    append_port_list(out, m.map_ports.as_slice());
    let ghost o2 = out@;
    append_endpoint_list(out, m.local_eps.as_slice());
    assert(out@ =~= o0 + spec_report_tail_bytes(m@));
}

fn append_probe_result(out: &mut Vec<u8>, r: &NatProbeResult)
    requires
        r.sn_peer_id@.len() <= VARSIZE_MAX,
        r.peer_id@.len() <= VARSIZE_MAX,
    ensures
        final(out)@ == old(out)@ + spec_probe_result_bytes(r@),
{
    reveal(spec_probe_result_bytes);
    let v = encode_u8(r.version);
    append_bytes(out, v.as_slice());
    append_bytes_field(out, r.sn_peer_id.0.as_slice());
    append_bytes_field(out, r.peer_id.0.as_slice());
    let a = encode_u64(r.registration_generation);
    append_bytes(out, a.as_slice());
    let b = encode_u64(r.request_id);
    append_bytes(out, b.as_slice());
    let c = encode_u64(r.probe_config_generation);
    append_bytes(out, c.as_slice());
    let p = encode_profile(&r.profile);
    append_bytes(out, p.as_slice());
    assert(final(out)@ =~= old(out)@ + spec_probe_result_bytes(r@));
}

fn encode_control(version: u8, result: &Option<NatProbeResult>) -> (r: Vec<u8>)
    requires
        result matches Some(x) ==> x.sn_peer_id@.len() <= VARSIZE_MAX && x.peer_id@.len()
            <= VARSIZE_MAX,
    ensures
        r@ == spec_control_bytes(version, spec_opt_result_view(*result)),
{
    let mut out = encode_u8(version);
    match result {
        None => {
            let t = encode_u8(0);
            append_bytes(&mut out, t.as_slice());
        },
        Some(x) => {
            let t = encode_u8(1);
            append_bytes(&mut out, t.as_slice());
            append_probe_result(&mut out, x);
        },
    }
    assert(out@ =~= spec_control_bytes(version, spec_opt_result_view(*result)));
    out
}

impl ReportSn {
    /// The bytes of this report.
    #[verifier::rlimit(50)]
    pub fn to_vec(&self) -> (r: P2pResult<Vec<u8>>)
        requires
            spec_report_encodable(self@),
        ensures
            r matches Ok(v) ==> v@ == spec_report_sn_bytes(self@),
            r is Err <==> spec_control_too_long(self@),
            r matches Err(e) ==> e.code == P2pErrorCode::OutOfLimit,
    {
        let mut out: Vec<u8> = Vec::new();
        append_report_head(&mut out, self);
        append_report_tail(&mut out, self);
        let ghost legacy = out@;
        match &self.net_profile {
            Some(p) => {
                let payload = encode_profile(p);
                proof {
                    lemma_profile_roundtrip(*p, Seq::empty());
                }
                match extension_encode(Some(payload.as_slice()), REPORT_SN_EXTENSION_MAGIC, &mut out) {
                    Ok(()) => {},
                    Err(e) => {
                        return Err(e);
                    },
                }
            },
            None => {},
        }
        let ghost with_profile = out@;
        if self.nat_probe_control_version.is_some() || self.nat_probe_result.is_some() {
            let version = match self.nat_probe_control_version {
                Some(v) => v,
                None => 0,
            };
            let payload = encode_control(version, &self.nat_probe_result);
            match extension_encode(
                Some(payload.as_slice()),
                REPORT_SN_PROBE_RESULT_EXTENSION_MAGIC,
                &mut out,
            ) {
                Ok(()) => {},
                Err(e) => {
                    return Err(e);
                },
            }
        }
        assert(out@ =~= spec_report_sn_bytes(self@));
        Ok(out)
    }
}

// ----- decoding -----

pub(crate) fn decode_receipt(buf: &[u8]) -> (r: Option<(SnServiceReceipt, usize)>)
    ensures
        match spec_parse_receipt(buf@) {
            None => r is None,
            Some((v, rest)) => r matches Some((x, n)) && x == v && n <= buf@.len() && rest
                == buf@.skip(n as int),
        },
{
    match SnServiceReceipt::decode(buf) {
        Ok((rec, n)) => {
            proof {
                assert(spec_receipt_fields_match(rec, buf@));
                lemma_receipt_fields_unique(rec, spec_receipt_of(buf@), buf@);
            }
            Some((rec, n))
        },
        Err(_) => None,
    }
}

fn decode_receipt_sig(buf: &[u8]) -> (r: Option<(Option<ReceiptWithSignature>, usize)>)
    ensures
        match spec_parse_receipt_sig(buf@) {
            None => r is None,
            Some((v, rest)) => r matches Some((x, n)) && spec_receipt_sig_view(x) == v && n
                <= buf@.len() && rest == buf@.skip(n as int),
        },
{
    reveal(spec_parse_receipt_sig);
    let ghost b = buf@;
    let (t, n0) = match decode_u8_field(buf) {
        Some(p) => p,
        None => {
            return None;
        },
    };
    if t != 1 {
        return Some((None, n0));
    }
    let s1 = &buf[n0..buf.len()];
    assert(s1@ =~= b.skip(n0 as int));
    let (rec, n1) = match decode_receipt(s1) {
        Some(p) => p,
        None => {
            return None;
        },
    };
    assert(b.skip(n0 as int).skip(n1 as int) =~= b.skip(n0 + n1));
    let p1 = n0 + n1;
    let s2 = &buf[p1..buf.len()];
    assert(s2@ =~= b.skip(p1 as int));
    let (sig, n2) = match decode_bytes_field(s2) {
        Some(p) => p,
        None => {
            return None;
        },
    };
    assert(b.skip(p1 as int).skip(n2 as int) =~= b.skip(p1 + n2));
    Some((Some(ReceiptWithSignature::from_parts(rec, sig)), p1 + n2))
}

fn decode_port(buf: &[u8]) -> (r: Option<((Protocol, u16), usize)>)
    ensures
        match spec_parse_port(buf@) {
            None => r is None,
            Some((v, rest)) => r matches Some((x, n)) && x == v && n <= buf@.len() && rest
                == buf@.skip(n as int),
        },
{
    let (t, n0) = match decode_u8_field(buf) {
        Some(p) => p,
        None => {
            return None;
        },
    };
    let s1 = &buf[n0..buf.len()];
    assert(s1@ =~= buf@.skip(n0 as int));
    let port = match decode_u16(s1) {
        Some(v) => v,
        None => {
            return None;
        },
    };
    assert(buf@.skip(n0 as int).skip(2) =~= buf@.skip(n0 + 2));
    let p = if t == 0 {
        Protocol::Unk
    } else if t == 1 {
        Protocol::Tcp
    } else if t == 2 {
        Protocol::Udp
    } else if t == 3 {
        Protocol::Quic
    } else {
        return None;
    };
    Some(((p, port), n0 + 2))
}

fn decode_port_list(buf: &[u8]) -> (r: Option<(Vec<(Protocol, u16)>, usize)>)
    ensures
        match spec_parse_port_list(buf@) {
            None => r is None,
            Some((v, rest)) => r matches Some((x, n)) && x@ == v && n <= buf@.len() && rest
                == buf@.skip(n as int),
        },
{
    reveal(spec_parse_port_list);
    let (count, k) = match decode_varsize(buf) {
        Some(p) => p,
        None => {
            return None;
        },
    };
    if count > MAX_LIST_LEN {
        return None;
    }
    let ghost b0 = buf@.skip(k as int);
    let mut out: Vec<(Protocol, u16)> = Vec::new();
    let mut pos: usize = k;
    let mut i: u64 = 0;
    while i < count
        invariant
            k <= pos <= buf@.len(),
            i <= count <= MAX_LIST_LEN,
            b0 == buf@.skip(k as int),
            spec_parse_port_list(buf@) == spec_parse_ports_n(b0, count as nat),
            spec_parse_ports_n(b0, count as nat) == match spec_parse_ports_n(
                buf@.skip(pos as int),
                (count - i) as nat,
            ) {
                None => None,
                Some((ps, r)) => Some((out@ + ps, r)),
            },
        decreases count - i,
    {
        let part = &buf[pos..buf.len()];
        assert(part@ =~= buf@.skip(pos as int));
        match decode_port(part) {
            None => {
                return None;
            },
            Some((e, n)) => {
                proof {
                    assert(buf@.skip(pos as int).skip(n as int) =~= buf@.skip(pos + n));
                    let rest_n = spec_parse_ports_n(buf@.skip(pos + n), (count - i - 1) as nat);
                    match rest_n {
                        None => {},
                        Some((ps, r)) => {
                            assert(out@ + (seq![e] + ps) =~= out@.push(e) + ps);
                        },
                    }
                }
                out.push(e);
                pos = pos + n;
            },
        }
        i = i + 1;
    }
    assert(out@ + Seq::<(Protocol, u16)>::empty() =~= out@);
    Some((out, pos))
}

type ReportHeadFields = (u8, u32, u32, Vec<u8>, Option<Vec<u8>>, Option<Vec<u8>>, u64, Option<Vec<u8>>);

pub open spec fn spec_opt_bytes_view(o: Option<Vec<u8>>) -> Option<Seq<u8>> {
    match o {
        Some(v) => Some(v@),
        None => None,
    }
}

#[verifier::rlimit(40)]
fn decode_report_head(buf: &[u8]) -> (r: Option<(ReportHeadFields, usize)>)
    ensures
        match spec_parse_report_head(buf@) {
            None => r is None,
            Some((h, rest)) => r matches Some((f, n)) && f.0 == h.protocol_version && f.1
                == h.stack_version && f.2 == h.seq && f.3@ == h.sn_peer_id && spec_opt_bytes_view(
                f.4,
            ) == h.from_peer_id && spec_opt_bytes_view(f.5) == h.peer_info && f.6 == h.send_time
                && spec_opt_bytes_view(f.7) == h.contract_id && n <= buf@.len() && rest
                == buf@.skip(n as int),
        },
{
    reveal(spec_parse_report_head);
    let ghost b = buf@;
    let (pv, n) = match decode_u8_field(buf) {
        Some(p) => p,
        None => {
            return None;
        },
    };
    let mut pos: usize = n;
    let s = &buf[pos..buf.len()];
    assert(s@ =~= b.skip(pos as int));
    let (sv, n) = match decode_u32_field(s) {
        Some(p) => p,
        None => {
            return None;
        },
    };
    assert(b.skip(pos as int).skip(n as int) =~= b.skip(pos + n));
    pos = pos + n;
    let s = &buf[pos..buf.len()];
    assert(s@ =~= b.skip(pos as int));
    let (seq, n) = match decode_u32_field(s) {
        Some(p) => p,
        None => {
            return None;
        },
    };
    assert(b.skip(pos as int).skip(n as int) =~= b.skip(pos + n));
    pos = pos + n;
    let s = &buf[pos..buf.len()];
    assert(s@ =~= b.skip(pos as int));
    let (sn, n) = match decode_bytes_field(s) {
        Some(p) => p,
        None => {
            return None;
        },
    };
    assert(b.skip(pos as int).skip(n as int) =~= b.skip(pos + n));
    pos = pos + n;
    let s = &buf[pos..buf.len()];
    assert(s@ =~= b.skip(pos as int));
    let (from, n) = match decode_opt_bytes_field(s) {
        Some(p) => p,
        None => {
            return None;
        },
    };
    assert(b.skip(pos as int).skip(n as int) =~= b.skip(pos + n));
    pos = pos + n;
    let s = &buf[pos..buf.len()];
    assert(s@ =~= b.skip(pos as int));
    let (info, n) = match decode_opt_bytes_field(s) {
        Some(p) => p,
        None => {
            return None;
        },
    };
    assert(b.skip(pos as int).skip(n as int) =~= b.skip(pos + n));
    pos = pos + n;
    let s = &buf[pos..buf.len()];
    assert(s@ =~= b.skip(pos as int));
    let (time, n) = match decode_u64_field(s) {
        Some(p) => p,
        None => {
            return None;
        },
    };
    assert(b.skip(pos as int).skip(n as int) =~= b.skip(pos + n));
    pos = pos + n;
    let s = &buf[pos..buf.len()];
    assert(s@ =~= b.skip(pos as int));
    let (contract, n) = match decode_opt_bytes_field(s) {
        Some(p) => p,
        None => {
            return None;
        },
    };
    assert(b.skip(pos as int).skip(n as int) =~= b.skip(pos + n));
    pos = pos + n;
    Some(((pv, sv, seq, sn, from, info, time, contract), pos))
}

type ReportTailFields = (Option<ReceiptWithSignature>, Vec<(Protocol, u16)>, Vec<Endpoint>);

fn decode_report_tail(buf: &[u8]) -> (r: Option<(ReportTailFields, usize)>)
    ensures
        match spec_parse_report_tail(buf@) {
            None => r is None,
            Some((t, rest)) => r matches Some((f, n)) && spec_receipt_sig_view(f.0) == t.receipt
                && f.1@ == t.map_ports && f.2@ == t.local_eps && n <= buf@.len() && rest
                == buf@.skip(n as int),
        },
{
    reveal(spec_parse_report_tail);
    let ghost b = buf@;
    let (receipt, n) = match decode_receipt_sig(buf) {
        Some(p) => p,
        None => {
            return None;
        },
    };
    let mut pos: usize = n;
    let s = &buf[pos..buf.len()];
    assert(s@ =~= b.skip(pos as int));
    let (ports, n) = match decode_port_list(s) {
        Some(p) => p,
        None => {
            return None;
        },
    };
    assert(b.skip(pos as int).skip(n as int) =~= b.skip(pos + n));
    pos = pos + n;
    let s = &buf[pos..buf.len()];
    assert(s@ =~= b.skip(pos as int));
    let (eps, n) = match decode_endpoint_list(s) {
        Some(p) => p,
        None => {
            return None;
        },
    };
    assert(b.skip(pos as int).skip(n as int) =~= b.skip(pos + n));
    pos = pos + n;
    Some(((receipt, ports, eps), pos))
}

fn decode_probe_result(buf: &[u8]) -> (r: Option<(NatProbeResult, usize)>)
    ensures
        match spec_parse_probe_result(buf@) {
            None => r is None,
            Some((v, rest)) => r matches Some((x, n)) && x@ == v && n <= buf@.len() && rest
                == buf@.skip(n as int),
        },
{
    reveal(spec_parse_probe_result);
    let ghost b = buf@;
    let (v, n) = match decode_u8_field(buf) {
        Some(p) => p,
        None => {
            return None;
        },
    };
    let mut pos: usize = n;
    let s = &buf[pos..buf.len()];
    assert(s@ =~= b.skip(pos as int));
    let (sn, n) = match decode_bytes_field(s) {
        Some(p) => p,
        None => {
            return None;
        },
    };
    assert(b.skip(pos as int).skip(n as int) =~= b.skip(pos + n));
    pos = pos + n;
    let s = &buf[pos..buf.len()];
    assert(s@ =~= b.skip(pos as int));
    let (peer, n) = match decode_bytes_field(s) {
        Some(p) => p,
        None => {
            return None;
        },
    };
    assert(b.skip(pos as int).skip(n as int) =~= b.skip(pos + n));
    pos = pos + n;
    let s = &buf[pos..buf.len()];
    assert(s@ =~= b.skip(pos as int));
    let (reg, n) = match decode_u64_field(s) {
        Some(p) => p,
        None => {
            return None;
        },
    };
    assert(b.skip(pos as int).skip(n as int) =~= b.skip(pos + n));
    pos = pos + n;
    let s = &buf[pos..buf.len()];
    assert(s@ =~= b.skip(pos as int));
    let (req, n) = match decode_u64_field(s) {
        Some(p) => p,
        None => {
            return None;
        },
    };
    assert(b.skip(pos as int).skip(n as int) =~= b.skip(pos + n));
    pos = pos + n;
    let s = &buf[pos..buf.len()];
    assert(s@ =~= b.skip(pos as int));
    let (cfg, n) = match decode_u64_field(s) {
        Some(p) => p,
        None => {
            return None;
        },
    };
    assert(b.skip(pos as int).skip(n as int) =~= b.skip(pos + n));
    pos = pos + n;
    let s = &buf[pos..buf.len()];
    assert(s@ =~= b.skip(pos as int));
    let (profile, n) = match decode_profile(s) {
        Some(p) => p,
        None => {
            return None;
        },
    };
    assert(b.skip(pos as int).skip(n as int) =~= b.skip(pos + n));
    pos = pos + n;
    Some(
        (
            NatProbeResult {
                version: v,
                sn_peer_id: P2pId(sn),
                peer_id: P2pId(peer),
                registration_generation: reg,
                request_id: req,
                probe_config_generation: cfg,
                profile,
            },
            pos,
        ),
    )
}

fn decode_control(buf: &[u8]) -> (r: Option<((u8, Option<NatProbeResult>), usize)>)
    ensures
        match spec_parse_control(buf@) {
            None => r is None,
            Some((v, rest)) => r matches Some((x, n)) && x.0 == v.0 && spec_opt_result_view(x.1)
                == v.1 && n <= buf@.len() && rest == buf@.skip(n as int),
        },
{
    let ghost b = buf@;
    let (v, n0) = match decode_u8_field(buf) {
        Some(p) => p,
        None => {
            return None;
        },
    };
    let s1 = &buf[n0..buf.len()];
    assert(s1@ =~= b.skip(n0 as int));
    let (t, n1) = match decode_u8_field(s1) {
        Some(p) => p,
        None => {
            return None;
        },
    };
    assert(b.skip(n0 as int).skip(n1 as int) =~= b.skip(n0 + n1));
    let p1 = n0 + n1;
    if t != 1 {
        return Some(((v, None), p1));
    }
    let s2 = &buf[p1..buf.len()];
    assert(s2@ =~= b.skip(p1 as int));
    match decode_probe_result(s2) {
        None => None,
        Some((res, n2)) => {
            assert(b.skip(p1 as int).skip(n2 as int) =~= b.skip(p1 + n2));
            Some(((v, Some(res)), p1 + n2))
        },
    }
}

fn decode_report_profile_ext(buf: &[u8]) -> (r: (Option<NatProfile>, usize))
    ensures
        r.0 == spec_report_profile(buf@),
        r.1 == spec_extension_decode(buf@, REPORT_SN_EXTENSION_MAGIC).spec_rest(),
        r.1 <= buf@.len(),
{
    let frame = extension_decode(buf, REPORT_SN_EXTENSION_MAGIC);
    assert(buf@.len() == buf.len());
    proof {
        lemma_extension_decode_bounds(buf@, REPORT_SN_EXTENSION_MAGIC);
    }
    let value = match frame {
        ExtensionFrame::Payload { start, end } => {
            let part = &buf[start..end];
            match decode_profile(part) {
                Some((p, n)) => {
                    if n == end - start {
                        proof {
                            assert(part@.skip(n as int) =~= Seq::<u8>::empty());
                        }
                        Some(p)
                    } else {
                        None
                    }
                },
                None => None,
            }
        },
        _ => None,
    };
    (value, frame.rest())
}

fn decode_report_control_ext(buf: &[u8]) -> (r: (Option<(u8, Option<NatProbeResult>)>, usize))
    ensures
        match r.0 {
            Some((v, x)) => Some((v, spec_opt_result_view(x))),
            None => None,
        } == spec_report_control(buf@),
        r.1 == spec_extension_decode(buf@, REPORT_SN_PROBE_RESULT_EXTENSION_MAGIC).spec_rest(),
        r.1 <= buf@.len(),
{
    let frame = extension_decode(buf, REPORT_SN_PROBE_RESULT_EXTENSION_MAGIC);
    assert(buf@.len() == buf.len());
    proof {
        lemma_extension_decode_bounds(buf@, REPORT_SN_PROBE_RESULT_EXTENSION_MAGIC);
    }
    let value = match frame {
        ExtensionFrame::Payload { start, end } => {
            let part = &buf[start..end];
            match decode_control(part) {
                Some((c, n)) => {
                    if n == end - start {
                        proof {
                            assert(part@.skip(n as int) =~= Seq::<u8>::empty());
                        }
                        Some(c)
                    } else {
                        None
                    }
                },
                None => None,
            }
        },
        _ => None,
    };
    (value, frame.rest())
}

/// A report read from the start of `buf`, and how many bytes it took.
#[verifier::rlimit(30)]
pub fn decode_report_sn(buf: &[u8]) -> (r: Option<(ReportSn, usize)>)
    ensures
        match spec_parse_report_sn(buf@) {
            None => r is None,
            Some((v, rest)) => r matches Some((x, n)) && x@ == v && n <= buf@.len() && rest
                == buf@.skip(n as int),
        },
{
    let ghost b = buf@;
    let (h, n1) = match decode_report_head(buf) {
        Some(p) => p,
        None => {
            return None;
        },
    };
    let s1 = &buf[n1..buf.len()];
    assert(s1@ =~= b.skip(n1 as int));
    let (t, n2) = match decode_report_tail(s1) {
        Some(p) => p,
        None => {
            return None;
        },
    };
    assert(b.skip(n1 as int).skip(n2 as int) =~= b.skip(n1 + n2));
    let p2 = n1 + n2;
    let s2 = &buf[p2..buf.len()];
    assert(s2@ =~= b.skip(p2 as int));
    let (profile, n3) = decode_report_profile_ext(s2);
    assert(b.skip(p2 as int).skip(n3 as int) =~= b.skip(p2 + n3));
    let p3 = p2 + n3;
    let s3 = &buf[p3..buf.len()];
    assert(s3@ =~= b.skip(p3 as int));
    let (control, n4) = decode_report_control_ext(s3);
    assert(b.skip(p3 as int).skip(n4 as int) =~= b.skip(p3 + n4));
    let control = match control {
        Some((version, result)) => Some(ReportSnProbeControl { version, result }),
        None => None,
    };
    let (net_profile, control_version, result) = report_extensions_from_wire(profile, control);
    let (pv, sv, seq, sn, from, info, time, contract) = h;
    let (receipt, ports, eps) = t;
    let from_peer_id = match from {
        Some(v) => Some(P2pId(v)),
        None => None,
    };
    let contract_id = match contract {
        Some(v) => Some(P2pId(v)),
        None => None,
    };
    let m = ReportSn {
        protocol_version: pv,
        stack_version: sv,
        seq: Sequence(seq),
        sn_peer_id: P2pId(sn),
        from_peer_id,
        peer_info: info,
        send_time: time,
        contract_id,
        receipt,
        map_ports: ports,
        local_eps: eps,
        net_profile,
        nat_probe_control_version: control_version,
        nat_probe_result: result,
    };
    Some((m, p3 + n4))
}

impl ReportSn {
    /// The report read from the start of `buf`; bytes that do not start
    /// with one are a codec error, and bytes after it are ignored.
    pub fn clone_from_slice(buf: &[u8]) -> (r: P2pResult<ReportSn>)
        ensures
            spec_parse_report_sn(buf@) is None ==> r == Err::<ReportSn, P2pError>(
                P2pError { code: P2pErrorCode::RawCodecError },
            ),
            spec_parse_report_sn(buf@) matches Some((m, rest)) ==> (r matches Ok(x) && x@ == m),
    {
        match decode_report_sn(buf) {
            None => Err(P2pError::new(P2pErrorCode::RawCodecError)),
            Some((m, _)) => Ok(m),
        }
    }
}

} // verus!
