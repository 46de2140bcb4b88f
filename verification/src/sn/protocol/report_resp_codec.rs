use vstd::prelude::*;
use crate::codec::{append_bytes, decode_u16, encode_u16, encode_u32, encode_u64, encode_u8, spec_be16, spec_be32, spec_be64};
use crate::endpoint::Endpoint;
use crate::error::{P2pError, P2pErrorCode, P2pResult};
use crate::sn::protocol::extension::{
    extension_decode, extension_encode, lemma_extension_decode_bounds, lemma_extension_roundtrip,
    lemma_other_extension_absent, spec_extension_bytes, spec_extension_decode, ExtensionFrame,
    REPORT_SN_RESP_EXTENSION_MAGIC, REPORT_SN_RESP_PROBE_DIRECTIVE_EXTENSION_MAGIC,
};
use crate::sn::protocol::message::{report_resp_extensions_from_wire, ReportSnResp};
use crate::sn::protocol::receipt::{spec_receipt_bytes, SnServiceReceipt};
use crate::sn::protocol::report_codec::{decode_receipt, lemma_receipt_read_back, spec_parse_receipt};
use crate::sn::protocol::sn::{
    spec_supported_nat_probe_ports, NatProbeDirective, NatProbeDirectiveView,
    NAT_PROBE_CONTROL_VERSION,
};
use crate::sn::protocol::wire::{
    append_bytes_field, append_endpoint_list, append_opt_bytes_field, decode_bytes_field,
    decode_endpoint_list, decode_opt_bytes_field, decode_u32_field, decode_u64_field,
    decode_u8_field, decode_varsize, encode_varsize, lemma_bytes_field_roundtrip,
    lemma_endpoint_list_roundtrip, lemma_opt_bytes_field_roundtrip, lemma_u16_roundtrip,
    lemma_u32_roundtrip, lemma_u64_roundtrip, lemma_u8_roundtrip, lemma_varsize_roundtrip,
    spec_bytes_field, spec_endpoint_list_bytes, spec_opt_bytes_field, spec_parse_bytes_field,
    spec_parse_endpoint_list, spec_parse_opt_bytes_field, spec_parse_u16, spec_parse_u32,
    spec_parse_u64, spec_parse_u8, spec_parse_varsize, spec_varsize, MAX_LIST_LEN, VARSIZE_MAX,
};
use crate::types::{P2pId, Sequence};

verus! {

pub struct ReportSnRespView {
    pub seq: Sequence,
    pub sn_peer_id: Seq<u8>,
    pub result: u8,
    pub peer_info: Option<Seq<u8>>,
    pub end_point_array: Seq<Endpoint>,
    pub receipt: Option<SnServiceReceipt>,
    pub nat_probe_ports: Seq<u16>,
    pub nat_probe_directive: Option<NatProbeDirectiveView>,
}

pub open spec fn spec_opt_directive_view(o: Option<NatProbeDirective>) -> Option<NatProbeDirectiveView> {
    match o {
        Some(d) => Some(d@),
        None => None,
    }
}

impl View for ReportSnResp {
    type V = ReportSnRespView;

    open spec fn view(&self) -> ReportSnRespView {
        ReportSnRespView {
            seq: self.seq,
            sn_peer_id: self.sn_peer_id@,
            result: self.result,
            peer_info: match self.peer_info {
                Some(v) => Some(v@),
                None => None,
            },
            end_point_array: self.end_point_array@,
            receipt: self.receipt,
            nat_probe_ports: self.nat_probe_ports@,
            nat_probe_directive: spec_opt_directive_view(self.nat_probe_directive),
        }
    }
}

// ----- port lists -----

pub open spec fn spec_u16s_concat(ports: Seq<u16>) -> Seq<u8>
    decreases ports.len(),
{
    if ports.len() == 0 {
        Seq::empty()
    } else {
        spec_be16(ports[0]) + spec_u16s_concat(ports.drop_first())
    }
}

/// A list of ports: its length as a count, then each port big-endian.
#[verifier::opaque]
pub open spec fn spec_u16_list_bytes(ports: Seq<u16>) -> Seq<u8> {
    spec_varsize(ports.len()) + spec_u16s_concat(ports)
}

pub open spec fn spec_parse_u16s_n(b: Seq<u8>, n: nat) -> Option<(Seq<u16>, Seq<u8>)>
    decreases n,
{
    if n == 0 {
        Some((Seq::empty(), b))
    } else {
        match spec_parse_u16(b) {
            None => None,
            Some((p, r)) => match spec_parse_u16s_n(r, (n - 1) as nat) {
                None => None,
                Some((ps, r2)) => Some((seq![p] + ps, r2)),
            },
        }
    }
}

/// A list of ports read from the start of `b`; one announcing more than
/// `MAX_LIST_LEN` ports is refused.
#[verifier::opaque]
pub open spec fn spec_parse_u16_list(b: Seq<u8>) -> Option<(Seq<u16>, Seq<u8>)> {
    match spec_parse_varsize(b) {
        None => None,
        Some((n, rest)) => if n > MAX_LIST_LEN {
            None
        } else {
            spec_parse_u16s_n(rest, n)
        },
    }
}

pub proof fn lemma_u16s_n_roundtrip(ports: Seq<u16>, rest: Seq<u8>)
    ensures
        spec_parse_u16s_n(spec_u16s_concat(ports) + rest, ports.len()) == Some((ports, rest)),
        spec_u16s_concat(ports).len() == 2 * ports.len(),
    decreases ports.len(),
{
    if ports.len() > 0 {
        let tail = ports.drop_first();
        let t = spec_u16s_concat(tail);
        assert(spec_u16s_concat(ports) + rest =~= spec_be16(ports[0]) + (t + rest));
        lemma_u16_roundtrip(ports[0], t + rest);
        crate::codec::lemma_be16_roundtrip(ports[0]);
        lemma_u16s_n_roundtrip(tail, rest);
        assert(seq![ports[0]] + tail =~= ports);
    } else {
        assert(spec_u16s_concat(ports) + rest =~= rest);
        assert(ports =~= Seq::<u16>::empty());
    }
}

pub proof fn lemma_u16_list_roundtrip(ports: Seq<u16>, rest: Seq<u8>)
    requires
        ports.len() <= MAX_LIST_LEN,
    ensures
        spec_parse_u16_list(spec_u16_list_bytes(ports) + rest) == Some((ports, rest)),
        spec_u16_list_bytes(ports).len() <= 8 + 2 * MAX_LIST_LEN,
{
    reveal(spec_u16_list_bytes);
    reveal(spec_parse_u16_list);
    let c = spec_u16s_concat(ports);
    let b = spec_varsize(ports.len()) + (c + rest);
    assert(spec_u16_list_bytes(ports) + rest =~= b);
    lemma_varsize_roundtrip(ports.len(), c + rest);
    assert(spec_parse_varsize(b) == Some((ports.len(), c + rest)));
    lemma_u16s_n_roundtrip(ports, rest);
}

fn append_u16_list(out: &mut Vec<u8>, ports: &[u16])
    requires
        ports@.len() <= VARSIZE_MAX,
    ensures
        final(out)@ == old(out)@ + spec_u16_list_bytes(ports@),
{
    reveal(spec_u16_list_bytes);
    let n = encode_varsize(ports.len() as u64);
    append_bytes(out, n.as_slice());
    let ghost start = out@;
    let mut i: usize = 0;
    assert(ports@.skip(0) =~= ports@);
    while i < ports.len()
        invariant
            i <= ports@.len(),
            start + spec_u16s_concat(ports@) == out@ + spec_u16s_concat(ports@.skip(i as int)),
        decreases ports.len() - i,
    {
        let ghost before = out@;
        let pb = encode_u16(ports[i]);
        append_bytes(out, pb.as_slice());
        proof {
            let s = ports@.skip(i as int);
            assert(s.drop_first() =~= ports@.skip(i + 1));
            assert(s[0] == ports@[i as int]);
            assert(before + spec_u16s_concat(s) =~= out@ + spec_u16s_concat(ports@.skip(i + 1)));
        }
        i = i + 1;
    }
    assert(ports@.skip(ports@.len() as int) =~= Seq::<u16>::empty());
    assert(out@ =~= start + spec_u16s_concat(ports@));
    assert(final(out)@ =~= old(out)@ + spec_u16_list_bytes(ports@));
}

fn decode_u16_list(buf: &[u8]) -> (r: Option<(Vec<u16>, usize)>)
    ensures
        match spec_parse_u16_list(buf@) {
            None => r is None,
            Some((v, rest)) => r matches Some((x, n)) && x@ == v && n <= buf@.len() && rest
                == buf@.skip(n as int),
        },
{
    reveal(spec_parse_u16_list);
    let (count, k) = match decode_varsize(buf) {
        Some(p) => p,
        None => {
            return None;
        },
    };
    if count > MAX_LIST_LEN {
        return None;
    }
    let ghost b0 = buf@.skip(k as int);
    let mut out: Vec<u16> = Vec::new();
    let mut pos: usize = k;
    let mut i: u64 = 0;
    while i < count
        invariant
            k <= pos <= buf@.len(),
            i <= count <= MAX_LIST_LEN,
            b0 == buf@.skip(k as int),
            spec_parse_u16_list(buf@) == spec_parse_u16s_n(b0, count as nat),
            spec_parse_u16s_n(b0, count as nat) == match spec_parse_u16s_n(
                buf@.skip(pos as int),
                (count - i) as nat,
            ) {
                None => None,
                Some((ps, r)) => Some((out@ + ps, r)),
            },
        decreases count - i,
    {
        let part = &buf[pos..buf.len()];
        assert(part@ =~= buf@.skip(pos as int));
        match decode_u16(part) {
            None => {
                return None;
            },
            Some(e) => {
                proof {
                    assert(buf@.skip(pos as int).skip(2) =~= buf@.skip(pos + 2));
                    let rest_n = spec_parse_u16s_n(buf@.skip(pos + 2), (count - i - 1) as nat);
                    match rest_n {
                        None => {},
                        Some((ps, r)) => {
                            assert(out@ + (seq![e] + ps) =~= out@.push(e) + ps);
                        },
                    }
                }
                out.push(e);
                pos = pos + 2;
            },
        }
        i = i + 1;
    }
    assert(out@ + Seq::<u16>::empty() =~= out@);
    Some((out, pos))
}

// ----- the probe directive -----

/// A NAT-probe directive: version, the SN's and peer's ids, the three
/// generations and request id, its expiry (eight big-endian bytes each)
/// and the ports to probe.
#[verifier::opaque]
pub open spec fn spec_directive_bytes(d: NatProbeDirectiveView) -> Seq<u8> {
    seq![d.version] + spec_bytes_field(d.sn_peer_id) + spec_bytes_field(d.peer_id) + spec_be64(
        d.registration_generation,
    ) + spec_be64(d.request_id) + spec_be64(d.probe_config_generation) + spec_be64(d.expires_at)
        + spec_u16_list_bytes(d.ports)
}

#[verifier::opaque]
pub open spec fn spec_parse_directive(b: Seq<u8>) -> Option<(NatProbeDirectiveView, Seq<u8>)> {
    match spec_parse_u8(b) {
        None => None,
        Some((v, r1)) => match spec_parse_bytes_field(r1) {
            None => None,
            Some((sn, r2)) => match spec_parse_bytes_field(r2) {
                None => None,
                Some((peer, r3)) => match spec_parse_u64(r3) {
                    None => None,
                    Some((reg, r4)) => match spec_parse_u64(r4) {
                        None => None,
                        Some((req, r5)) => match spec_parse_u64(r5) {
                            None => None,
                            Some((cfg, r6)) => match spec_parse_u64(r6) {
                                None => None,
                                Some((exp, r7)) => match spec_parse_u16_list(r7) {
                                    None => None,
                                    Some((ports, r8)) => Some(
                                        (
                                            NatProbeDirectiveView {
                                                version: v,
                                                sn_peer_id: sn,
                                                peer_id: peer,
                                                registration_generation: reg,
                                                request_id: req,
                                                probe_config_generation: cfg,
                                                expires_at: exp,
                                                ports,
                                            },
                                            r8,
                                        ),
                                    ),
                                },
                            },
                        },
                    },
                },
            },
        },
    }
}

/// A directive whose ids and port list are short enough to be read back.
pub open spec fn spec_directive_readable(d: NatProbeDirectiveView) -> bool {
    &&& d.sn_peer_id.len() <= MAX_LIST_LEN
    &&& d.peer_id.len() <= MAX_LIST_LEN
    &&& d.ports.len() <= MAX_LIST_LEN
}

proof fn lemma_directive_len(d: NatProbeDirectiveView)
    requires
        spec_directive_readable(d),
    ensures
        spec_directive_bytes(d).len() <= 0x2000_0100,
{
    reveal(spec_directive_bytes);
    lemma_bytes_field_len(d.sn_peer_id);
    lemma_bytes_field_len(d.peer_id);
    crate::codec::lemma_be64_roundtrip(d.registration_generation);
    crate::codec::lemma_be64_roundtrip(d.request_id);
    crate::codec::lemma_be64_roundtrip(d.probe_config_generation);
    crate::codec::lemma_be64_roundtrip(d.expires_at);
    lemma_u16_list_roundtrip(d.ports, Seq::empty());
}

proof fn lemma_bytes_field_len(s: Seq<u8>)
    requires
        s.len() <= MAX_LIST_LEN,
    ensures
        spec_bytes_field(s).len() <= 8 + MAX_LIST_LEN,
{
    reveal(crate::sn::protocol::wire::spec_bytes_field);
    lemma_varsize_roundtrip(s.len(), Seq::empty());
}

pub proof fn lemma_directive_roundtrip(d: NatProbeDirectiveView, rest: Seq<u8>)
    requires
        spec_directive_readable(d),
    ensures
        spec_parse_directive(spec_directive_bytes(d) + rest) == Some((d, rest)),
        spec_directive_bytes(d).len() <= 0x2000_0100,
{
    lemma_directive_len(d);
    reveal(spec_directive_bytes);
    reveal(spec_parse_directive);
    let r8 = rest;
    let r7 = spec_u16_list_bytes(d.ports) + r8;
    let r6 = spec_be64(d.expires_at) + r7;
    let r5 = spec_be64(d.probe_config_generation) + r6;
    let r4 = spec_be64(d.request_id) + r5;
    let r3 = spec_be64(d.registration_generation) + r4;
    let r2 = spec_bytes_field(d.peer_id) + r3;
    let r1 = spec_bytes_field(d.sn_peer_id) + r2;
    let b = seq![d.version] + r1;
    assert(spec_directive_bytes(d) + rest =~= b);
    lemma_u8_roundtrip(d.version, r1);
    lemma_bytes_field_roundtrip(d.sn_peer_id, r2);
    lemma_bytes_field_roundtrip(d.peer_id, r3);
    lemma_u64_roundtrip(d.registration_generation, r4);
    lemma_u64_roundtrip(d.request_id, r5);
    lemma_u64_roundtrip(d.probe_config_generation, r6);
    lemma_u64_roundtrip(d.expires_at, r7);
    lemma_u16_list_roundtrip(d.ports, r8);
}

/// Whether a directive is of the current control version with usable ports.
pub open spec fn spec_directive_supported(d: NatProbeDirectiveView) -> bool {
    d.version == NAT_PROBE_CONTROL_VERSION && spec_supported_nat_probe_ports(d.ports)
}

// ----- the whole answer -----

/// An optional receipt: 0 when absent, else 1 and the receipt.
pub open spec fn spec_opt_receipt_bytes(o: Option<SnServiceReceipt>) -> Seq<u8> {
    match o {
        None => seq![0u8],
        Some(r) => seq![1u8] + spec_receipt_bytes(r),
    }
}

pub open spec fn spec_parse_opt_receipt(b: Seq<u8>) -> Option<(Option<SnServiceReceipt>, Seq<u8>)> {
    match spec_parse_u8(b) {
        None => None,
        Some((t, r1)) => if t == 1 {
            match spec_parse_receipt(r1) {
                None => None,
                Some((rec, r2)) => Some((Some(rec), r2)),
            }
        } else {
            Some((None, r1))
        },
    }
}

/// The legacy fields of a report answer: sequence, the SN's id, the
/// result, the SN's certificate (optional), the endpoints the SN saw and
/// its receipt (optional).
#[verifier::opaque]
pub open spec fn spec_report_resp_legacy_bytes(m: ReportSnRespView) -> Seq<u8> {
    spec_be32(m.seq.0) + spec_bytes_field(m.sn_peer_id) + seq![m.result] + spec_opt_bytes_field(
        m.peer_info,
    ) + spec_endpoint_list_bytes(m.end_point_array) + spec_opt_receipt_bytes(m.receipt)
}

pub struct ReportRespLegacy {
    pub seq: u32,
    pub sn_peer_id: Seq<u8>,
    pub result: u8,
    pub peer_info: Option<Seq<u8>>,
    pub end_point_array: Seq<Endpoint>,
    pub receipt: Option<SnServiceReceipt>,
}

#[verifier::opaque]
pub open spec fn spec_parse_report_resp_legacy(b: Seq<u8>) -> Option<(ReportRespLegacy, Seq<u8>)> {
    match spec_parse_u32(b) {
        None => None,
        Some((seq, r1)) => match spec_parse_bytes_field(r1) {
            None => None,
            Some((sn, r2)) => match spec_parse_u8(r2) {
                None => None,
                Some((res, r3)) => match spec_parse_opt_bytes_field(r3) {
                    None => None,
                    Some((info, r4)) => match spec_parse_endpoint_list(r4) {
                        None => None,
                        Some((eps, r5)) => match spec_parse_opt_receipt(r5) {
                            None => None,
                            Some((receipt, r6)) => Some(
                                (
                                    ReportRespLegacy {
                                        seq,
                                        sn_peer_id: sn,
                                        result: res,
                                        peer_info: info,
                                        end_point_array: eps,
                                        receipt,
                                    },
                                    r6,
                                ),
                            ),
                        },
                    },
                },
            },
        },
    }
}

/// The ports extension of an answer: present only when it has ports.
pub open spec fn spec_ports_ext_bytes(ports: Seq<u16>) -> Seq<u8> {
    if ports.len() == 0 {
        Seq::empty()
    } else {
        spec_extension_bytes(spec_u16_list_bytes(ports), REPORT_SN_RESP_EXTENSION_MAGIC)
    }
}

/// The directive extension of an answer, empty without a directive.
pub open spec fn spec_directive_ext_bytes(d: Option<NatProbeDirectiveView>) -> Seq<u8> {
    match d {
        Some(d) => spec_extension_bytes(
            spec_directive_bytes(d),
            REPORT_SN_RESP_PROBE_DIRECTIVE_EXTENSION_MAGIC,
        ),
        None => Seq::empty(),
    }
}

/// The bytes of a report answer: its legacy fields, then its probe ports
/// and its probe directive, each in its own extension when there is one.
pub open spec fn spec_report_resp_bytes(m: ReportSnRespView) -> Seq<u8> {
    spec_report_resp_legacy_bytes(m) + spec_ports_ext_bytes(m.nat_probe_ports)
        + spec_directive_ext_bytes(m.nat_probe_directive)
}

/// The ports the answer's ports extension in `b` carries, if it is there,
/// of the current envelope version and fills its payload exactly.
pub open spec fn spec_ports_ext(b: Seq<u8>) -> Option<Seq<u16>> {
    match spec_extension_decode(b, REPORT_SN_RESP_EXTENSION_MAGIC) {
        ExtensionFrame::Payload { start, end } => match spec_parse_u16_list(
            b.subrange(start as int, end as int),
        ) {
            Some((p, rr)) => if rr.len() == 0 {
                Some(p)
            } else {
                None
            },
            None => None,
        },
        _ => None,
    }
}

/// The directive the answer's directive extension in `b` carries, likewise.
pub open spec fn spec_directive_ext(b: Seq<u8>) -> Option<NatProbeDirectiveView> {
    match spec_extension_decode(b, REPORT_SN_RESP_PROBE_DIRECTIVE_EXTENSION_MAGIC) {
        ExtensionFrame::Payload { start, end } => match spec_parse_directive(
            b.subrange(start as int, end as int),
        ) {
            Some((d, rr)) => if rr.len() == 0 {
                Some(d)
            } else {
                None
            },
            None => None,
        },
        _ => None,
    }
}

/// What an answer keeps of its ports: them when usable, else none.
pub open spec fn spec_kept_ports(p: Option<Seq<u16>>) -> Seq<u16> {
    match p {
        Some(p) => if spec_supported_nat_probe_ports(p) {
            p
        } else {
            Seq::empty()
        },
        None => Seq::empty(),
    }
}

/// What an answer keeps of its directive: it when supported.
pub open spec fn spec_kept_directive(d: Option<NatProbeDirectiveView>) -> Option<NatProbeDirectiveView> {
    match d {
        Some(d) => if spec_directive_supported(d) {
            Some(d)
        } else {
            None
        },
        None => None,
    }
}

/// The extensions after an answer's legacy fields: its kept ports and
/// directive, and what follows them.
pub open spec fn spec_report_resp_exts(r: Seq<u8>) -> (Seq<u16>, Option<NatProbeDirectiveView>, Seq<u8>) {
    let r4 = r.skip(spec_extension_decode(r, REPORT_SN_RESP_EXTENSION_MAGIC).spec_rest() as int);
    let r5 = r4.skip(
        spec_extension_decode(r4, REPORT_SN_RESP_PROBE_DIRECTIVE_EXTENSION_MAGIC).spec_rest() as int,
    );
    (spec_kept_ports(spec_ports_ext(r)), spec_kept_directive(spec_directive_ext(r4)), r5)
}

/// A report answer read from the start of `b`, with the ports and
/// directive it keeps, and what follows it.
pub open spec fn spec_parse_report_resp(b: Seq<u8>) -> Option<(ReportSnRespView, Seq<u8>)> {
    match spec_parse_report_resp_legacy(b) {
        None => None,
        Some((l, r1)) => {
            let exts = spec_report_resp_exts(r1);
            Some(
                (
                    ReportSnRespView {
                        seq: Sequence(l.seq),
                        sn_peer_id: l.sn_peer_id,
                        result: l.result,
                        peer_info: l.peer_info,
                        end_point_array: l.end_point_array,
                        receipt: l.receipt,
                        nat_probe_ports: exts.0,
                        nat_probe_directive: exts.1,
                    },
                    exts.2,
                ),
            )
        },
    }
}

/// An answer whose fields are short enough, and whose receipt is recent and
/// short enough, to be read back.
pub open spec fn spec_report_resp_readable(m: ReportSnRespView) -> bool {
    &&& m.sn_peer_id.len() <= MAX_LIST_LEN
    &&& m.peer_info matches Some(s) ==> s.len() <= MAX_LIST_LEN
    &&& m.end_point_array.len() <= MAX_LIST_LEN
    &&& m.receipt matches Some(r) ==> r.start_time >= crate::time::spec_min_bucky_time()
        && r.duration_ms <= u32::MAX
    &&& m.nat_probe_ports.len() <= MAX_LIST_LEN
    &&& m.nat_probe_directive matches Some(d) ==> spec_directive_readable(d)
}

proof fn lemma_opt_receipt_roundtrip(o: Option<SnServiceReceipt>, rest: Seq<u8>)
    requires
        o matches Some(r) ==> r.start_time >= crate::time::spec_min_bucky_time()
            && r.duration_ms <= u32::MAX,
    ensures
        spec_parse_opt_receipt(spec_opt_receipt_bytes(o) + rest) == Some((o, rest)),
{
    match o {
        None => {
            lemma_u8_roundtrip(0u8, rest);
        },
        Some(r) => {
            let a = spec_receipt_bytes(r);
            assert(spec_opt_receipt_bytes(o) + rest =~= seq![1u8] + (a + rest));
            lemma_u8_roundtrip(1u8, a + rest);
            lemma_receipt_read_back(r, rest);
        },
    }
}

proof fn lemma_report_resp_legacy_roundtrip(m: ReportSnRespView, rest: Seq<u8>)
    requires
        spec_report_resp_readable(m),
    ensures
        spec_parse_report_resp_legacy(spec_report_resp_legacy_bytes(m) + rest) == Some(
            (
                ReportRespLegacy {
                    seq: m.seq.0,
                    sn_peer_id: m.sn_peer_id,
                    result: m.result,
                    peer_info: m.peer_info,
                    end_point_array: m.end_point_array,
                    receipt: m.receipt,
                },
                rest,
            ),
        ),
{
    reveal(spec_report_resp_legacy_bytes);
    reveal(spec_parse_report_resp_legacy);
    let r6 = rest;
    let r5 = spec_opt_receipt_bytes(m.receipt) + r6;
    let r4 = spec_endpoint_list_bytes(m.end_point_array) + r5;
    let r3 = spec_opt_bytes_field(m.peer_info) + r4;
    let r2 = seq![m.result] + r3;
    let r1 = spec_bytes_field(m.sn_peer_id) + r2;
    let b = spec_be32(m.seq.0) + r1;
    assert(spec_report_resp_legacy_bytes(m) + rest =~= b);
    lemma_u32_roundtrip(m.seq.0, r1);
    lemma_bytes_field_roundtrip(m.sn_peer_id, r2);
    lemma_u8_roundtrip(m.result, r3);
    lemma_opt_bytes_field_roundtrip(m.peer_info, r4);
    lemma_endpoint_list_roundtrip(m.end_point_array, r5);
    lemma_opt_receipt_roundtrip(m.receipt, r6);
}

proof fn lemma_directive_ext_alone(d: Option<NatProbeDirectiveView>)
    requires
        d matches Some(x) ==> spec_directive_readable(x),
    ensures
        ({
            let e2 = spec_directive_ext_bytes(d);
            &&& spec_extension_decode(e2, REPORT_SN_RESP_EXTENSION_MAGIC) == ExtensionFrame::Absent
            &&& spec_directive_ext(e2) == d
            &&& e2.skip(
                spec_extension_decode(e2, REPORT_SN_RESP_PROBE_DIRECTIVE_EXTENSION_MAGIC).spec_rest() as int,
            ) == Seq::<u8>::empty()
        }),
{
    let e2 = spec_directive_ext_bytes(d);
    match d {
        Some(x) => {
            let payload = spec_directive_bytes(x);
            lemma_directive_roundtrip(x, Seq::empty());
            lemma_other_extension_absent(
                payload,
                REPORT_SN_RESP_PROBE_DIRECTIVE_EXTENSION_MAGIC,
                REPORT_SN_RESP_EXTENSION_MAGIC,
                Seq::empty(),
            );
            assert(payload + Seq::<u8>::empty() =~= payload);
            lemma_extension_roundtrip(payload, REPORT_SN_RESP_PROBE_DIRECTIVE_EXTENSION_MAGIC, Seq::empty());
            assert(e2 + Seq::<u8>::empty() =~= e2);
            assert(spec_directive_ext(e2) == Some(x));
            assert(e2.skip(e2.len() as int) =~= Seq::<u8>::empty());
        },
        None => {
            assert(e2.skip(0) =~= e2);
        },
    }
}

proof fn lemma_report_resp_exts_roundtrip(ports: Seq<u16>, d: Option<NatProbeDirectiveView>)
    requires
        ports.len() <= MAX_LIST_LEN,
        d matches Some(x) ==> spec_directive_readable(x),
    ensures
        spec_report_resp_exts(spec_ports_ext_bytes(ports) + spec_directive_ext_bytes(d)) == (
            spec_kept_ports(if ports.len() == 0 { None } else { Some(ports) }),
            spec_kept_directive(d),
            Seq::<u8>::empty(),
        ),
{
    let e1 = spec_ports_ext_bytes(ports);
    let e2 = spec_directive_ext_bytes(d);
    let all = e1 + e2;
    lemma_directive_ext_alone(d);
    if ports.len() == 0 {
        assert(all =~= e2);
        assert(all.skip(0) =~= e2);
    } else {
        let payload = spec_u16_list_bytes(ports);
        lemma_u16_list_roundtrip(ports, Seq::empty());
        assert(payload + Seq::<u8>::empty() =~= payload);
        lemma_extension_roundtrip(payload, REPORT_SN_RESP_EXTENSION_MAGIC, e2);
        assert(spec_ports_ext(all) == Some(ports));
        assert(all.skip(e1.len() as int) =~= e2);
    }
}

/// A report answer reads back from its own bytes: its probe ports kept when
/// usable (else none), its directive kept when supported, with nothing left
/// over.
pub proof fn lemma_report_resp_roundtrip(m: ReportSnRespView)
    requires
        spec_report_resp_readable(m),
    ensures
        spec_parse_report_resp(spec_report_resp_bytes(m)) == Some(
            (
                ReportSnRespView {
                    nat_probe_ports: if spec_supported_nat_probe_ports(m.nat_probe_ports) {
                        m.nat_probe_ports
                    } else {
                        Seq::empty()
                    },
                    nat_probe_directive: spec_kept_directive(m.nat_probe_directive),
                    ..m
                },
                Seq::<u8>::empty(),
            ),
        ),
{
    let ext = spec_ports_ext_bytes(m.nat_probe_ports) + spec_directive_ext_bytes(
        m.nat_probe_directive,
    );
    let l = spec_report_resp_legacy_bytes(m);
    assert(spec_report_resp_bytes(m) =~= l + ext);
    lemma_report_resp_legacy_roundtrip(m, ext);
    lemma_report_resp_exts_roundtrip(m.nat_probe_ports, m.nat_probe_directive);
    if m.nat_probe_ports.len() == 0 {
        assert(!spec_supported_nat_probe_ports(m.nat_probe_ports));
        assert(m.nat_probe_ports =~= Seq::<u16>::empty());
    }
}

// ----- encoding and decoding -----

/// An answer whose variable-size fields each fit a count.
pub open spec fn spec_report_resp_encodable(m: ReportSnRespView) -> bool {
    &&& m.sn_peer_id.len() <= VARSIZE_MAX
    &&& m.peer_info matches Some(s) ==> s.len() <= VARSIZE_MAX
    &&& m.end_point_array.len() <= VARSIZE_MAX
    &&& m.nat_probe_ports.len() <= VARSIZE_MAX
    &&& m.nat_probe_directive matches Some(d) ==> d.sn_peer_id.len() <= VARSIZE_MAX
        && d.peer_id.len() <= VARSIZE_MAX && d.ports.len() <= VARSIZE_MAX
}

/// Whether an extension of the answer is too long for its 32-bit length.
pub open spec fn spec_report_resp_too_long(m: ReportSnRespView) -> bool {
    ||| (m.nat_probe_ports.len() > 0 && spec_u16_list_bytes(m.nat_probe_ports).len() > u32::MAX)
    ||| (m.nat_probe_directive matches Some(d) && spec_directive_bytes(d).len() > u32::MAX)
}

fn append_opt_receipt(out: &mut Vec<u8>, o: &Option<SnServiceReceipt>)
    ensures
        final(out)@ == old(out)@ + spec_opt_receipt_bytes(*o),
{
    match o {
        None => {
            let t = encode_u8(0);
            append_bytes(out, t.as_slice());
        },
        Some(r) => {
            let t = encode_u8(1);
            append_bytes(out, t.as_slice());
            let rec = r.encode();
            append_bytes(out, rec.as_slice());
            assert(final(out)@ =~= old(out)@ + spec_opt_receipt_bytes(*o));
        },
    }
}

fn append_report_resp_legacy(out: &mut Vec<u8>, m: &ReportSnResp)
    requires
        m.sn_peer_id@.len() <= VARSIZE_MAX,
        m.peer_info matches Some(s) ==> s@.len() <= VARSIZE_MAX,
        m.end_point_array@.len() <= VARSIZE_MAX,
    ensures
        final(out)@ == old(out)@ + spec_report_resp_legacy_bytes(m@),
{
    reveal(spec_report_resp_legacy_bytes);
    let ghost v = m@;
    let ghost o0 = out@;
    let seq = encode_u32(m.seq.0);
    append_bytes(out, seq.as_slice());
    append_bytes_field(out, m.sn_peer_id.0.as_slice());
    let res = encode_u8(m.result);
    append_bytes(out, res.as_slice());
    let ghost o1 = out@;
    append_opt_bytes_field(out, &m.peer_info);
    let ghost o2 = out@;
    append_endpoint_list(out, m.end_point_array.as_slice());
    let ghost o3 = out@;
    append_opt_receipt(out, &m.receipt);
    proof {
        let a = spec_be32(v.seq.0) + spec_bytes_field(v.sn_peer_id) + seq![v.result];
        let b = spec_opt_bytes_field(v.peer_info);
        let c = spec_endpoint_list_bytes(v.end_point_array);
        let d = spec_opt_receipt_bytes(v.receipt);
        assert(o1 =~= o0 + a);
        assert(o2 == o1 + b);
        assert(o3 == o2 + c);
        assert(out@ == o3 + d);
        assert(spec_report_resp_legacy_bytes(v) == a + b + c + d);
        assert(out@ =~= o0 + (a + b + c + d));
    }
}

fn encode_directive(d: &NatProbeDirective) -> (r: Vec<u8>)
    requires
        d.sn_peer_id@.len() <= VARSIZE_MAX,
        d.peer_id@.len() <= VARSIZE_MAX,
        d.ports@.len() <= VARSIZE_MAX,
    ensures
        r@ == spec_directive_bytes(d@),
{
    reveal(spec_directive_bytes);
    let mut out = encode_u8(d.version);
    append_bytes_field(&mut out, d.sn_peer_id.0.as_slice());
    append_bytes_field(&mut out, d.peer_id.0.as_slice());
    let a = encode_u64(d.registration_generation);
    append_bytes(&mut out, a.as_slice());
    let b = encode_u64(d.request_id);
    append_bytes(&mut out, b.as_slice());
    let c = encode_u64(d.probe_config_generation);
    append_bytes(&mut out, c.as_slice());
    let e = encode_u64(d.expires_at);
    append_bytes(&mut out, e.as_slice());
    append_u16_list(&mut out, d.ports.as_slice());
    assert(out@ =~= spec_directive_bytes(d@));
    out
}

impl ReportSnResp {
    /// The bytes of this answer.
    #[verifier::rlimit(40)]
    pub fn to_vec(&self) -> (r: P2pResult<Vec<u8>>)
        requires
            spec_report_resp_encodable(self@),
        ensures
            r matches Ok(v) ==> v@ == spec_report_resp_bytes(self@),
            r is Err <==> spec_report_resp_too_long(self@),
            r matches Err(e) ==> e.code == P2pErrorCode::OutOfLimit,
    {
        let mut out: Vec<u8> = Vec::new();
        append_report_resp_legacy(&mut out, self);
        let ghost legacy = out@;
        if self.nat_probe_ports.len() > 0 {
            let mut payload: Vec<u8> = Vec::new();
            append_u16_list(&mut payload, self.nat_probe_ports.as_slice());
            assert(payload@ =~= spec_u16_list_bytes(self@.nat_probe_ports));
            match extension_encode(Some(payload.as_slice()), REPORT_SN_RESP_EXTENSION_MAGIC, &mut out) {
                Ok(()) => {},
                Err(e) => {
                    return Err(e);
                },
            }
        }
        let ghost with_ports = out@;
        match &self.nat_probe_directive {
            Some(d) => {
                let payload = encode_directive(d);
                match extension_encode(
                    Some(payload.as_slice()),
                    REPORT_SN_RESP_PROBE_DIRECTIVE_EXTENSION_MAGIC,
                    &mut out,
                ) {
                    Ok(()) => {},
                    Err(e) => {
                        return Err(e);
                    },
                }
            },
            None => {},
        }
        assert(out@ =~= spec_report_resp_bytes(self@));
        Ok(out)
    }
}

fn decode_opt_receipt(buf: &[u8]) -> (r: Option<(Option<SnServiceReceipt>, usize)>)
    ensures
        match spec_parse_opt_receipt(buf@) {
            None => r is None,
            Some((v, rest)) => r matches Some((x, n)) && x == v && n <= buf@.len() && rest
                == buf@.skip(n as int),
        },
{
    let (t, n0) = match decode_u8_field(buf) {
        Some(p) => p,
        None => {
            return None;
        },
    };
    if t != 1 {
        return Some((None, n0));
    }
    let s1 = &buf[n0..buf.len()];
    assert(s1@ =~= buf@.skip(n0 as int));
    match decode_receipt(s1) {
        None => None,
        Some((rec, n1)) => {
            assert(buf@.skip(n0 as int).skip(n1 as int) =~= buf@.skip(n0 + n1));
            Some((Some(rec), n0 + n1))
        },
    }
}

type RespLegacyFields = (u32, Vec<u8>, u8, Option<Vec<u8>>, Vec<Endpoint>, Option<SnServiceReceipt>);

#[verifier::rlimit(30)]
fn decode_report_resp_legacy(buf: &[u8]) -> (r: Option<(RespLegacyFields, usize)>)
    ensures
        match spec_parse_report_resp_legacy(buf@) {
            None => r is None,
            Some((l, rest)) => r matches Some((f, n)) && f.0 == l.seq && f.1@ == l.sn_peer_id
                && f.2 == l.result && (match f.3 {
                Some(v) => Some(v@),
                None => None,
            }) == l.peer_info && f.4@ == l.end_point_array && f.5 == l.receipt && n
                <= buf@.len() && rest == buf@.skip(n as int),
        },
{
    reveal(spec_parse_report_resp_legacy);
    let ghost b = buf@;
    let (seq, n) = match decode_u32_field(buf) {
        Some(p) => p,
        None => {
            return None;
        },
    };
    let mut pos: usize = n;
    let s = &buf[pos..buf.len()];
    assert(s@ =~= b.skip(pos as int));
    let (sn, n) = match decode_bytes_field(s) {
        Some(p) => p,
        None => {
            return None;
        },
    };
    assert(b.skip(pos as int).skip(n as int) =~= b.skip(pos + n));
    pos = pos + n;
    let s = &buf[pos..buf.len()];
    assert(s@ =~= b.skip(pos as int));
    let (res, n) = match decode_u8_field(s) {
        Some(p) => p,
        None => {
            return None;
        },
    };
    assert(b.skip(pos as int).skip(n as int) =~= b.skip(pos + n));
    pos = pos + n;
    let s = &buf[pos..buf.len()];
    assert(s@ =~= b.skip(pos as int));
    let (info, n) = match decode_opt_bytes_field(s) {
        Some(p) => p,
        None => {
            return None;
        },
    };
    assert(b.skip(pos as int).skip(n as int) =~= b.skip(pos + n));
    pos = pos + n;
    let s = &buf[pos..buf.len()];
    assert(s@ =~= b.skip(pos as int));
    let (eps, n) = match decode_endpoint_list(s) {
        Some(p) => p,
        None => {
            return None;
        },
    };
    assert(b.skip(pos as int).skip(n as int) =~= b.skip(pos + n));
    pos = pos + n;
    let s = &buf[pos..buf.len()];
    assert(s@ =~= b.skip(pos as int));
    let (receipt, n) = match decode_opt_receipt(s) {
        Some(p) => p,
        None => {
            return None;
        },
    };
    assert(b.skip(pos as int).skip(n as int) =~= b.skip(pos + n));
    pos = pos + n;
    Some(((seq, sn, res, info, eps, receipt), pos))
}

#[verifier::rlimit(30)]
fn decode_directive(buf: &[u8]) -> (r: Option<(NatProbeDirective, usize)>)
    ensures
        match spec_parse_directive(buf@) {
            None => r is None,
            Some((v, rest)) => r matches Some((x, n)) && x@ == v && n <= buf@.len() && rest
                == buf@.skip(n as int),
        },
{
    reveal(spec_parse_directive);
    let ghost b = buf@;
    let (v, n) = match decode_u8_field(buf) {
        Some(p) => p,
        None => {
            return None;
        },
    };
    let mut pos: usize = n;
    let s = &buf[pos..buf.len()];
    assert(s@ =~= b.skip(pos as int));
    let (sn, n) = match decode_bytes_field(s) {
        Some(p) => p,
        None => {
            return None;
        },
    };
    assert(b.skip(pos as int).skip(n as int) =~= b.skip(pos + n));
    pos = pos + n;
    let s = &buf[pos..buf.len()];
    assert(s@ =~= b.skip(pos as int));
    let (peer, n) = match decode_bytes_field(s) {
        Some(p) => p,
        None => {
            return None;
        },
    };
    assert(b.skip(pos as int).skip(n as int) =~= b.skip(pos + n));
    pos = pos + n;
    let s = &buf[pos..buf.len()];
    assert(s@ =~= b.skip(pos as int));
    let (reg, n) = match decode_u64_field(s) {
        Some(p) => p,
        None => {
            return None;
        },
    };
    assert(b.skip(pos as int).skip(n as int) =~= b.skip(pos + n));
    pos = pos + n;
    let s = &buf[pos..buf.len()];
    assert(s@ =~= b.skip(pos as int));
    let (req, n) = match decode_u64_field(s) {
        Some(p) => p,
        None => {
            return None;
        },
    };
    assert(b.skip(pos as int).skip(n as int) =~= b.skip(pos + n));
    pos = pos + n;
    let s = &buf[pos..buf.len()];
    assert(s@ =~= b.skip(pos as int));
    let (cfg, n) = match decode_u64_field(s) {
        Some(p) => p,
        None => {
            return None;
        },
    };
    assert(b.skip(pos as int).skip(n as int) =~= b.skip(pos + n));
    pos = pos + n;
    let s = &buf[pos..buf.len()];
    assert(s@ =~= b.skip(pos as int));
    let (exp, n) = match decode_u64_field(s) {
        Some(p) => p,
        None => {
            return None;
        },
    };
    assert(b.skip(pos as int).skip(n as int) =~= b.skip(pos + n));
    pos = pos + n;
    let s = &buf[pos..buf.len()];
    assert(s@ =~= b.skip(pos as int));
    let (ports, n) = match decode_u16_list(s) {
        Some(p) => p,
        None => {
            return None;
        },
    };
    assert(b.skip(pos as int).skip(n as int) =~= b.skip(pos + n));
    pos = pos + n;
    Some(
        (
            NatProbeDirective {
                version: v,
                sn_peer_id: P2pId(sn),
                peer_id: P2pId(peer),
                registration_generation: reg,
                request_id: req,
                probe_config_generation: cfg,
                expires_at: exp,
                ports,
            },
            pos,
        ),
    )
}

fn decode_ports_ext(buf: &[u8]) -> (r: (Option<Vec<u16>>, usize))
    ensures
        (match r.0 {
            Some(v) => Some(v@),
            None => None,
        }) == spec_ports_ext(buf@),
        r.1 == spec_extension_decode(buf@, REPORT_SN_RESP_EXTENSION_MAGIC).spec_rest(),
        r.1 <= buf@.len(),
{
    let frame = extension_decode(buf, REPORT_SN_RESP_EXTENSION_MAGIC);
    assert(buf@.len() == buf.len());
    proof {
        lemma_extension_decode_bounds(buf@, REPORT_SN_RESP_EXTENSION_MAGIC);
    }
    let value = match frame {
        ExtensionFrame::Payload { start, end } => {
            let part = &buf[start..end];
            match decode_u16_list(part) {
                Some((p, n)) => {
                    if n == end - start {
                        proof {
                            assert(part@.skip(n as int) =~= Seq::<u8>::empty());
                        }
                        Some(p)
                    } else {
                        None
                    }
                },
                None => None,
            }
        },
        _ => None,
    };
    (value, frame.rest())
}

fn decode_directive_ext(buf: &[u8]) -> (r: (Option<NatProbeDirective>, usize))
    ensures
        spec_opt_directive_view(r.0) == spec_directive_ext(buf@),
        r.1 == spec_extension_decode(buf@, REPORT_SN_RESP_PROBE_DIRECTIVE_EXTENSION_MAGIC).spec_rest(),
        r.1 <= buf@.len(),
{
    let frame = extension_decode(buf, REPORT_SN_RESP_PROBE_DIRECTIVE_EXTENSION_MAGIC);
    assert(buf@.len() == buf.len());
    proof {
        lemma_extension_decode_bounds(buf@, REPORT_SN_RESP_PROBE_DIRECTIVE_EXTENSION_MAGIC);
    }
    let value = match frame {
        ExtensionFrame::Payload { start, end } => {
            let part = &buf[start..end];
            match decode_directive(part) {
                Some((d, n)) => {
                    if n == end - start {
                        proof {
                            assert(part@.skip(n as int) =~= Seq::<u8>::empty());
                        }
                        Some(d)
                    } else {
                        None
                    }
                },
                None => None,
            }
        },
        _ => None,
    };
    (value, frame.rest())
}

/// A report answer read from the start of `buf`, and how many bytes it took.
pub fn decode_report_resp(buf: &[u8]) -> (r: Option<(ReportSnResp, usize)>)
    ensures
        match spec_parse_report_resp(buf@) {
            None => r is None,
            Some((v, rest)) => r matches Some((x, n)) && x@ == v && n <= buf@.len() && rest
                == buf@.skip(n as int),
        },
{
    let ghost b = buf@;
    let (l, n1) = match decode_report_resp_legacy(buf) {
        Some(p) => p,
        None => {
            return None;
        },
    };
    let s1 = &buf[n1..buf.len()];
    assert(s1@ =~= b.skip(n1 as int));
    let (ports, n2) = decode_ports_ext(s1);
    assert(b.skip(n1 as int).skip(n2 as int) =~= b.skip(n1 + n2));
    let p2 = n1 + n2;
    let s2 = &buf[p2..buf.len()];
    assert(s2@ =~= b.skip(p2 as int));
    let (directive, n3) = decode_directive_ext(s2);
    assert(b.skip(p2 as int).skip(n3 as int) =~= b.skip(p2 + n3));
    let (kept_ports, kept_directive) = report_resp_extensions_from_wire(ports, directive);
    let (seq, sn, res, info, eps, receipt) = l;
    let m = ReportSnResp {
        seq: Sequence(seq),
        sn_peer_id: P2pId(sn),
        result: res,
        peer_info: info,
        end_point_array: eps,
        receipt,
        nat_probe_ports: kept_ports,
        nat_probe_directive: kept_directive,
    };
    Some((m, p2 + n3))
}

impl ReportSnResp {
    /// The answer read from the start of `buf`; bytes that do not start
    /// with one are a codec error, and bytes after it are ignored.
    pub fn clone_from_slice(buf: &[u8]) -> (r: P2pResult<ReportSnResp>)
        ensures
            spec_parse_report_resp(buf@) is None ==> r == Err::<ReportSnResp, P2pError>(
                P2pError { code: P2pErrorCode::RawCodecError },
            ),
            spec_parse_report_resp(buf@) matches Some((m, rest)) ==> (r matches Ok(x) && x@ == m),
    {
        match decode_report_resp(buf) {
            None => Err(P2pError::new(P2pErrorCode::RawCodecError)),
            Some((m, _)) => Ok(m),
        }
    }
}

} // verus!
