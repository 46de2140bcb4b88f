use vstd::prelude::*;
use crate::endpoint::{
    Endpoint, EndpointArea, Protocol, rendezvous_eligible_area, rendezvous_reverse_connect_eligible_area,
    spec_rendezvous_eligible_area, spec_rendezvous_reverse_connect_eligible_area,
    spec_same_endpoint,
};
use crate::error::{P2pError, P2pErrorCode, P2pResult, spec_error_code_value};
use crate::nat_type::{NAT_TRAVERSAL_CONTEXT_VERSION, NatProfile, NatTraversalContext};
use crate::sn::nat_probe::MAX_NAT_PROBE_ENDPOINTS;
use crate::sn::protocol::extension::strict_rendezvous_decode;
use crate::sn::protocol::rendezvous_codec::{
    decode_notify, decode_rendezvous, decode_resp, encode_notify, encode_rendezvous, encode_resp,
    spec_notify_bytes, spec_parse_notify, spec_parse_rendezvous, spec_parse_resp,
    spec_rendezvous_bytes, spec_resp_bytes,
};
use crate::sn::protocol::wire::VARSIZE_MAX;
use crate::types::{copy_vec, EncodedP2pIdentityCert, P2pId, Sequence, Timestamp, TunnelId};

verus! {

/// Version of the SN extension envelope.
pub const SN_EXTENSION_VERSION: u8 = 1;

/// Extension magics: four ASCII letters read as a big-endian `u32`.
pub const REPORT_SN_EXTENSION_MAGIC: u32 = 0x52534e50;  // "RSNP"
pub const REPORT_SN_PROBE_RESULT_EXTENSION_MAGIC: u32 = 0x52534e52;  // "RSNR"
pub const REPORT_SN_RESP_EXTENSION_MAGIC: u32 = 0x52535250;  // "RSRP"
pub const REPORT_SN_RESP_PROBE_DIRECTIVE_EXTENSION_MAGIC: u32 = 0x52535244;  // "RSRD"
pub const SN_QUERY_RESP_EXTENSION_MAGIC: u32 = 0x53515250;  // "SQRP"
pub const SN_DETAIL_RESP_EXTENSION_MAGIC: u32 = 0x53445250;  // "SDRP"
pub const SN_QUERY_RESP_PROTOCOL_VERSION_EXTENSION_MAGIC: u32 = 0x53515056;  // "SQPV"
pub const SN_DETAIL_RESP_PROTOCOL_VERSION_EXTENSION_MAGIC: u32 = 0x53445056;  // "SDPV"
pub const SN_CALL_EXTENSION_MAGIC: u32 = 0x5343414c;  // "SCAL"
pub const SN_CALLED_EXTENSION_MAGIC: u32 = 0x53434c44;  // "SCLD"

/// Bytes of an extension header: magic, version, payload length.
pub const SN_EXTENSION_HEADER_LEN: usize = 9;

/// Current coarse-grained SN application protocol baseline.
pub const SN_PROTOCOL_VERSION: u8 = 1;

/// Wire version shared by SN-owned NAT-probe directives and their results.
pub const NAT_PROBE_CONTROL_VERSION: u8 = 1;

/// Command-header version of the tunnel rendezvous command family.
pub const SN_TUNNEL_RENDEZVOUS_CMD_VERSION: u8 = 1;

/// Rendezvous result codes: the wire values of `Success` and `Failed`.
pub const SN_TUNNEL_RENDEZVOUS_RESULT_OK: u8 = 0;
pub const SN_TUNNEL_RENDEZVOUS_RESULT_FAILED: u8 = 1;

/// Hard per-message endpoint budget for rendezvous actions and prediction results.
pub const MAX_SN_TUNNEL_RENDEZVOUS_ENDPOINTS: usize = 8;

/// The rendezvous result codes are the wire values of the success and
/// failure error codes.
pub proof fn lemma_rendezvous_result_codes()
    ensures
        SN_TUNNEL_RENDEZVOUS_RESULT_OK == spec_error_code_value(P2pErrorCode::Success),
        SN_TUNNEL_RENDEZVOUS_RESULT_FAILED == spec_error_code_value(P2pErrorCode::Failed),
{
}

#[derive(Clone, Copy, Debug, PartialEq, Eq, Structural)]
pub enum SnTunnelRendezvousOperation {
    PunchOnly,
    PunchAndReverseConnect,
    ReverseConnectOnly,
    WaitIncoming,
}

impl SnTunnelRendezvousOperation {
    pub open spec fn spec_requires_endpoints(self) -> bool {
        !(self is WaitIncoming)
    }

    pub open spec fn spec_punches(self) -> bool {
        self is PunchOnly || self is PunchAndReverseConnect
    }

    pub open spec fn spec_reverse_connects(self) -> bool {
        self is PunchAndReverseConnect || self is ReverseConnectOnly
    }

    pub fn requires_endpoints(self) -> (r: bool)
        ensures
            r == self.spec_requires_endpoints(),
    {
        match self {
            SnTunnelRendezvousOperation::WaitIncoming => false,
            _ => true,
        }
    }

    pub fn punches(self) -> (r: bool)
        ensures
            r == self.spec_punches(),
    {
        match self {
            SnTunnelRendezvousOperation::PunchOnly => true,
            SnTunnelRendezvousOperation::PunchAndReverseConnect => true,
            _ => false,
        }
    }

    pub fn reverse_connects(self) -> (r: bool)
        ensures
            r == self.spec_reverse_connects(),
    {
        match self {
            SnTunnelRendezvousOperation::PunchAndReverseConnect => true,
            SnTunnelRendezvousOperation::ReverseConnectOnly => true,
            _ => false,
        }
    }
}

/// The operations that ask the target to connect back are exactly
/// `PunchAndReverseConnect` and `ReverseConnectOnly`; those that punch are
/// exactly `PunchOnly` and `PunchAndReverseConnect`; only `WaitIncoming`
/// needs no endpoint.
pub proof fn lemma_operation_kinds(op: SnTunnelRendezvousOperation)
    ensures
        op.spec_reverse_connects() <==> (op == SnTunnelRendezvousOperation::PunchAndReverseConnect
            || op == SnTunnelRendezvousOperation::ReverseConnectOnly),
        op.spec_punches() <==> (op == SnTunnelRendezvousOperation::PunchOnly || op
            == SnTunnelRendezvousOperation::PunchAndReverseConnect),
        op.spec_requires_endpoints() <==> op != SnTunnelRendezvousOperation::WaitIncoming,
{
}

/// Whether one rendezvous endpoint is acceptable, given the transport of the
/// first endpoint and the requested operation.
pub open spec fn spec_rendezvous_endpoint_ok(
    ep: Endpoint,
    transport: Protocol,
    operation: SnTunnelRendezvousOperation,
) -> bool {
    &&& ep.protocol == transport
    &&& (ep.protocol is Quic || ep.protocol is Tcp)
    &&& if operation.spec_reverse_connects() {
        spec_rendezvous_reverse_connect_eligible_area(ep)
    } else {
        spec_rendezvous_eligible_area(ep)
    }
    &&& ep.addr.port != 0
}

/// The endpoint list holds the same endpoint twice.
pub open spec fn spec_has_duplicate_endpoint(eps: Seq<Endpoint>) -> bool {
    exists|i: int, j: int| 0 <= i < j < eps.len() && spec_same_endpoint(eps[i], eps[j])
}

/// What `validate_rendezvous_endpoints` answers.
pub open spec fn spec_validate_rendezvous_endpoints(
    eps: Seq<Endpoint>,
    operation: SnTunnelRendezvousOperation,
) -> P2pResult<()> {
    if eps.len() > MAX_SN_TUNNEL_RENDEZVOUS_ENDPOINTS {
        Err(P2pError { code: P2pErrorCode::OutOfLimit })
    } else if operation.spec_requires_endpoints() == (eps.len() == 0) {
        Err(P2pError { code: P2pErrorCode::InvalidParam })
    } else if operation.spec_punches() && !(eps[0].protocol is Quic) {
        Err(P2pError { code: P2pErrorCode::InvalidParam })
    } else if (exists|i: int|
        0 <= i < eps.len() && !spec_rendezvous_endpoint_ok(eps[i], eps[0].protocol, operation))
        || spec_has_duplicate_endpoint(eps) {
        Err(P2pError { code: P2pErrorCode::InvalidParam })
    } else {
        Ok(())
    }
}

/// A request that asks the target to connect back may only name endpoints
/// the target can reach: one naming an endpoint that is neither WAN nor
/// mapped (a LAN or server-reflexive address) is refused with
/// `InvalidParam`, whatever else it names (within the endpoint limit).
pub proof fn lemma_reverse_connect_needs_reachable_endpoints(
    eps: Seq<Endpoint>,
    op: SnTunnelRendezvousOperation,
    k: int,
)
    requires
        op == SnTunnelRendezvousOperation::PunchAndReverseConnect || op
            == SnTunnelRendezvousOperation::ReverseConnectOnly,
        eps.len() <= MAX_SN_TUNNEL_RENDEZVOUS_ENDPOINTS,
        0 <= k < eps.len(),
        eps[k].area != EndpointArea::Wan,
        eps[k].area != EndpointArea::Mapped,
    ensures
        spec_validate_rendezvous_endpoints(eps, op) == Err::<(), P2pError>(
            P2pError { code: P2pErrorCode::InvalidParam },
        ),
{
    assert(!spec_rendezvous_endpoint_ok(eps[k], eps[0].protocol, op));
}

/// A rendezvous request asking its target to connect back to an endpoint
/// that is neither WAN nor mapped is refused with `InvalidParam`.
pub proof fn lemma_reverse_connect_request_refused(req: SnTunnelRendezvous, k: int)
    requires
        req.operation == SnTunnelRendezvousOperation::PunchAndReverseConnect || req.operation
            == SnTunnelRendezvousOperation::ReverseConnectOnly,
        req.end_point_array@.len() <= MAX_SN_TUNNEL_RENDEZVOUS_ENDPOINTS,
        0 <= k < req.end_point_array@.len(),
        req.end_point_array@[k].area != EndpointArea::Wan,
        req.end_point_array@[k].area != EndpointArea::Mapped,
    ensures
        req.spec_validate() == Err::<(), P2pError>(P2pError { code: P2pErrorCode::InvalidParam }),
{
    lemma_reverse_connect_needs_reachable_endpoints(req.end_point_array@, req.operation, k);
}

fn rendezvous_endpoint_ok(
    ep: &Endpoint,
    transport: Protocol,
    operation: SnTunnelRendezvousOperation,
) -> (r: bool)
    ensures
        r == spec_rendezvous_endpoint_ok(*ep, transport, operation),
{
    let eligible = if operation.reverse_connects() {
        rendezvous_reverse_connect_eligible_area(ep)
    } else {
        rendezvous_eligible_area(ep)
    };
    ep.protocol == transport && (ep.protocol == Protocol::Quic || ep.protocol == Protocol::Tcp)
        && eligible && ep.addr.port != 0
}

/// Checks the endpoint list of a rendezvous action or prediction.
pub fn validate_rendezvous_endpoints(
    endpoints: &[Endpoint],
    operation: SnTunnelRendezvousOperation,
) -> (r: P2pResult<()>)
    ensures
        r == spec_validate_rendezvous_endpoints(endpoints@, operation),
{
    if endpoints.len() > MAX_SN_TUNNEL_RENDEZVOUS_ENDPOINTS {
        return Err(P2pError::new(P2pErrorCode::OutOfLimit));
    }
    if operation.requires_endpoints() == (endpoints.len() == 0) {
        return Err(P2pError::new(P2pErrorCode::InvalidParam));
    }
    if endpoints.len() == 0 {
        return Ok(());
    }
    let transport = endpoints[0].protocol;
    if operation.punches() && transport != Protocol::Quic {
        return Err(P2pError::new(P2pErrorCode::InvalidParam));
    }
    let mut i: usize = 0;
    while i < endpoints.len()
        invariant
            0 < endpoints.len() <= MAX_SN_TUNNEL_RENDEZVOUS_ENDPOINTS,
            operation.spec_requires_endpoints() != (endpoints.len() == 0),
            !(operation.spec_punches() && !(transport is Quic)),
            i <= endpoints.len(),
            transport == endpoints@[0].protocol,
            forall|k: int|
                0 <= k < i ==> spec_rendezvous_endpoint_ok(endpoints@[k], transport, operation),
            forall|a: int, b: int|
                0 <= a < b < i ==> !spec_same_endpoint(endpoints@[a], endpoints@[b]),
        decreases endpoints.len() - i,
    {
        let ep = &endpoints[i];
        if !rendezvous_endpoint_ok(ep, transport, operation) {
            return Err(P2pError::new(P2pErrorCode::InvalidParam));
        }
        let mut j: usize = 0;
        while j < i
            invariant
                0 < endpoints.len() <= MAX_SN_TUNNEL_RENDEZVOUS_ENDPOINTS,
                operation.spec_requires_endpoints() != (endpoints.len() == 0),
                !(operation.spec_punches() && !(transport is Quic)),
                transport == endpoints@[0].protocol,
                i < endpoints.len(),
                j <= i,
                *ep == endpoints@[i as int],
                forall|a: int| 0 <= a < j ==> !spec_same_endpoint(endpoints@[a], *ep),
            decreases i - j,
        {
            if endpoints[j].same_as(ep) {
                proof {
                    let a = j as int;
                    let b = i as int;
                    assert(0 <= a < b < endpoints@.len() && spec_same_endpoint(endpoints@[a], endpoints@[b]));
                    assert(spec_has_duplicate_endpoint(endpoints@));
                }
                return Err(P2pError::new(P2pErrorCode::InvalidParam));
            }
            j = j + 1;
        }
        i = i + 1;
    }
    Ok(())
}

/// Request of a peer for a rendezvous with another peer.
#[derive(Clone, Debug)]
pub struct SnTunnelRendezvous {
    pub seq: Sequence,
    pub tunnel_id: TunnelId,
    pub to_peer_id: P2pId,
    pub operation: SnTunnelRendezvousOperation,
    pub end_point_array: Vec<Endpoint>,
    pub need_predict_endpoint: bool,
}

pub struct SnTunnelRendezvousView {
    pub seq: Sequence,
    pub tunnel_id: TunnelId,
    pub to_peer_id: Seq<u8>,
    pub operation: SnTunnelRendezvousOperation,
    pub end_point_array: Seq<Endpoint>,
    pub need_predict_endpoint: bool,
}

impl View for SnTunnelRendezvous {
    type V = SnTunnelRendezvousView;

    open spec fn view(&self) -> SnTunnelRendezvousView {
        SnTunnelRendezvousView {
            seq: self.seq,
            tunnel_id: self.tunnel_id,
            to_peer_id: self.to_peer_id@,
            operation: self.operation,
            end_point_array: self.end_point_array@,
            need_predict_endpoint: self.need_predict_endpoint,
        }
    }
}

/// Two requests are the same request: equal fields, endpoints compared as
/// endpoints (protocol and address).
pub open spec fn spec_same_request_view(a: SnTunnelRendezvousView, b: SnTunnelRendezvousView) -> bool {
    &&& a.seq == b.seq
    &&& a.tunnel_id == b.tunnel_id
    &&& a.to_peer_id == b.to_peer_id
    &&& a.operation == b.operation
    &&& a.end_point_array.len() == b.end_point_array.len()
    &&& forall|i: int|
        0 <= i < a.end_point_array.len() ==> spec_same_endpoint(
            #[trigger] a.end_point_array[i],
            b.end_point_array[i],
        )
    &&& a.need_predict_endpoint == b.need_predict_endpoint
}

/// Notification the SN forwards to the other side of a rendezvous.
#[derive(Clone, Debug)]
pub struct SnTunnelRendezvousNotify {
    pub seq: Sequence,
    pub tunnel_id: TunnelId,
    pub peer_info: EncodedP2pIdentityCert,
    pub operation: SnTunnelRendezvousOperation,
    pub end_point_array: Vec<Endpoint>,
    pub need_predict_endpoint: bool,
}

/// Response to a rendezvous request.
#[derive(Clone, Debug)]
pub struct SnTunnelRendezvousResp {
    pub seq: Sequence,
    pub result: u8,
    pub predicted_endpoint_array: Vec<Endpoint>,
}

impl SnTunnelRendezvous {
    /// The request that fills `buf` exactly: bytes that do not hold a request
    /// are a codec error, and bytes left over after one are invalid data.
    pub fn clone_from_slice(buf: &[u8]) -> (r: P2pResult<SnTunnelRendezvous>)
        ensures
            spec_parse_rendezvous(buf@) is None ==> r == Err::<SnTunnelRendezvous, P2pError>(
                P2pError { code: P2pErrorCode::RawCodecError },
            ),
            spec_parse_rendezvous(buf@) matches Some((m, rest)) ==> (rest.len() == 0 ==> (r matches Ok(
                x,
            ) && x@ == m)) && (rest.len() > 0 ==> r == Err::<SnTunnelRendezvous, P2pError>(
                P2pError { code: P2pErrorCode::InvalidData },
            )),
    {
        match decode_rendezvous(buf) {
            None => Err(P2pError::new(P2pErrorCode::RawCodecError)),
            Some((m, n)) => strict_rendezvous_decode(Ok((m, n)), buf.len()),
        }
    }

    /// The bytes of this request.
    pub fn to_vec(&self) -> (r: Vec<u8>)
        requires
            self.to_peer_id@.len() <= VARSIZE_MAX,
            self.end_point_array@.len() <= VARSIZE_MAX,
        ensures
            r@ == spec_rendezvous_bytes(self@),
    {
        encode_rendezvous(self)
    }

    pub open spec fn spec_validate(&self) -> P2pResult<()> {
        if self.seq.0 == 0 {
            Err(P2pError { code: P2pErrorCode::InvalidParam })
        } else {
            spec_validate_rendezvous_endpoints(self.end_point_array@, self.operation)
        }
    }

    pub fn validate(&self) -> (r: P2pResult<()>)
        ensures
            r == self.spec_validate(),
    {
        if self.seq.value() == 0 {
            return Err(P2pError::new(P2pErrorCode::InvalidParam));
        }
        validate_rendezvous_endpoints(self.end_point_array.as_slice(), self.operation)
    }

    /// Whether two requests are the same request, field by field, endpoints
    /// compared as endpoints (protocol and address).
    pub open spec fn spec_same_request(&self, other: &SnTunnelRendezvous) -> bool {
        spec_same_request_view(self@, other@)
    }

    pub fn same_request(&self, other: &SnTunnelRendezvous) -> (r: bool)
        ensures
            r == self.spec_same_request(other),
    {
        if self.seq != other.seq || self.tunnel_id != other.tunnel_id
            || self.operation != other.operation || self.need_predict_endpoint
            != other.need_predict_endpoint || !self.to_peer_id.same_as(&other.to_peer_id)
            || self.end_point_array.len() != other.end_point_array.len() {
            return false;
        }
        let mut i: usize = 0;
        while i < self.end_point_array.len()
            invariant
                self.end_point_array.len() == other.end_point_array.len(),
                i <= self.end_point_array.len(),
                forall|k: int| 0 <= k < i ==> spec_same_endpoint(self.end_point_array@[k], other.end_point_array@[k]),
            decreases self.end_point_array.len() - i,
        {
            let a = self.end_point_array[i];
            let b = other.end_point_array[i];
            if !a.same_as(&b) {
                return false;
            }
            i = i + 1;
        }
        true
    }

    /// A copy of this request.
    pub fn duplicate(&self) -> (r: SnTunnelRendezvous)
        ensures
            r@ == self@,
    {
        SnTunnelRendezvous {
            seq: self.seq,
            tunnel_id: self.tunnel_id,
            to_peer_id: self.to_peer_id.duplicate(),
            operation: self.operation,
            end_point_array: copy_vec(&self.end_point_array),
            need_predict_endpoint: self.need_predict_endpoint,
        }
    }
}

pub struct SnTunnelRendezvousNotifyView {
    pub seq: Sequence,
    pub tunnel_id: TunnelId,
    pub peer_info: Seq<u8>,
    pub operation: SnTunnelRendezvousOperation,
    pub end_point_array: Seq<Endpoint>,
    pub need_predict_endpoint: bool,
}

impl View for SnTunnelRendezvousNotify {
    type V = SnTunnelRendezvousNotifyView;

    open spec fn view(&self) -> SnTunnelRendezvousNotifyView {
        SnTunnelRendezvousNotifyView {
            seq: self.seq,
            tunnel_id: self.tunnel_id,
            peer_info: self.peer_info@,
            operation: self.operation,
            end_point_array: self.end_point_array@,
            need_predict_endpoint: self.need_predict_endpoint,
        }
    }
}

impl SnTunnelRendezvousNotify {
    /// The notification that fills `buf` exactly: bytes that do not hold one
    /// are a codec error, and bytes left over after one are invalid data.
    pub fn clone_from_slice(buf: &[u8]) -> (r: P2pResult<SnTunnelRendezvousNotify>)
        ensures
            spec_parse_notify(buf@) is None ==> r == Err::<SnTunnelRendezvousNotify, P2pError>(
                P2pError { code: P2pErrorCode::RawCodecError },
            ),
            spec_parse_notify(buf@) matches Some((m, rest)) ==> (rest.len() == 0 ==> (r matches Ok(
                x,
            ) && x@ == m)) && (rest.len() > 0 ==> r == Err::<SnTunnelRendezvousNotify, P2pError>(
                P2pError { code: P2pErrorCode::InvalidData },
            )),
    {
        match decode_notify(buf) {
            None => Err(P2pError::new(P2pErrorCode::RawCodecError)),
            Some((m, n)) => strict_rendezvous_decode(Ok((m, n)), buf.len()),
        }
    }

    /// The bytes of this notification.
    pub fn to_vec(&self) -> (r: Vec<u8>)
        requires
            self.peer_info@.len() <= VARSIZE_MAX,
            self.end_point_array@.len() <= VARSIZE_MAX,
        ensures
            r@ == spec_notify_bytes(self@),
    {
        encode_notify(self)
    }

    pub open spec fn spec_validate(&self) -> P2pResult<()> {
        if self.seq.0 == 0 {
            Err(P2pError { code: P2pErrorCode::InvalidParam })
        } else {
            spec_validate_rendezvous_endpoints(self.end_point_array@, self.operation)
        }
    }

    pub fn validate(&self) -> (r: P2pResult<()>)
        ensures
            r == self.spec_validate(),
    {
        if self.seq.value() == 0 {
            return Err(P2pError::new(P2pErrorCode::InvalidParam));
        }
        validate_rendezvous_endpoints(self.end_point_array.as_slice(), self.operation)
    }
}

pub struct SnTunnelRendezvousRespView {
    pub seq: Sequence,
    pub result: u8,
    pub predicted_endpoint_array: Seq<Endpoint>,
}

impl View for SnTunnelRendezvousResp {
    type V = SnTunnelRendezvousRespView;

    open spec fn view(&self) -> SnTunnelRendezvousRespView {
        SnTunnelRendezvousRespView {
            seq: self.seq,
            result: self.result,
            predicted_endpoint_array: self.predicted_endpoint_array@,
        }
    }
}

impl SnTunnelRendezvousResp {
    /// The response that fills `buf` exactly: bytes that do not hold one are
    /// a codec error, and bytes left over after one are invalid data.
    pub fn clone_from_slice(buf: &[u8]) -> (r: P2pResult<SnTunnelRendezvousResp>)
        ensures
            spec_parse_resp(buf@) is None ==> r == Err::<SnTunnelRendezvousResp, P2pError>(
                P2pError { code: P2pErrorCode::RawCodecError },
            ),
            spec_parse_resp(buf@) matches Some((m, rest)) ==> (rest.len() == 0 ==> (r matches Ok(
                x,
            ) && x@ == m)) && (rest.len() > 0 ==> r == Err::<SnTunnelRendezvousResp, P2pError>(
                P2pError { code: P2pErrorCode::InvalidData },
            )),
    {
        match decode_resp(buf) {
            None => Err(P2pError::new(P2pErrorCode::RawCodecError)),
            Some((m, n)) => strict_rendezvous_decode(Ok((m, n)), buf.len()),
        }
    }

    /// The bytes of this response.
    pub fn to_vec(&self) -> (r: Vec<u8>)
        requires
            self.predicted_endpoint_array@.len() <= VARSIZE_MAX,
        ensures
            r@ == spec_resp_bytes(self@),
    {
        encode_resp(self)
    }

    /// A copy of this response.
    pub fn duplicate(&self) -> (r: SnTunnelRendezvousResp)
        ensures
            r@ == self@,
    {
        SnTunnelRendezvousResp {
            seq: self.seq,
            result: self.result,
            predicted_endpoint_array: copy_vec(&self.predicted_endpoint_array),
        }
    }

    pub fn success(seq: Sequence, predicted_endpoint_array: Vec<Endpoint>) -> (r: Self)
        ensures
            r.seq == seq,
            r.result == SN_TUNNEL_RENDEZVOUS_RESULT_OK,
            r.predicted_endpoint_array@ == predicted_endpoint_array@,
    {
        SnTunnelRendezvousResp { seq, result: SN_TUNNEL_RENDEZVOUS_RESULT_OK, predicted_endpoint_array }
    }

    pub fn failure(seq: Sequence) -> (r: Self)
        ensures
            r.seq == seq,
            r.result == SN_TUNNEL_RENDEZVOUS_RESULT_FAILED,
            r.predicted_endpoint_array@ == Seq::<Endpoint>::empty(),
    {
        let r = SnTunnelRendezvousResp {
            seq,
            result: SN_TUNNEL_RENDEZVOUS_RESULT_FAILED,
            predicted_endpoint_array: Vec::new(),
        };
        assert(r.predicted_endpoint_array@ =~= Seq::<Endpoint>::empty());
        r
    }

    pub fn is_success(&self) -> (r: bool)
        ensures
            r == (self.result == SN_TUNNEL_RENDEZVOUS_RESULT_OK),
    {
        self.result == SN_TUNNEL_RENDEZVOUS_RESULT_OK
    }

    /// What `validate` answers for an expected sequence and prediction request.
    pub open spec fn spec_validate(&self, expected_seq: Sequence, need_predict_endpoint: bool) -> P2pResult<()> {
        let preds = self.predicted_endpoint_array@;
        if self.seq != expected_seq {
            Err(P2pError { code: P2pErrorCode::Unmatch })
        } else if self.result != SN_TUNNEL_RENDEZVOUS_RESULT_OK && self.result
            != SN_TUNNEL_RENDEZVOUS_RESULT_FAILED {
            Err(P2pError { code: P2pErrorCode::InvalidData })
        } else if self.result != SN_TUNNEL_RENDEZVOUS_RESULT_OK {
            if preds.len() != 0 {
                Err(P2pError { code: P2pErrorCode::InvalidData })
            } else {
                Ok(())
            }
        } else if need_predict_endpoint == (preds.len() == 0) {
            Err(P2pError { code: P2pErrorCode::InvalidData })
        } else if need_predict_endpoint {
            spec_validate_rendezvous_endpoints(preds, SnTunnelRendezvousOperation::PunchOnly)
        } else {
            Ok(())
        }
    }

    pub fn validate(&self, expected_seq: Sequence, need_predict_endpoint: bool) -> (r: P2pResult<()>)
        ensures
            r == self.spec_validate(expected_seq, need_predict_endpoint),
    {
        if self.seq != expected_seq {
            return Err(P2pError::new(P2pErrorCode::Unmatch));
        }
        if self.result != SN_TUNNEL_RENDEZVOUS_RESULT_OK && self.result
            != SN_TUNNEL_RENDEZVOUS_RESULT_FAILED {
            return Err(P2pError::new(P2pErrorCode::InvalidData));
        }
        if !self.is_success() {
            if self.predicted_endpoint_array.len() != 0 {
                return Err(P2pError::new(P2pErrorCode::InvalidData));
            }
            return Ok(());
        }
        if need_predict_endpoint == (self.predicted_endpoint_array.len() == 0) {
            return Err(P2pError::new(P2pErrorCode::InvalidData));
        }
        if need_predict_endpoint {
            validate_rendezvous_endpoints(
                self.predicted_endpoint_array.as_slice(),
                SnTunnelRendezvousOperation::PunchOnly,
            )?;
        }
        Ok(())
    }
}

/// A failed rendezvous response passes validation for its own sequence,
/// whatever was asked of predictions.
pub proof fn lemma_failure_response_validates(seq: Sequence, need_predict_endpoint: bool, r: SnTunnelRendezvousResp)
    requires
        r.seq == seq,
        r.result == SN_TUNNEL_RENDEZVOUS_RESULT_FAILED,
        r.predicted_endpoint_array@.len() == 0,
    ensures
        r.spec_validate(seq, need_predict_endpoint) == Ok::<(), P2pError>(()),
{
}

/// A successful response without predictions validates exactly when no
/// prediction was asked for; with predictions, exactly when they were asked
/// for and form a valid punch endpoint list.
pub proof fn lemma_success_response_validates(
    seq: Sequence,
    need_predict_endpoint: bool,
    r: SnTunnelRendezvousResp,
)
    requires
        r.seq == seq,
        r.result == SN_TUNNEL_RENDEZVOUS_RESULT_OK,
    ensures
        r.predicted_endpoint_array@.len() == 0 ==> (r.spec_validate(seq, need_predict_endpoint) is Ok
            <==> !need_predict_endpoint),
        r.predicted_endpoint_array@.len() != 0 ==> (r.spec_validate(seq, need_predict_endpoint) is Ok
            <==> need_predict_endpoint && spec_validate_rendezvous_endpoints(
            r.predicted_endpoint_array@,
            SnTunnelRendezvousOperation::PunchOnly,
        ) is Ok),
{
}

/// A NAT profile is kept from the wire only when its version is supported.
pub fn supported_nat_profile(profile: Option<NatProfile>) -> (r: Option<NatProfile>)
    ensures
        r == (match profile {
            Some(p) => if p.spec_is_supported() { Some(p) } else { None },
            None => None,
        }),
{
    match profile {
        Some(p) => if p.is_supported() { Some(p) } else { None },
        None => None,
    }
}

/// Probe ports are usable: between 2 and the maximum, non-zero, no repeats.
pub open spec fn spec_supported_nat_probe_ports(ports: Seq<u16>) -> bool {
    &&& 2 <= ports.len() <= MAX_NAT_PROBE_ENDPOINTS
    &&& forall|i: int| 0 <= i < ports.len() ==> ports[i] != 0
    &&& forall|i: int, j: int| 0 <= i < j < ports.len() ==> ports[i] != ports[j]
}

pub fn supported_nat_probe_ports(ports: &[u16]) -> (r: bool)
    ensures
        r == spec_supported_nat_probe_ports(ports@),
{
    if ports.len() < 2 || ports.len() > MAX_NAT_PROBE_ENDPOINTS {
        return false;
    }
    let mut i: usize = 0;
    while i < ports.len()
        invariant
            2 <= ports.len() <= MAX_NAT_PROBE_ENDPOINTS,
            i <= ports.len(),
            forall|k: int| 0 <= k < i ==> ports@[k] != 0,
            forall|a: int, b: int| 0 <= a < b < i ==> ports@[a] != ports@[b],
        decreases ports.len() - i,
    {
        if ports[i] == 0 {
            return false;
        }
        let mut j: usize = 0;
        while j < i
            invariant
                i < ports.len(),
                j <= i,
                forall|a: int| 0 <= a < j ==> ports@[a] != ports@[i as int],
            decreases i - j,
        {
            if ports[j] == ports[i] {
                return false;
            }
            j = j + 1;
        }
        i = i + 1;
    }
    true
}

/// The identity and generation fields of a NAT-probe directive.
pub struct NatProbeDirectiveView {
    pub version: u8,
    pub sn_peer_id: Seq<u8>,
    pub peer_id: Seq<u8>,
    pub registration_generation: u64,
    pub request_id: u64,
    pub probe_config_generation: u64,
    pub expires_at: Timestamp,
    pub ports: Seq<u16>,
}

/// A single SN-authorized NAT-probe operation. Every identity and
/// generation field is echoed by the matching [`NatProbeResult`].
#[derive(Clone, Debug)]
pub struct NatProbeDirective {
    pub version: u8,
    pub sn_peer_id: P2pId,
    pub peer_id: P2pId,
    pub registration_generation: u64,
    pub request_id: u64,
    pub probe_config_generation: u64,
    pub expires_at: Timestamp,
    pub ports: Vec<u16>,
}

impl View for NatProbeDirective {
    type V = NatProbeDirectiveView;

    open spec fn view(&self) -> NatProbeDirectiveView {
        NatProbeDirectiveView {
            version: self.version,
            sn_peer_id: self.sn_peer_id@,
            peer_id: self.peer_id@,
            registration_generation: self.registration_generation,
            request_id: self.request_id,
            probe_config_generation: self.probe_config_generation,
            expires_at: self.expires_at,
            ports: self.ports@,
        }
    }
}

impl NatProbeDirective {
    pub open spec fn spec_is_supported(&self) -> bool {
        self.version == NAT_PROBE_CONTROL_VERSION && spec_supported_nat_probe_ports(self.ports@)
    }

    pub fn is_supported(&self) -> (r: bool)
        ensures
            r == self.spec_is_supported(),
    {
        self.version == NAT_PROBE_CONTROL_VERSION && supported_nat_probe_ports(self.ports.as_slice())
    }
}

pub struct NatProbeResultView {
    pub version: u8,
    pub sn_peer_id: Seq<u8>,
    pub peer_id: Seq<u8>,
    pub registration_generation: u64,
    pub request_id: u64,
    pub probe_config_generation: u64,
    pub profile: NatProfile,
}

/// Correlated result for an SN-owned NAT-probe directive.
#[derive(Clone, Debug)]
pub struct NatProbeResult {
    pub version: u8,
    pub sn_peer_id: P2pId,
    pub peer_id: P2pId,
    pub registration_generation: u64,
    pub request_id: u64,
    pub probe_config_generation: u64,
    pub profile: NatProfile,
}

impl View for NatProbeResult {
    type V = NatProbeResultView;

    open spec fn view(&self) -> NatProbeResultView {
        NatProbeResultView {
            version: self.version,
            sn_peer_id: self.sn_peer_id@,
            peer_id: self.peer_id@,
            registration_generation: self.registration_generation,
            request_id: self.request_id,
            probe_config_generation: self.probe_config_generation,
            profile: self.profile,
        }
    }
}

impl NatProbeResult {
    /// The result of running `directive`, echoing all its identity fields.
    pub fn from_directive(directive: &NatProbeDirective, profile: NatProfile) -> (r: Self)
        ensures
            r@ == (NatProbeResultView {
                version: directive.version,
                sn_peer_id: directive.sn_peer_id@,
                peer_id: directive.peer_id@,
                registration_generation: directive.registration_generation,
                request_id: directive.request_id,
                probe_config_generation: directive.probe_config_generation,
                profile,
            }),
    {
        NatProbeResult {
            version: directive.version,
            sn_peer_id: directive.sn_peer_id.duplicate(),
            peer_id: directive.peer_id.duplicate(),
            registration_generation: directive.registration_generation,
            request_id: directive.request_id,
            probe_config_generation: directive.probe_config_generation,
            profile,
        }
    }

    pub open spec fn spec_is_supported(&self) -> bool {
        self.version == NAT_PROBE_CONTROL_VERSION && self.profile.spec_is_supported()
    }

    pub fn is_supported(&self) -> (r: bool)
        ensures
            r == self.spec_is_supported(),
    {
        self.version == NAT_PROBE_CONTROL_VERSION && self.profile.is_supported()
    }
}

/// A NAT traversal context is kept from the wire only when its version and
/// both profiles are supported.
pub fn supported_nat_context(context: Option<NatTraversalContext>) -> (r: Option<NatTraversalContext>)
    ensures
        r == (match context {
            Some(c) => if c.version == NAT_TRAVERSAL_CONTEXT_VERSION
                && c.caller_profile.spec_is_supported() && c.callee_profile.spec_is_supported() {
                Some(c)
            } else {
                None
            },
            None => None,
        }),
{
    match context {
        Some(c) => if c.version == NAT_TRAVERSAL_CONTEXT_VERSION && c.caller_profile.is_supported()
            && c.callee_profile.is_supported() {
            Some(c)
        } else {
            None
        },
        None => None,
    }
}

} // verus!
