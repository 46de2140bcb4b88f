use vstd::prelude::*;
use crate::endpoint::{Endpoint, Protocol};
use crate::error::{P2pError, P2pErrorCode, P2pResult};
use crate::nat_type::{NatProfile, NatTraversalContext};
use crate::sn::protocol::receipt::{ReceiptWithSignature, SnServiceReceipt};
use crate::sn::protocol::sn::{
    spec_supported_nat_probe_ports, supported_nat_profile, NatProbeDirective, NatProbeResult,
    NAT_PROBE_CONTROL_VERSION,
};
use crate::sn::protocol::v0::TunnelType;
use crate::types::{EncodedP2pIdentityCert, P2pId, Sequence, Timestamp, TunnelId};

verus! {

/// Commands exchanged between SNs.
#[derive(Clone, Copy, Debug, PartialEq, Eq, Structural)]
pub enum InterSnCommandCode {
    Heartbeat,
    PublishLease,
    QueryLease,
    QueryDetail,
    RelayCall,
    RelayRendezvousV2,
}

pub open spec fn spec_inter_sn_code_value(c: InterSnCommandCode) -> u8 {
    match c {
        InterSnCommandCode::Heartbeat => 0x80,
        InterSnCommandCode::PublishLease => 0x81,
        InterSnCommandCode::QueryLease => 0x82,
        InterSnCommandCode::QueryDetail => 0x83,
        InterSnCommandCode::RelayCall => 0x84,
        InterSnCommandCode::RelayRendezvousV2 => 0x86,
    }
}

/// The wire values of inter-SN commands; 0x85 is not one.
pub open spec fn spec_is_inter_sn_code(v: u8) -> bool {
    (0x80 <= v <= 0x84) || v == 0x86
}

impl InterSnCommandCode {
    pub fn code(&self) -> (r: u8)
        ensures
            r == spec_inter_sn_code_value(*self),
    {
        match self {
            InterSnCommandCode::Heartbeat => 0x80,
            InterSnCommandCode::PublishLease => 0x81,
            InterSnCommandCode::QueryLease => 0x82,
            InterSnCommandCode::QueryDetail => 0x83,
            InterSnCommandCode::RelayCall => 0x84,
            InterSnCommandCode::RelayRendezvousV2 => 0x86,
        }
    }

    pub fn try_from(value: u8) -> (r: P2pResult<InterSnCommandCode>)
        ensures
            r is Ok <==> spec_is_inter_sn_code(value),
            r matches Ok(c) ==> spec_inter_sn_code_value(c) == value,
            r matches Err(e) ==> e.code == P2pErrorCode::InvalidParam,
    {
        match value {
            0x80u8 => Ok(InterSnCommandCode::Heartbeat),
            0x81u8 => Ok(InterSnCommandCode::PublishLease),
            0x82u8 => Ok(InterSnCommandCode::QueryLease),
            0x83u8 => Ok(InterSnCommandCode::QueryDetail),
            0x84u8 => Ok(InterSnCommandCode::RelayCall),
            0x86u8 => Ok(InterSnCommandCode::RelayRendezvousV2),
            _ => Err(P2pError::new(P2pErrorCode::InvalidParam)),
        }
    }

    /// One byte: the command's wire value.
    pub fn encode(&self) -> (r: Vec<u8>)
        ensures
            r@ == seq![spec_inter_sn_code_value(*self)],
    {
        let mut out: Vec<u8> = Vec::new();
        out.push(self.code());
        assert(out@ =~= seq![spec_inter_sn_code_value(*self)]);
        out
    }

    /// Reads a command from the front of `buf`: an empty buffer is out of
    /// limit, an unknown value fails.
    pub fn decode(buf: &[u8]) -> (r: P2pResult<(InterSnCommandCode, usize)>)
        ensures
            r is Ok <==> buf@.len() >= 1 && spec_is_inter_sn_code(buf@[0]),
            r matches Ok((c, n)) ==> n == 1 && spec_inter_sn_code_value(c) == buf@[0],
            r matches Err(e) ==> e.code == (if buf@.len() == 0 {
                P2pErrorCode::OutOfLimit
            } else {
                P2pErrorCode::Failed
            }),
    {
        if buf.len() == 0 {
            return Err(P2pError::new(P2pErrorCode::OutOfLimit));
        }
        match InterSnCommandCode::try_from(buf[0]) {
            Ok(c) => Ok((c, 1)),
            Err(_) => Err(P2pError::new(P2pErrorCode::Failed)),
        }
    }
}

/// Every command reads back from its own encoding.
pub proof fn lemma_inter_sn_code_roundtrip(c: InterSnCommandCode)
    ensures
        spec_is_inter_sn_code(spec_inter_sn_code_value(c)),
        forall|d: InterSnCommandCode|
            spec_inter_sn_code_value(d) == spec_inter_sn_code_value(c) ==> d == c,
{
}

/// Keep-alive of a member SN towards the owner.
pub struct SnOwnerHeartbeat {
    pub member_sn_id: P2pId,
}

/// Lease by which an SN announces that it serves a peer.
pub struct SnPublishLease {
    pub peer_id: P2pId,
    pub serving_sn_id: P2pId,
    pub sequence: u64,
    pub expires_at: Timestamp,
}

pub struct SnQueryLease {
    pub peer_id: P2pId,
}

pub struct SnQueryLeaseResp {
    pub leases: Vec<SnPublishLease>,
}

pub struct SnDetailQuery {
    pub peer_id: P2pId,
}

/// What an SN knows of a peer it serves.
pub struct SnDetailResp {
    pub peer_info: Option<EncodedP2pIdentityCert>,
    pub end_point_array: Vec<Endpoint>,
    pub net_profile: Option<NatProfile>,
    pub target_protocol_version: Option<u8>,
}

/// A call one peer places, through the SN, to another.
pub struct SnCall {
    pub protocol_version: u8,
    pub stack_version: u32,
    pub seq: Sequence,
    pub tunnel_id: TunnelId,
    pub sn_peer_id: P2pId,
    pub to_peer_id: P2pId,
    pub from_peer_id: P2pId,
    pub reverse_endpoint_array: Option<Vec<Endpoint>>,
    pub active_pn_list: Option<Vec<P2pId>>,
    pub peer_info: Option<EncodedP2pIdentityCert>,
    pub send_time: Timestamp,
    pub call_type: TunnelType,
    pub payload: Vec<u8>,
    pub is_always_call: bool,
    pub nat_context: Option<NatTraversalContext>,
}

/// A call relayed from one SN to the SN serving the callee.
pub struct SnRelayCall {
    pub call: SnCall,
}

/// Periodic report of a peer to its SN.
pub struct ReportSn {
    pub protocol_version: u8,
    pub stack_version: u32,
    pub seq: Sequence,
    pub sn_peer_id: P2pId,
    pub from_peer_id: Option<P2pId>,
    pub peer_info: Option<EncodedP2pIdentityCert>,
    pub send_time: Timestamp,
    pub contract_id: Option<P2pId>,
    pub receipt: Option<ReceiptWithSignature>,
    pub map_ports: Vec<(Protocol, u16)>,
    pub local_eps: Vec<Endpoint>,
    pub net_profile: Option<NatProfile>,
    pub nat_probe_control_version: Option<u8>,
    pub nat_probe_result: Option<NatProbeResult>,
}

/// The NAT-probe control a report carries in its extension.
pub struct ReportSnProbeControl {
    pub version: u8,
    pub result: Option<NatProbeResult>,
}

/// The probe control a report sends in its extension: present when the
/// report names a control version or carries a result, a missing version
/// sent as 0.
pub fn report_probe_control(version: Option<u8>, result: Option<NatProbeResult>) -> (r: Option<
    ReportSnProbeControl,
>)
    ensures
        version is None && result is None ==> r is None,
        version is Some || result is Some ==> (r matches Some(c) && c.version == (match version {
            Some(v) => v,
            None => 0,
        }) && c.result == result),
{
    if version.is_none() && result.is_none() {
        return None;
    }
    let v = match version {
        Some(v) => v,
        None => 0,
    };
    Some(ReportSnProbeControl { version: v, result })
}

/// What a report keeps of the extensions it was received with: the NAT
/// profile when its version is supported, and the probe control only when
/// of the current control version, its result only when supported.
pub fn report_extensions_from_wire(
    net_profile: Option<NatProfile>,
    control: Option<ReportSnProbeControl>,
) -> (r: (Option<NatProfile>, Option<u8>, Option<NatProbeResult>))
    ensures
        r.0 == (match net_profile {
            Some(p) => if p.spec_is_supported() { Some(p) } else { None },
            None => None,
        }),
        (control matches Some(c) && c.version == NAT_PROBE_CONTROL_VERSION) ==> ({
            let c = control.unwrap();
            &&& r.1 == Some(c.version)
            &&& r.2 == (match c.result {
                Some(res) => if res.spec_is_supported() { Some(res) } else { None },
                None => None,
            })
        }),
        !(control matches Some(c) && c.version == NAT_PROBE_CONTROL_VERSION) ==> r.1 is None && r.2 is None,
{
    let profile = supported_nat_profile(net_profile);
    match control {
        Some(c) => {
            if c.version != NAT_PROBE_CONTROL_VERSION {
                return (profile, None, None);
            }
            let result = match c.result {
                Some(res) => if res.is_supported() {
                    Some(res)
                } else {
                    None
                },
                None => None,
            };
            (profile, Some(c.version), result)
        },
        None => (profile, None, None),
    }
}

/// The SN's answer to a report.
pub struct ReportSnResp {
    pub seq: Sequence,
    pub sn_peer_id: P2pId,
    pub result: u8,
    pub peer_info: Option<EncodedP2pIdentityCert>,
    pub end_point_array: Vec<Endpoint>,
    pub receipt: Option<SnServiceReceipt>,
    pub nat_probe_ports: Vec<u16>,
    pub nat_probe_directive: Option<NatProbeDirective>,
}

/// What a report response keeps of the extensions it was received with:
/// the probe ports when usable (else none), and the directive when
/// supported.
pub fn report_resp_extensions_from_wire(
    ports: Option<Vec<u16>>,
    directive: Option<NatProbeDirective>,
) -> (r: (Vec<u16>, Option<NatProbeDirective>))
    ensures
        r.0@ == (match ports {
            Some(p) => if spec_supported_nat_probe_ports(p@) { p@ } else { Seq::empty() },
            None => Seq::empty(),
        }),
        r.1 == (match directive {
            Some(d) => if d.spec_is_supported() { Some(d) } else { None },
            None => None,
        }),
{
    let kept_ports = match ports {
        Some(p) => if crate::sn::protocol::sn::supported_nat_probe_ports(p.as_slice()) {
            p
        } else {
            Vec::new()
        },
        None => Vec::new(),
    };
    let kept_directive = match directive {
        Some(d) => if d.is_supported() {
            Some(d)
        } else {
            None
        },
        None => None,
    };
    (kept_ports, kept_directive)
}

/// Query for what the SN knows of a peer.
pub struct SnQuery {
    pub protocol_version: u8,
    pub stack_version: u32,
    pub seq: Sequence,
    pub query_id: P2pId,
}

pub struct SnQueryResp {
    pub seq: Sequence,
    pub peer_info: Option<EncodedP2pIdentityCert>,
    pub end_point_array: Vec<Endpoint>,
    pub net_profile: Option<NatProfile>,
    pub target_protocol_version: Option<u8>,
}

} // verus!
