use vstd::prelude::*;
use crate::endpoint::Endpoint;
use crate::nat_type::NatTraversalContext;
use crate::types::{EncodedP2pIdentityCert, P2pId, Sequence, Timestamp, TunnelId};

verus! {

/// Kind of tunnel a call asks for.
#[derive(Clone, Copy, Debug, PartialEq, Eq, Structural)]
pub enum TunnelType {
    Datagram,
    Stream,
}

/// Response of the SN to a call.
#[derive(Clone, Debug)]
pub struct SnCallResp {
    pub seq: Sequence,
    pub sn_peer_id: P2pId,
    pub result: u8,
    pub to_peer_info: Option<EncodedP2pIdentityCert>,
}

/// Notification the SN delivers to the called peer.
#[derive(Clone, Debug)]
pub struct SnCalled {
    pub seq: Sequence,
    pub sn_peer_id: P2pId,
    pub to_peer_id: P2pId,
    pub reverse_endpoint_array: Vec<Endpoint>,
    pub active_pn_list: Vec<P2pId>,
    pub peer_info: EncodedP2pIdentityCert,
    pub tunnel_id: TunnelId,
    pub call_send_time: Timestamp,
    pub call_type: TunnelType,
    pub payload: Vec<u8>,
    pub nat_context: Option<NatTraversalContext>,
}

/// Answer of the called peer to the SN.
#[derive(Clone, Debug)]
pub struct SnCalledResp {
    pub seq: Sequence,
    pub sn_peer_id: P2pId,
    pub result: u8,
}

} // verus!
