use vstd::prelude::*;
use crate::endpoint::Endpoint;
use crate::types::P2pId;

verus! {

/// Where a TTP connection goes.
pub struct TtpTarget {
    pub local_ep: Option<Endpoint>,
    pub remote_ep: Endpoint,
    pub remote_id: P2pId,
    pub remote_name: Option<String>,
}

pub struct TtpTargetView {
    pub local_ep: Option<Endpoint>,
    pub remote_ep: Endpoint,
    pub remote_id: Seq<u8>,
    pub remote_name: Option<Seq<char>>,
}

impl View for TtpTarget {
    type V = TtpTargetView;

    open spec fn view(&self) -> TtpTargetView {
        TtpTargetView {
            local_ep: self.local_ep,
            remote_ep: self.remote_ep,
            remote_id: self.remote_id@,
            remote_name: match self.remote_name {
                Some(n) => Some(n@),
                None => None,
            },
        }
    }
}

impl TtpTarget {
    /// A copy of this target.
    pub fn duplicate(&self) -> (r: TtpTarget)
        ensures
            r@ == self@,
    {
        TtpTarget {
            local_ep: self.local_ep,
            remote_ep: self.remote_ep,
            remote_id: self.remote_id.duplicate(),
            remote_name: match &self.remote_name {
                Some(n) => Some(n.clone()),
                None => None,
            },
        }
    }
}

/// What is known of a TTP stream, opened for purpose `P`.
pub struct TtpStreamMeta<P> {
    pub local_ep: Option<Endpoint>,
    pub remote_ep: Option<Endpoint>,
    pub local_id: P2pId,
    pub remote_id: P2pId,
    pub remote_name: Option<String>,
    pub purpose: P,
}

/// What is known of a TTP datagram channel, opened for purpose `P`.
pub struct TtpDatagramMeta<P> {
    pub local_ep: Option<Endpoint>,
    pub remote_ep: Option<Endpoint>,
    pub local_id: P2pId,
    pub remote_id: P2pId,
    pub remote_name: Option<String>,
    pub purpose: P,
}

/// A datagram channel with the reader `R` of its datagrams.
pub struct TtpDatagram<P, R> {
    pub meta: TtpDatagramMeta<P>,
    pub read: R,
}

} // verus!
