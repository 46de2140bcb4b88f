use vstd::prelude::*;
use crate::endpoint::{Endpoint, Protocol};
use crate::error::P2pResult;
use crate::networks::ValidateResult;
use crate::types::{P2pId, TunnelCandidateId, TunnelId};

verus! {

/// What an incoming-tunnel validator is shown of a tunnel.
pub struct TtpIncomingTunnelValidateContext {
    pub local_id: P2pId,
    pub remote_id: P2pId,
    pub protocol: Protocol,
    pub tunnel_id: TunnelId,
    pub candidate_id: TunnelCandidateId,
    pub local_ep: Option<Endpoint>,
    pub remote_ep: Option<Endpoint>,
}

/// Decides whether an incoming tunnel is taken.
pub trait TtpIncomingTunnelValidator {
    fn validate(&self, ctx: &TtpIncomingTunnelValidateContext) -> P2pResult<ValidateResult>;
}

/// The validator that takes every incoming tunnel.
pub struct AllowAllTtpIncomingTunnelValidator;

impl TtpIncomingTunnelValidator for AllowAllTtpIncomingTunnelValidator {
    fn validate(&self, _ctx: &TtpIncomingTunnelValidateContext) -> (r: P2pResult<ValidateResult>)
        ensures
            r matches Ok(ValidateResult::Accept),
    {
        Ok(ValidateResult::Accept)
    }
}

pub fn allow_all_ttp_incoming_tunnel_validator() -> (r: AllowAllTtpIncomingTunnelValidator) {
    AllowAllTtpIncomingTunnelValidator
}

/// An incoming tunnel is kept only when its validator accepted it; a
/// rejection or a failing validator closes it.
pub fn incoming_tunnel_accepted(verdict: &P2pResult<ValidateResult>) -> (r: bool)
    ensures
        r == (verdict matches Ok(ValidateResult::Accept)),
{
    match verdict {
        Ok(ValidateResult::Accept) => true,
        _ => false,
    }
}

} // verus!
