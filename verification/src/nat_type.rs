use vstd::prelude::*;
use crate::types::Timestamp;

verus! {

/// Wire version of a NAT profile.
pub const NAT_PROFILE_VERSION: u8 = 1;

/// Wire version of the NAT traversal context carried by calls.
pub const NAT_TRAVERSAL_CONTEXT_VERSION: u8 = 1;

/// How a NAT maps one internal endpoint to external endpoints.
#[derive(Clone, Copy, Debug, PartialEq, Eq, Structural)]
pub enum NatMappingObservation {
    Unknown,
    EndpointIndependent,
    AddressDependent,
    AddressAndPortDependent,
}

/// What a NAT probe learned about a peer's NAT, and until when it holds.
#[derive(Clone, Copy, Debug, PartialEq, Eq, Structural)]
pub struct NatProfile {
    pub version: u8,
    pub observation: NatMappingObservation,
    pub valid_until: Timestamp,
}

impl NatProfile {
    pub open spec fn spec_is_supported(&self) -> bool {
        self.version == NAT_PROFILE_VERSION
    }

    pub open spec fn spec_is_fresh(&self, now: Timestamp) -> bool {
        now <= self.valid_until
    }

    pub fn is_supported(&self) -> (r: bool)
        ensures
            r == self.spec_is_supported(),
    {
        self.version == NAT_PROFILE_VERSION
    }

    pub fn is_fresh(&self, now: Timestamp) -> (r: bool)
        ensures
            r == self.spec_is_fresh(now),
    {
        now <= self.valid_until
    }
}

/// NAT profiles of both sides of a call.
#[derive(Clone, Copy, Debug, PartialEq, Eq, Structural)]
pub struct NatTraversalContext {
    pub version: u8,
    pub caller_profile: NatProfile,
    pub callee_profile: NatProfile,
}

} // verus!
