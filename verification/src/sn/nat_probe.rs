use vstd::prelude::*;

verus! {

/// Most ports an SN may use to probe a peer's NAT mapping.
pub const MAX_NAT_PROBE_ENDPOINTS: usize = 8;

} // verus!
