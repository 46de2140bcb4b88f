use vstd::prelude::*;

verus! {

/// Bucky time of the Unix epoch, in microseconds.
pub open spec fn spec_min_bucky_time() -> u64 {
    11_644_473_600_000_000
}

/// Reads `bucky_time::MIN_BUCKY_TIME`, which the crate defines as
/// `11644473600 * 1000 * 1000`, the bucky time of the Unix epoch.
#[verifier::external_body]
pub(crate) fn min_bucky_time() -> (r: u64)
    ensures
        r == spec_min_bucky_time(),
{
    bucky_time::MIN_BUCKY_TIME
}

} // verus!
