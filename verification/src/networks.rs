use vstd::prelude::*;

verus! {

/// Verdict of a validator on an incoming connection or tunnel.
pub enum ValidateResult {
    Accept,
    Reject(String),
}

} // verus!
