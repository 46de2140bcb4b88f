pub mod tcp;
pub mod server_name;
pub mod quic;
pub mod net_manager;

use vstd::prelude::*;

verus! {

/// What recording an externally observed address did.
#[derive(Clone, Copy, Debug, PartialEq, Eq, Structural)]
pub enum UpdateOuterResult {
    /// The address was already the recorded one.
    Unchanged,
    /// The address was recorded, first or in place of another.
    Update,
}

} // verus!
