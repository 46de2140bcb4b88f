use vstd::prelude::*;
use crate::endpoint::Protocol;

verus! {

/// Creates TLS-over-TCP connections for the local identity `I`, checking
/// peers' certificates with `F`, within `timeout_ms` milliseconds.
pub struct TcpConnectionFactory<I, F> {
    pub local_identity: I,
    pub cert_factory: F,
    pub timeout_ms: u64,
}

impl<I, F> TcpConnectionFactory<I, F> {
    pub fn new(local_identity: I, cert_factory: F, timeout_ms: u64) -> (r: TcpConnectionFactory<I, F>)
        ensures
            r.local_identity == local_identity,
            r.cert_factory == cert_factory,
            r.timeout_ms == timeout_ms,
    {
        TcpConnectionFactory { local_identity, cert_factory, timeout_ms }
    }

    /// The factory makes TCP connections.
    pub fn protocol(&self) -> (r: Protocol)
        ensures
            r == Protocol::Tcp,
    {
        Protocol::Tcp
    }
}

} // verus!
