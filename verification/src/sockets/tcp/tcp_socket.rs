use vstd::prelude::*;
use crate::endpoint::Endpoint;
use crate::error::{P2pError, P2pErrorCode, P2pResult};
use crate::types::P2pId;

verus! {

/// The sending half of a TLS-over-TCP stream `S`.
pub struct TCPSend<S> {
    pub socket: S,
}

pub struct TCPSocketView {
    pub remote_identity_id: Seq<u8>,
    pub local_identity_id: Seq<u8>,
    pub local: Endpoint,
    pub remote: Endpoint,
}

/// A TLS-over-TCP connection: its stream `S`, until it is split off, and
/// both ends.
pub struct TCPSocket<S> {
    socket: Option<S>,
    remote_identity_id: P2pId,
    local_identity_id: P2pId,
    local: Endpoint,
    remote: Endpoint,
}

impl<S> View for TCPSocket<S> {
    type V = TCPSocketView;

    closed spec fn view(&self) -> TCPSocketView {
        TCPSocketView {
            remote_identity_id: self.remote_identity_id@,
            local_identity_id: self.local_identity_id@,
            local: self.local,
            remote: self.remote,
        }
    }
}

impl<S> TCPSocket<S> {
    pub closed spec fn stream(&self) -> Option<S> {
        self.socket
    }

    pub fn new(socket: S, local_identity_id: P2pId, remote_identity_id: P2pId, local: Endpoint, remote: Endpoint) -> (r:
        TCPSocket<S>)
        ensures
            r@ == (TCPSocketView {
                remote_identity_id: remote_identity_id@,
                local_identity_id: local_identity_id@,
                local,
                remote,
            }),
            r.stream() == Some(socket),
    {
        TCPSocket { socket: Some(socket), remote_identity_id, local_identity_id, local, remote }
    }

    pub fn remote_identity_id(&self) -> (r: &P2pId)
        ensures
            r@ == self@.remote_identity_id,
    {
        &self.remote_identity_id
    }

    pub fn local_identity_id(&self) -> (r: &P2pId)
        ensures
            r@ == self@.local_identity_id,
    {
        &self.local_identity_id
    }

    pub fn remote(&self) -> (r: &Endpoint)
        ensures
            *r == self@.remote,
    {
        &self.remote
    }

    pub fn local(&self) -> (r: &Endpoint)
        ensures
            *r == self@.local,
    {
        &self.local
    }

    /// Takes the stream out to be split into its read and write halves; a
    /// socket already split has none left.
    pub fn split(&mut self) -> (r: P2pResult<S>)
        ensures
            final(self)@ == old(self)@,
            final(self).stream() is None,
            match old(self).stream() {
                Some(s) => r == Ok::<S, P2pError>(s),
                None => r == Err::<S, P2pError>(P2pError { code: P2pErrorCode::IoError }),
            },
    {
        match self.socket.take() {
            Some(s) => Ok(s),
            None => Err(P2pError::new(P2pErrorCode::IoError)),
        }
    }

    pub fn is_split(&self) -> (r: bool)
        ensures
            r == self.stream() is None,
    {
        self.socket.is_none()
    }

    /// Puts back the stream rejoined from its halves.
    pub fn unsplit(&mut self, socket: S)
        ensures
            final(self)@ == old(self)@,
            final(self).stream() == Some(socket),
    {
        self.socket = Some(socket);
    }
}

/// A call that changes whether a socket is split: `split` or `unsplit`.
#[derive(Clone, Copy, Debug, PartialEq, Eq, Structural)]
pub enum SplitCall {
    Split,
    Unsplit,
}

/// What `split` and `unsplit` leave of the stream: none after a split,
/// whatever it held before, and the stream put back after an unsplit.
pub open spec fn spec_split_step<S>(after: Option<S>, call: SplitCall) -> bool {
    match call {
        SplitCall::Split => after is None,
        SplitCall::Unsplit => after is Some,
    }
}

/// Whether a socket is split after `calls` made on a new socket: it is not
/// split until the first call, and afterwards exactly when the last call
/// was a split.
pub open spec fn spec_split_after(calls: Seq<SplitCall>) -> bool {
    calls.len() > 0 && calls.last() == SplitCall::Split
}

/// Over every sequence of `split` and `unsplit` calls on a new socket,
/// `is_split` answers true exactly when the last call was a split: `streams`
/// are the socket's streams after each call, starting with the new socket's.
pub proof fn lemma_is_split_tracks_calls<S>(streams: Seq<Option<S>>, calls: Seq<SplitCall>)
    requires
        streams.len() == calls.len() + 1,
        streams[0] is Some,
        forall|i: int| 0 <= i < calls.len() ==> spec_split_step(#[trigger] streams[i + 1], calls[i]),
    ensures
        (streams.last() is None) == spec_split_after(calls),
{
    if calls.len() > 0 {
        let i = calls.len() - 1;
        assert(spec_split_step(streams[i + 1], calls[i]));
        assert(streams.last() == streams[i + 1]);
    }
}

} // verus!
