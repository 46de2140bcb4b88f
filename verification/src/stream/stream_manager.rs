use vstd::prelude::*;
use crate::endpoint::Endpoint;
use crate::error::{P2pError, P2pErrorCode, P2pResult};
use crate::types::{P2pId, SessionId};

verus! {

/// An accept loop goes on after an error only when the port is not
/// listened on (yet).
pub fn should_continue_accept_loop(err: &P2pError) -> (r: bool)
    ensures
        r == (err.code == P2pErrorCode::PortNotListen),
{
    match err.code() {
        P2pErrorCode::PortNotListen => true,
        _ => false,
    }
}

/// A stream is closed when its tunnel says so, or when the tunnel is gone
/// (`None`).
pub fn stream_closed(tunnel_closed: Option<bool>) -> (r: bool)
    ensures
        r == (match tunnel_closed {
            Some(c) => c,
            None => true,
        }),
{
    match tunnel_closed {
        Some(c) => c,
        None => true,
    }
}

/// What came of offering an accepted stream to a listener's channel.
#[derive(Clone, Copy, Debug, PartialEq, Eq, Structural)]
pub enum ChannelSend {
    Sent,
    Full,
    Closed,
}

/// What handing an accepted stream to a listener answers: a stopped
/// listener takes nothing (`UserCanceled`), a full channel is over its limit,
/// and a closed one is interrupted.
pub fn push_accepted_outcome(stopped: bool, sent: ChannelSend) -> (r: P2pResult<()>)
    ensures
        stopped ==> r == Err::<(), P2pError>(P2pError { code: P2pErrorCode::UserCanceled }),
        !stopped ==> r == (match sent {
            ChannelSend::Sent => Ok(()),
            ChannelSend::Full => Err(P2pError { code: P2pErrorCode::OutOfLimit }),
            ChannelSend::Closed => Err(P2pError { code: P2pErrorCode::Interrupted }),
        }),
{
    if stopped {
        return Err(P2pError::new(P2pErrorCode::UserCanceled));
    }
    match sent {
        ChannelSend::Sent => Ok(()),
        ChannelSend::Full => Err(P2pError::new(P2pErrorCode::OutOfLimit)),
        ChannelSend::Closed => Err(P2pError::new(P2pErrorCode::Interrupted)),
    }
}

/// What a listener's accept answers: once stopped it is canceled
/// (`UserCanceled`); otherwise the stream received, or `Interrupted` when
/// its channel closed (`None`).
pub fn accept_outcome<S>(stopped: bool, received: Option<S>) -> (r: P2pResult<S>)
    ensures
        stopped ==> r == Err::<S, P2pError>(P2pError { code: P2pErrorCode::UserCanceled }),
        !stopped ==> r == (match received {
            Some(s) => Ok(s),
            None => Err(P2pError { code: P2pErrorCode::Interrupted }),
        }),
{
    if stopped {
        return Err(P2pError::new(P2pErrorCode::UserCanceled));
    }
    match received {
        Some(s) => Ok(s),
        None => Err(P2pError::new(P2pErrorCode::Interrupted)),
    }
}

pub struct StreamEnds<P> {
    pub session_id: SessionId,
    pub purpose: P,
    pub remote: Endpoint,
    pub local: Endpoint,
    pub remote_id: Seq<u8>,
    pub local_id: Seq<u8>,
}

/// The read side `R` of a stream session over the tunnel linked by `T`,
/// opened for purpose `P`.
pub struct StreamRead<R, T, P> {
    read: R,
    tunnel: T,
    session_id: SessionId,
    purpose: P,
    remote: Endpoint,
    local: Endpoint,
    remote_id: P2pId,
    local_id: P2pId,
}

impl<R, T, P> StreamRead<R, T, P> {
    pub closed spec fn ends(&self) -> StreamEnds<P> {
        StreamEnds {
            session_id: self.session_id,
            purpose: self.purpose,
            remote: self.remote,
            local: self.local,
            remote_id: self.remote_id@,
            local_id: self.local_id@,
        }
    }

    pub closed spec fn stream(&self) -> R {
        self.read
    }

    pub closed spec fn tunnel_link(&self) -> T {
        self.tunnel
    }

    pub fn new(
        read: R,
        tunnel: T,
        session_id: SessionId,
        purpose: P,
        local_id: P2pId,
        remote_id: P2pId,
        local: Endpoint,
        remote: Endpoint,
    ) -> (r: StreamRead<R, T, P>)
        ensures
            r.ends() == (StreamEnds {
                session_id,
                purpose,
                remote,
                local,
                remote_id: remote_id@,
                local_id: local_id@,
            }),
            r.stream() == read,
            r.tunnel_link() == tunnel,
    {
        StreamRead { read, tunnel, session_id, purpose, remote, local, remote_id, local_id }
    }

    pub fn session_id(&self) -> (r: SessionId)
        ensures
            r == self.ends().session_id,
    {
        self.session_id
    }

    pub fn purpose(&self) -> (r: &P)
        ensures
            *r == self.ends().purpose,
    {
        &self.purpose
    }

    pub fn remote(&self) -> (r: Endpoint)
        ensures
            r == self.ends().remote,
    {
        self.remote
    }

    pub fn local(&self) -> (r: Endpoint)
        ensures
            r == self.ends().local,
    {
        self.local
    }

    pub fn remote_id(&self) -> (r: P2pId)
        ensures
            r@ == self.ends().remote_id,
    {
        self.remote_id.duplicate()
    }

    pub fn local_id(&self) -> (r: P2pId)
        ensures
            r@ == self.ends().local_id,
    {
        self.local_id.duplicate()
    }

    pub fn tunnel(&self) -> (r: &T)
        ensures
            *r == self.tunnel_link(),
    {
        &self.tunnel
    }

    /// Whether the stream is closed, given what its tunnel link reports:
    /// the tunnel's own state, or `None` when the tunnel is gone.
    pub fn is_closed(&self, tunnel_closed: Option<bool>) -> (r: bool)
        ensures
            r == (match tunnel_closed {
                Some(c) => c,
                None => true,
            }),
    {
        stream_closed(tunnel_closed)
    }

    pub fn stream_mut(&mut self) -> (r: &mut R)
        ensures
            *r == old(self).stream(),
    {
        &mut self.read
    }
}

} // verus!
