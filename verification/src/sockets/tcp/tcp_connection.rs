use vstd::prelude::*;
use crate::endpoint::Endpoint;
use crate::types::P2pId;

verus! {

/// The sending half of a TLS-over-TCP stream `S`.
pub struct TCPSend<S> {
    pub socket: S,
}

/// Opens TLS-over-TCP connections; see the application layer for the
/// connecting itself.
pub struct TCPConnection;

pub struct TCPHalfView {
    pub remote_identity_id: Seq<u8>,
    pub local_identity_id: Seq<u8>,
    pub local: Endpoint,
    pub remote: Endpoint,
    pub remote_name: Seq<char>,
}

/// The read half `R` of a TLS-over-TCP connection with both ends.
pub struct TCPRead<R> {
    read: R,
    remote_identity_id: P2pId,
    local_identity_id: P2pId,
    local: Endpoint,
    remote: Endpoint,
    remote_name: String,
}

impl<R> View for TCPRead<R> {
    type V = TCPHalfView;

    closed spec fn view(&self) -> TCPHalfView {
        TCPHalfView {
            remote_identity_id: self.remote_identity_id@,
            local_identity_id: self.local_identity_id@,
            local: self.local,
            remote: self.remote,
            remote_name: self.remote_name@,
        }
    }
}

impl<R> TCPRead<R> {
    pub closed spec fn stream(&self) -> R {
        self.read
    }

    pub fn new(
        read: R,
        remote_identity_id: P2pId,
        local_identity_id: P2pId,
        local: Endpoint,
        remote: Endpoint,
        remote_name: String,
    ) -> (r: TCPRead<R>)
        ensures
            r@ == (TCPHalfView {
                remote_identity_id: remote_identity_id@,
                local_identity_id: local_identity_id@,
                local,
                remote,
                remote_name: remote_name@,
            }),
            r.stream() == read,
    {
        TCPRead { read, remote_identity_id, local_identity_id, local, remote, remote_name }
    }

    pub fn remote(&self) -> (r: Endpoint)
        ensures
            r == self@.remote,
    {
        self.remote
    }

    pub fn local(&self) -> (r: Endpoint)
        ensures
            r == self@.local,
    {
        self.local
    }

    pub fn remote_id(&self) -> (r: P2pId)
        ensures
            r@ == self@.remote_identity_id,
    {
        self.remote_identity_id.duplicate()
    }

    pub fn local_id(&self) -> (r: P2pId)
        ensures
            r@ == self@.local_identity_id,
    {
        self.local_identity_id.duplicate()
    }

    pub fn remote_name(&self) -> (r: String)
        ensures
            r@ == self@.remote_name,
    {
        self.remote_name.clone()
    }

    pub fn stream_mut(&mut self) -> (r: &mut R)
        ensures
            *r == old(self).stream(),
    {
        &mut self.read
    }
}

/// The write half `W` of a TLS-over-TCP connection with both ends.
pub struct TCPWrite<W> {
    write: W,
    remote_identity_id: P2pId,
    local_identity_id: P2pId,
    local: Endpoint,
    remote: Endpoint,
    remote_name: String,
}

impl<W> View for TCPWrite<W> {
    type V = TCPHalfView;

    closed spec fn view(&self) -> TCPHalfView {
        TCPHalfView {
            remote_identity_id: self.remote_identity_id@,
            local_identity_id: self.local_identity_id@,
            local: self.local,
            remote: self.remote,
            remote_name: self.remote_name@,
        }
    }
}

impl<W> TCPWrite<W> {
    pub closed spec fn stream(&self) -> W {
        self.write
    }

    pub fn new(
        write: W,
        remote_identity_id: P2pId,
        local_identity_id: P2pId,
        local: Endpoint,
        remote: Endpoint,
        remote_name: String,
    ) -> (r: TCPWrite<W>)
        ensures
            r@ == (TCPHalfView {
                remote_identity_id: remote_identity_id@,
                local_identity_id: local_identity_id@,
                local,
                remote,
                remote_name: remote_name@,
            }),
            r.stream() == write,
    {
        TCPWrite { write, remote_identity_id, local_identity_id, local, remote, remote_name }
    }

    pub fn remote(&self) -> (r: Endpoint)
        ensures
            r == self@.remote,
    {
        self.remote
    }

    pub fn local(&self) -> (r: Endpoint)
        ensures
            r == self@.local,
    {
        self.local
    }

    pub fn remote_id(&self) -> (r: P2pId)
        ensures
            r@ == self@.remote_identity_id,
    {
        self.remote_identity_id.duplicate()
    }

    pub fn local_id(&self) -> (r: P2pId)
        ensures
            r@ == self@.local_identity_id,
    {
        self.local_identity_id.duplicate()
    }

    pub fn remote_name(&self) -> (r: String)
        ensures
            r@ == self@.remote_name,
    {
        self.remote_name.clone()
    }

    pub fn stream_mut(&mut self) -> (r: &mut W)
        ensures
            *r == old(self).stream(),
    {
        &mut self.write
    }
}

} // verus!
