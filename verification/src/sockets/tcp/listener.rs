use vstd::prelude::*;
use crate::endpoint::{spec_same_endpoint, Endpoint};
use crate::error::{P2pError, P2pErrorCode, P2pResult};
use crate::sockets::UpdateOuterResult;

verus! {

/// The certificate an accepted TLS peer presented first; a peer that
/// presented none is refused.
pub fn first_peer_certificate(certs: Option<&Vec<Vec<u8>>>) -> (r: P2pResult<&Vec<u8>>)
    ensures
        (certs matches Some(c) && c@.len() > 0) ==> r == Ok::<&Vec<u8>, P2pError>(&certs.unwrap()@[0]),
        !(certs matches Some(c) && c@.len() > 0) ==> r == Err::<&Vec<u8>, P2pError>(
            P2pError { code: P2pErrorCode::CertError },
        ),
{
    match certs {
        Some(c) => {
            if c.len() == 0 {
                Err(P2pError::new(P2pErrorCode::CertError))
            } else {
                Ok(&c[0])
            }
        },
        None => Err(P2pError::new(P2pErrorCode::CertError)),
    }
}

pub struct TCPListenerView {
    pub local: Option<Endpoint>,
    pub outer: Option<Endpoint>,
    pub mapping_port: Option<u16>,
}

/// A TLS-over-TCP listener: the addresses it listens on and is seen from
/// outside on, its port mapping, the socket it accepts on (`S`) and the
/// listener told of new connections (`L`).
pub struct TCPListener<S, L> {
    local: Option<Endpoint>,
    outer: Option<Endpoint>,
    socket: Option<S>,
    mapping_port: Option<u16>,
    tcp_listener: Option<L>,
}

impl<S, L> View for TCPListener<S, L> {
    type V = TCPListenerView;

    closed spec fn view(&self) -> TCPListenerView {
        TCPListenerView { local: self.local, outer: self.outer, mapping_port: self.mapping_port }
    }
}

impl<S, L> TCPListener<S, L> {
    pub closed spec fn event_listener(&self) -> Option<L> {
        self.tcp_listener
    }

    pub closed spec fn bound_socket(&self) -> Option<S> {
        self.socket
    }

    /// A listener not bound yet.
    pub fn new() -> (r: TCPListener<S, L>)
        ensures
            r@ == (TCPListenerView { local: None, outer: None, mapping_port: None }),
            r.bound_socket() is None,
            r.event_listener() is None,
    {
        TCPListener { local: None, outer: None, socket: None, mapping_port: None, tcp_listener: None }
    }

    pub fn outer(&self) -> (r: Option<Endpoint>)
        ensures
            r == self@.outer,
    {
        self.outer
    }

    pub fn set_local(&mut self, local: Endpoint)
        ensures
            final(self)@ == (TCPListenerView { local: Some(local), ..old(self)@ }),
            final(self).bound_socket() == old(self).bound_socket(),
            final(self).event_listener() == old(self).event_listener(),
    {
        self.local = Some(local);
    }

    /// Records `outer` as the address the listener is seen on from outside.
    pub fn update_outer(&mut self, outer: &Endpoint) -> (r: UpdateOuterResult)
        ensures
            final(self).bound_socket() == old(self).bound_socket(),
            final(self).event_listener() == old(self).event_listener(),
            match old(self)@.outer {
                Some(o) if spec_same_endpoint(o, *outer) => r == UpdateOuterResult::Unchanged
                    && final(self)@ == old(self)@,
                _ => r == UpdateOuterResult::Update && final(self)@ == (TCPListenerView {
                    outer: Some(*outer),
                    ..old(self)@
                }),
            },
    {
        match self.outer {
            Some(o) => {
                if !o.same_as(outer) {
                    self.outer = Some(*outer);
                    UpdateOuterResult::Update
                } else {
                    UpdateOuterResult::Unchanged
                }
            },
            None => {
                self.outer = Some(*outer);
                UpdateOuterResult::Update
            },
        }
    }

    /// Records a successful bind of `socket` on `local`.
    pub fn bound(&mut self, socket: S, local: Endpoint, out: Option<Endpoint>, mapping_port: Option<u16>)
        ensures
            final(self)@ == (TCPListenerView { local: Some(local), outer: out, mapping_port }),
            final(self).bound_socket() == Some(socket),
            final(self).event_listener() == old(self).event_listener(),
    {
        self.local = Some(local);
        self.outer = out;
        self.socket = Some(socket);
        self.mapping_port = mapping_port;
    }

    /// Moves the listener to `local`, forgetting the outside address.
    pub fn reset(&mut self, local: &Endpoint)
        ensures
            final(self)@ == (TCPListenerView { local: Some(*local), outer: None, ..old(self)@ }),
            final(self).bound_socket() == old(self).bound_socket(),
            final(self).event_listener() == old(self).event_listener(),
    {
        self.local = Some(*local);
        self.outer = None;
    }

    pub fn set_connection_event_listener(&mut self, event: L)
        ensures
            final(self)@ == old(self)@,
            final(self).event_listener() == Some(event),
            final(self).bound_socket() == old(self).bound_socket(),
    {
        self.tcp_listener = Some(event);
    }

    pub fn mapping_port(&self) -> (r: Option<u16>)
        ensures
            r == self@.mapping_port,
    {
        self.mapping_port
    }

    /// The address the listener is bound on, once it is.
    pub fn local(&self) -> (r: Endpoint)
        requires
            self@.local is Some,
        ensures
            r == self@.local.unwrap(),
    {
        self.local.unwrap()
    }

    pub fn socket_ref(&self) -> (r: Option<&S>)
        ensures
            match r {
                Some(s) => self.bound_socket() == Some(*s),
                None => self.bound_socket() is None,
            },
    {
        self.socket.as_ref()
    }

    pub fn event_listener_ref(&self) -> (r: Option<&L>)
        ensures
            match r {
                Some(l) => self.event_listener() == Some(*l),
                None => self.event_listener() is None,
            },
    {
        self.tcp_listener.as_ref()
    }
}

} // verus!
