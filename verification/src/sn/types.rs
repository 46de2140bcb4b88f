use vstd::prelude::*;
use crate::endpoint::{spec_same_endpoint, Endpoint};
use crate::error::P2pErrorCode;
use crate::types::P2pId;

verus! {

/// Answer to a ping session: who answered, how it went, and the endpoints
/// it reported.
pub struct PingSessionResp {
    pub from: Endpoint,
    pub err: P2pErrorCode,
    pub endpoints: Vec<Endpoint>,
}

/// How SN command tunnels are grouped: by remote endpoint, and by local
/// endpoint when one is given.
#[derive(Clone, Copy, Debug)]
pub struct SnTunnelClassification {
    pub local_ep: Option<Endpoint>,
    pub remote_ep: Endpoint,
}

/// A classification matches `other` when the remote endpoints are the same
/// and, if `other` names a local endpoint, the local endpoints are too.
pub open spec fn spec_classification_matches(a: SnTunnelClassification, other: SnTunnelClassification) -> bool {
    match other.local_ep {
        Some(o) => (match a.local_ep {
            Some(l) => spec_same_endpoint(l, o),
            None => false,
        }) && spec_same_endpoint(a.remote_ep, other.remote_ep),
        None => spec_same_endpoint(a.remote_ep, other.remote_ep),
    }
}

impl SnTunnelClassification {
    pub fn new(local_ep: Option<Endpoint>, remote_ep: Endpoint) -> (r: SnTunnelClassification)
        ensures
            r.local_ep == local_ep,
            r.remote_ep == remote_ep,
    {
        SnTunnelClassification { local_ep, remote_ep }
    }
}

impl PartialEq for SnTunnelClassification {
    fn eq(&self, other: &SnTunnelClassification) -> (r: bool) {
        match other.local_ep {
            Some(o) => {
                let local_same = match self.local_ep {
                    Some(l) => l.same_as(&o),
                    None => false,
                };
                local_same && self.remote_ep.same_as(&other.remote_ep)
            },
            None => self.remote_ep.same_as(&other.remote_ep),
        }
    }
}

impl vstd::std_specs::cmp::PartialEqSpecImpl for SnTunnelClassification {
    open spec fn obeys_eq_spec() -> bool {
        true
    }

    open spec fn eq_spec(&self, other: &SnTunnelClassification) -> bool {
        spec_classification_matches(*self, *other)
    }
}

/// Bytes handed back before a tunnel's own stream: the bytes and how many
/// of them were already read.
pub struct ReadPrefix {
    pub bytes: Vec<u8>,
    pub offset: usize,
}

/// Read half of an SN command tunnel over the stream `R`, with the
/// endpoints and identities of both sides. Bytes read ahead while
/// classifying the tunnel are served before the stream.
pub struct SnTunnelRead<R> {
    read: R,
    prefix: Option<ReadPrefix>,
    local: Endpoint,
    remote: Endpoint,
    local_id: P2pId,
    remote_id: P2pId,
}

pub struct SnTunnelEnds {
    pub local: Endpoint,
    pub remote: Endpoint,
    pub local_id: Seq<u8>,
    pub remote_id: Seq<u8>,
}

impl<R> SnTunnelRead<R> {
    pub closed spec fn ends(&self) -> SnTunnelEnds {
        SnTunnelEnds {
            local: self.local,
            remote: self.remote,
            local_id: self.local_id@,
            remote_id: self.remote_id@,
        }
    }

    /// The bytes still to be served before the stream, if any are kept.
    pub closed spec fn pending_prefix(&self) -> Option<Seq<u8>> {
        match self.prefix {
            Some(p) => Some(p.bytes@.subrange(p.offset as int, p.bytes@.len() as int)),
            None => None,
        }
    }

    pub closed spec fn wf(&self) -> bool {
        match self.prefix {
            Some(p) => p.offset <= p.bytes@.len(),
            None => true,
        }
    }

    pub closed spec fn stream(&self) -> R {
        self.read
    }

    pub fn new(read: R, local: Endpoint, remote: Endpoint, local_id: P2pId, remote_id: P2pId) -> (r:
        SnTunnelRead<R>)
        ensures
            r.wf(),
            r.ends() == (SnTunnelEnds { local, remote, local_id: local_id@, remote_id: remote_id@ }),
            r.pending_prefix() is None,
            r.stream() == read,
    {
        SnTunnelRead { read, prefix: None, local, remote, local_id, remote_id }
    }

    pub fn new_with_prefix(
        read: R,
        local: Endpoint,
        remote: Endpoint,
        local_id: P2pId,
        remote_id: P2pId,
        prefix: Vec<u8>,
    ) -> (r: SnTunnelRead<R>)
        ensures
            r.wf(),
            r.ends() == (SnTunnelEnds { local, remote, local_id: local_id@, remote_id: remote_id@ }),
            r.pending_prefix() == Some(prefix@),
            r.stream() == read,
    {
        let r = SnTunnelRead {
            read,
            prefix: Some(ReadPrefix { bytes: prefix, offset: 0 }),
            local,
            remote,
            local_id,
            remote_id,
        };
        assert(prefix@.subrange(0, prefix@.len() as int) =~= prefix@);
        r
    }

    pub fn remote(&self) -> (r: Endpoint)
        ensures
            r == self.ends().remote,
    {
        self.remote
    }

    pub fn local(&self) -> (r: Endpoint)
        ensures
            r == self.ends().local,
    {
        self.local
    }

    pub fn remote_id(&self) -> (r: P2pId)
        ensures
            r@ == self.ends().remote_id,
    {
        self.remote_id.duplicate()
    }

    pub fn local_id(&self) -> (r: P2pId)
        ensures
            r@ == self.ends().local_id,
    {
        self.local_id.duplicate()
    }

    /// The classification this tunnel is grouped under.
    pub fn get_classification(&self) -> (r: SnTunnelClassification)
        ensures
            r.local_ep == Some(self.ends().local),
            r.remote_ep == self.ends().remote,
    {
        SnTunnelClassification::new(Some(self.local), self.remote)
    }

    /// Serves a read of at most `room` bytes from the kept prefix. Returns
    /// the bytes served, or `None` when no prefix bytes are left and the
    /// read goes to the stream; the prefix is dropped once fully served.
    pub fn read_prefix(&mut self, room: usize) -> (r: Option<Vec<u8>>)
        requires
            old(self).wf(),
        ensures
            final(self).wf(),
            final(self).ends() == old(self).ends(),
            final(self).stream() == old(self).stream(),
            match old(self).pending_prefix() {
                Some(rest) if rest.len() > 0 => {
                    let n = if rest.len() < room { rest.len() } else { room as nat };
                    &&& r matches Some(out) && out@ == rest.subrange(0, n as int)
                    &&& final(self).pending_prefix() == if n == rest.len() {
                        None
                    } else {
                        Some(rest.subrange(n as int, rest.len() as int))
                    }
                },
                _ => r is None && final(self).pending_prefix() is None,
            },
    {
        let (bytes, offset) = match self.prefix.take() {
            Some(p) => (p.bytes, p.offset),
            None => {
                return None;
            },
        };
        let len = bytes.len();
        if offset >= len {
            return None;
        }
        let remain = len - offset;
        let n = if remain < room {
            remain
        } else {
            room
        };
        let mut out: Vec<u8> = Vec::with_capacity(n);
        let mut i: usize = 0;
        while i < n
            invariant
                offset + n <= bytes@.len(),
                len == bytes@.len(),
                i <= n,
                out@ == bytes@.subrange(offset as int, offset + i),
            decreases n - i,
        {
            out.push(bytes[offset + i]);
            i = i + 1;
            assert(out@ =~= bytes@.subrange(offset as int, offset + i));
        }
        let next = offset + n;
        proof {
            let rest = bytes@.subrange(offset as int, len as int);
            assert(out@ =~= rest.subrange(0, n as int));
            assert(bytes@.subrange(next as int, len as int) =~= rest.subrange(n as int, rest.len() as int));
        }
        if next < len {
            self.prefix = Some(ReadPrefix { bytes, offset: next });
        }
        Some(out)
    }

    /// The stream under the tunnel, for reads past the prefix.
    pub fn stream_mut(&mut self) -> (r: &mut R)
        ensures
            *r == old(self).stream(),
    {
        &mut self.read
    }
}

/// Write half of an SN command tunnel over the stream `W`.
pub struct SnTunnelWrite<W> {
    write: W,
    local: Endpoint,
    remote: Endpoint,
    local_id: P2pId,
    remote_id: P2pId,
}

impl<W> SnTunnelWrite<W> {
    pub closed spec fn ends(&self) -> SnTunnelEnds {
        SnTunnelEnds {
            local: self.local,
            remote: self.remote,
            local_id: self.local_id@,
            remote_id: self.remote_id@,
        }
    }

    pub closed spec fn stream(&self) -> W {
        self.write
    }

    pub fn new(write: W, local: Endpoint, remote: Endpoint, local_id: P2pId, remote_id: P2pId) -> (r:
        SnTunnelWrite<W>)
        ensures
            r.ends() == (SnTunnelEnds { local, remote, local_id: local_id@, remote_id: remote_id@ }),
            r.stream() == write,
    {
        SnTunnelWrite { write, local, remote, local_id, remote_id }
    }

    pub fn remote(&self) -> (r: Endpoint)
        ensures
            r == self.ends().remote,
    {
        self.remote
    }

    pub fn local(&self) -> (r: Endpoint)
        ensures
            r == self.ends().local,
    {
        self.local
    }

    pub fn remote_id(&self) -> (r: P2pId)
        ensures
            r@ == self.ends().remote_id,
    {
        self.remote_id.duplicate()
    }

    pub fn local_id(&self) -> (r: P2pId)
        ensures
            r@ == self.ends().local_id,
    {
        self.local_id.duplicate()
    }

    pub fn get_classification(&self) -> (r: SnTunnelClassification)
        ensures
            r.local_ep == Some(self.ends().local),
            r.remote_ep == self.ends().remote,
    {
        SnTunnelClassification::new(Some(self.local), self.remote)
    }

    /// The stream under the tunnel.
    pub fn stream_mut(&mut self) -> (r: &mut W)
        ensures
            *r == old(self).stream(),
    {
        &mut self.write
    }
}

} // verus!
