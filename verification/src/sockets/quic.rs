use vstd::prelude::*;
use crate::endpoint::{spec_same_endpoint, spec_same_ip_version, Endpoint, Protocol, SocketAddr};
use crate::error::{P2pError, P2pErrorCode, P2pResult};
use crate::sn::service::peer_table::{KeyedTable, TableKey};
use crate::types::P2pId;

verus! {

/// Congestion control a QUIC endpoint runs.
#[derive(Clone, Copy, Debug, PartialEq, Eq, Structural)]
pub enum QuicCongestionAlgorithm {
    Bbr,
    Cubic,
    NewReno,
}

/// The positions of the listeners, by local endpoint, that can reach
/// `remote`: those of its IP version, in order.
pub open spec fn spec_listeners_for_remote(listeners: Seq<Endpoint>, remote: Endpoint) -> Seq<int>
    decreases listeners.len(),
{
    if listeners.len() == 0 {
        Seq::empty()
    } else {
        let prev = spec_listeners_for_remote(listeners.drop_last(), remote);
        if spec_same_ip_version(listeners.last(), remote) {
            prev.push(listeners.len() - 1)
        } else {
            prev
        }
    }
}

pub fn listeners_for_remote(listeners: &[Endpoint], remote: &Endpoint) -> (r: Vec<usize>)
    ensures
        r@.map_values(|i: usize| i as int) == spec_listeners_for_remote(listeners@, *remote),
{
    let mut out: Vec<usize> = Vec::new();
    let mut i: usize = 0;
    while i < listeners.len()
        invariant
            i <= listeners@.len(),
            out@.map_values(|j: usize| j as int) == spec_listeners_for_remote(listeners@.subrange(0, i as int), *remote),
        decreases listeners.len() - i,
    {
        let ghost before = out@;
        assert(listeners@.subrange(0, i + 1).drop_last() =~= listeners@.subrange(0, i as int));
        if listeners[i].is_same_ip_version(remote) {
            out.push(i);
            assert(out@.map_values(|j: usize| j as int) =~= before.map_values(|j: usize| j as int).push(i as int));
        }
        i = i + 1;
    }
    assert(listeners@.subrange(0, listeners@.len() as int) =~= listeners@);
    out
}

/// The first listener bound on `local_ep` that can reach `remote`, by
/// position; `NotFound` when there is none.
pub fn listener_for_local_ep(listeners: &[Endpoint], local_ep: &Endpoint, remote: &Endpoint) -> (r: P2pResult<
    usize,
>)
    ensures
        r matches Ok(i) ==> i < listeners@.len() && spec_same_endpoint(listeners@[i as int], *local_ep)
            && spec_same_ip_version(listeners@[i as int], *remote) && forall|k: int|
            0 <= k < i ==> !(spec_same_endpoint(#[trigger] listeners@[k], *local_ep) && spec_same_ip_version(
                listeners@[k],
                *remote,
            )),
        r is Err ==> r == Err::<usize, P2pError>(P2pError { code: P2pErrorCode::NotFound }) && forall|k: int|
            0 <= k < listeners@.len() ==> !(spec_same_endpoint(#[trigger] listeners@[k], *local_ep)
                && spec_same_ip_version(listeners@[k], *remote)),
{
    let mut i: usize = 0;
    while i < listeners.len()
        invariant
            i <= listeners@.len(),
            forall|k: int|
                0 <= k < i ==> !(spec_same_endpoint(#[trigger] listeners@[k], *local_ep) && spec_same_ip_version(
                    listeners@[k],
                    *remote,
                )),
        decreases listeners.len() - i,
    {
        if listeners[i].same_as(local_ep) && listeners[i].is_same_ip_version(remote) {
            return Ok(i);
        }
        i = i + 1;
    }
    Err(P2pError::new(P2pErrorCode::NotFound))
}

/// The successes among `results`, in order.
pub open spec fn spec_successes<C>(results: Seq<P2pResult<C>>) -> Seq<C>
    decreases results.len(),
{
    if results.len() == 0 {
        Seq::empty()
    } else {
        let prev = spec_successes(results.drop_last());
        match results.last() {
            Ok(c) => prev.push(c),
            Err(_) => prev,
        }
    }
}

/// The last error among `results`, if any.
pub open spec fn spec_last_error<C>(results: Seq<P2pResult<C>>) -> Option<P2pError>
    decreases results.len(),
{
    if results.len() == 0 {
        None
    } else {
        match results.last() {
            Err(e) => Some(e),
            Ok(_) => spec_last_error(results.drop_last()),
        }
    }
}

/// What connecting through every usable listener answers, from the result
/// of each attempt: the connections made, or when none was made the last
/// error, or `NotFound` when no listener was tried.
pub fn stream_connect_outcome<C>(results: Vec<P2pResult<C>>) -> (r: P2pResult<Vec<C>>)
    ensures
        spec_successes(results@).len() > 0 ==> (r matches Ok(v) && v@ == spec_successes(results@)),
        spec_successes(results@).len() == 0 ==> r == Err::<Vec<C>, P2pError>(
            match spec_last_error(results@) {
                Some(e) => e,
                None => P2pError { code: P2pErrorCode::NotFound },
            },
        ),
{
    let ghost all = results@;
    let n = results.len();
    let mut rest = results;
    let mut conns: Vec<C> = Vec::new();
    let mut last_err: Option<P2pError> = None;
    let mut i: usize = 0;
    while i < n
        invariant
            n == all.len(),
            i <= n,
            rest@ == all.subrange(i as int, n as int),
            conns@ == spec_successes(all.subrange(0, i as int)),
            last_err == spec_last_error(all.subrange(0, i as int)),
        decreases n - i,
    {
        let item = rest.remove(0);
        assert(all.subrange(0, i + 1).drop_last() =~= all.subrange(0, i as int));
        assert(all.subrange(0, i + 1).last() == item);
        match item {
            Ok(c) => {
                conns.push(c);
            },
            Err(e) => {
                last_err = Some(e);
            },
        }
        i = i + 1;
        assert(rest@ =~= all.subrange(i as int, n as int));
    }
    assert(all.subrange(0, n as int) =~= all);
    if conns.len() == 0 {
        match last_err {
            Some(e) => Err(e),
            None => Err(P2pError::new(P2pErrorCode::NotFound)),
        }
    } else {
        Ok(conns)
    }
}

/// What a pooled QUIC connection is keyed by: the listener it goes out
/// from, the local identity, the remote endpoint and the remote identity
/// when the caller named one.
pub struct QuicConnKey {
    pub listener_local_ep: Endpoint,
    pub local_identity_id: P2pId,
    pub remote_ep: Endpoint,
    pub remote_id_hint: Option<P2pId>,
}

impl View for QuicConnKey {
    type V = ((Protocol, SocketAddr), Seq<u8>, (Protocol, SocketAddr), Option<Seq<u8>>);

    open spec fn view(&self) -> ((Protocol, SocketAddr), Seq<u8>, (Protocol, SocketAddr), Option<Seq<u8>>) {
        (
            (self.listener_local_ep.protocol, self.listener_local_ep.addr),
            self.local_identity_id@,
            (self.remote_ep.protocol, self.remote_ep.addr),
            match self.remote_id_hint {
                Some(id) => Some(id@),
                None => None,
            },
        )
    }
}

impl TableKey for QuicConnKey {
    fn same_key(&self, other: &Self) -> (r: bool) {
        let hints = match (&self.remote_id_hint, &other.remote_id_hint) {
            (Some(a), Some(b)) => a.same_as(b),
            (None, None) => true,
            _ => false,
        };
        self.listener_local_ep.same_as(&other.listener_local_ep) && self.local_identity_id.same_as(
            &other.local_identity_id,
        ) && self.remote_ep.same_as(&other.remote_ep) && hints
    }

    fn copy_key(&self) -> (r: Self) {
        QuicConnKey {
            listener_local_ep: self.listener_local_ep,
            local_identity_id: self.local_identity_id.duplicate(),
            remote_ep: self.remote_ep,
            remote_id_hint: match &self.remote_id_hint {
                Some(id) => Some(id.duplicate()),
                None => None,
            },
        }
    }
}

/// The pool key of a connection from `listener_local_ep` under
/// `local_identity_id` to `remote`; an unspecified remote identity (no
/// bytes) is no hint.
pub fn make_conn_key(
    listener_local_ep: Endpoint,
    local_identity_id: &P2pId,
    remote: &Endpoint,
    remote_id: &P2pId,
) -> (r: QuicConnKey)
    ensures
        r@ == (
            (listener_local_ep.protocol, listener_local_ep.addr),
            local_identity_id@,
            (remote.protocol, remote.addr),
            if remote_id@.len() == 0 { None } else { Some(remote_id@) },
        ),
{
    QuicConnKey {
        listener_local_ep,
        local_identity_id: local_identity_id.duplicate(),
        remote_ep: *remote,
        remote_id_hint: if remote_id.as_slice().len() == 0 {
            None
        } else {
            Some(remote_id.duplicate())
        },
    }
}

/// Open QUIC connections kept for reuse, each an `E`, by key.
pub struct QuicConnPool<E> {
    entries: KeyedTable<QuicConnKey, E>,
}

impl<E> View for QuicConnPool<E> {
    type V = Map<((Protocol, SocketAddr), Seq<u8>, (Protocol, SocketAddr), Option<Seq<u8>>), E>;

    closed spec fn view(&self) -> Map<((Protocol, SocketAddr), Seq<u8>, (Protocol, SocketAddr), Option<Seq<u8>>), E> {
        self.entries@
    }
}

impl<E> QuicConnPool<E> {
    pub closed spec fn wf(&self) -> bool {
        self.entries.wf()
    }

    pub fn new() -> (r: Self)
        ensures
            r.wf(),
            r@ == Map::<((Protocol, SocketAddr), Seq<u8>, (Protocol, SocketAddr), Option<Seq<u8>>), E>::empty(),
    {
        QuicConnPool { entries: KeyedTable::new() }
    }

    /// The connection pooled under `key`, if any.
    pub fn get(&self, key: &QuicConnKey) -> (r: Option<&E>)
        requires
            self.wf(),
        ensures
            match r {
                Some(e) => self@.dom().contains(key@) && *e == self@[key@],
                None => !self@.dom().contains(key@),
            },
    {
        self.entries.get_ref(key)
    }

    /// Pools `conn` under `key`, in place of any connection there.
    pub fn insert(&mut self, key: QuicConnKey, conn: E)
        requires
            old(self).wf(),
        ensures
            final(self).wf(),
            final(self)@ == old(self)@.insert(key@, conn),
    {
        self.entries.insert(key, conn);
    }

    /// Drops the connection pooled under `key` (a closed or failing one).
    pub fn remove(&mut self, key: &QuicConnKey) -> (r: Option<E>)
        requires
            old(self).wf(),
        ensures
            final(self).wf(),
            final(self)@ == old(self)@.remove(key@),
            match r {
                Some(e) => old(self)@.dom().contains(key@) && e == old(self)@[key@],
                None => !old(self)@.dom().contains(key@),
            },
    {
        self.entries.remove(key)
    }

    pub fn is_empty(&self) -> (r: bool)
        requires
            self.wf(),
        ensures
            r == (self@.dom().len() == 0),
    {
        proof {
            self.entries.lemma_len();
        }
        self.entries.len() == 0
    }

    /// Empties the pool, answering every connection it held, to be closed.
    pub fn drain(&mut self) -> (r: Vec<E>)
        requires
            old(self).wf(),
        ensures
            final(self).wf(),
            final(self)@ == Map::<((Protocol, SocketAddr), Seq<u8>, (Protocol, SocketAddr), Option<Seq<u8>>), E>::empty(),
            r@.len() == old(self)@.dom().len(),
            forall|k| #[trigger] old(self)@.dom().contains(k) ==> r@.contains(old(self)@[k]),
    {
        proof {
            self.entries.lemma_len();
            self.entries.lemma_positions();
        }
        let ghost old_entries = self.entries;
        let out = self.entries.drain_values();
        proof {
            assert forall|k| #[trigger] old(self)@.dom().contains(k) implies out@.contains(old(self)@[k]) by {
                let i = choose|i: int| 0 <= i < old_entries.spec_len() && old_entries.key_at(i) == k;
                assert(old_entries@.dom().contains(old_entries.key_at(i)));
                assert(out@[i] == old_entries.value_at(i));
            }
        }
        out
    }
}

} // verus!
