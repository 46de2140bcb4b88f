use vstd::prelude::*;
use crate::endpoint::{Endpoint, IpAddr, Protocol, SocketAddr};
use crate::sn::service::peer_table::{KeyedTable, TableKey};
use crate::ttp::types::{TtpTarget, TtpTargetView};
use crate::error::{P2pError, P2pErrorCode, P2pResult};
use crate::types::P2pId;

verus! {

/// An endpoint as a route: its protocol and address (its area is only a
/// classification).
pub open spec fn spec_route(ep: Option<Endpoint>) -> Option<(Protocol, SocketAddr)> {
    match ep {
        Some(e) => Some((e.protocol, e.addr)),
        None => None,
    }
}

/// What a tunnel cache knows of a tunnel: the peer at its other end and the
/// endpoints on both sides, when known.
pub struct TunnelInfo {
    pub remote_id: P2pId,
    pub local_ep: Option<Endpoint>,
    pub remote_ep: Option<Endpoint>,
}

impl View for TunnelInfo {
    type V = (Seq<u8>, Option<(Protocol, SocketAddr)>, Option<(Protocol, SocketAddr)>);

    open spec fn view(&self) -> (Seq<u8>, Option<(Protocol, SocketAddr)>, Option<(Protocol, SocketAddr)>) {
        (self.remote_id@, spec_route(self.local_ep), spec_route(self.remote_ep))
    }
}

fn same_route(a: &Option<Endpoint>, b: &Option<Endpoint>) -> (r: bool)
    ensures
        r == (spec_route(*a) == spec_route(*b)),
{
    match (a, b) {
        (Some(x), Some(y)) => x.protocol == y.protocol && x.addr == y.addr,
        (None, None) => true,
        _ => false,
    }
}

impl TableKey for TunnelInfo {
    fn same_key(&self, other: &Self) -> (r: bool) {
        self.remote_id.same_as(&other.remote_id) && same_route(&self.local_ep, &other.local_ep)
            && same_route(&self.remote_ep, &other.remote_ep)
    }

    fn copy_key(&self) -> (r: Self) {
        self.duplicate()
    }
}

impl TunnelInfo {
    pub fn duplicate(&self) -> (r: TunnelInfo)
        ensures
            r.remote_id@ == self.remote_id@,
            r.local_ep == self.local_ep,
            r.remote_ep == self.remote_ep,
    {
        TunnelInfo { remote_id: self.remote_id.duplicate(), local_ep: self.local_ep, remote_ep: self.remote_ep }
    }
}

/// The unspecified endpoint: unknown protocol on `0.0.0.0:0`.
pub open spec fn spec_is_default_endpoint(ep: Endpoint) -> bool {
    ep.protocol == Protocol::Unk && ep.addr == SocketAddr { ip: IpAddr::V4(0), port: 0 }
}

pub fn is_default_endpoint(ep: &Endpoint) -> (r: bool)
    ensures
        r == spec_is_default_endpoint(*ep),
{
    ep.protocol == Protocol::Unk && ep.addr == SocketAddr { ip: IpAddr::V4(0), port: 0 }
}

/// A tunnel (by its key) serves a target: it goes to the target's peer, from
/// the target's local endpoint when the target names one and the tunnel's is
/// known, and to the target's remote endpoint unless the target leaves it
/// unspecified or the tunnel's is not known.
pub open spec fn spec_match_target(
    k: (Seq<u8>, Option<(Protocol, SocketAddr)>, Option<(Protocol, SocketAddr)>),
    target: TtpTargetView,
) -> bool {
    &&& k.0 == target.remote_id
    &&& !(target.local_ep matches Some(l) && k.1 matches Some(x) && x != (l.protocol, l.addr))
    &&& (spec_is_default_endpoint(target.remote_ep) || match k.2 {
        Some(x) => x == (target.remote_ep.protocol, target.remote_ep.addr),
        None => true,
    })
}

pub fn match_target(tunnel: &TunnelInfo, target: &TtpTarget) -> (r: bool)
    ensures
        r == spec_match_target(tunnel@, target@),
{
    if !tunnel.remote_id.same_as(&target.remote_id) {
        return false;
    }
    if let Some(local_ep) = target.local_ep {
        if let Some(ep) = tunnel.local_ep {
            if !(ep.protocol == local_ep.protocol && ep.addr == local_ep.addr) {
                return false;
            }
        }
    }
    if is_default_endpoint(&target.remote_ep) {
        return true;
    }
    match tunnel.remote_ep {
        Some(ep) => ep.protocol == target.remote_ep.protocol && ep.addr == target.remote_ep.addr,
        None => true,
    }
}

/// A tunnel can be reused while it is open and connected.
pub fn is_tunnel_available(closed: bool, connected: bool) -> (r: bool)
    ensures
        r == (!closed && connected),
{
    !closed && connected
}

/// Reusable tunnels, one per route (peer and endpoints), each a `T`.
pub struct TtpTunnelCache<T> {
    tunnels: KeyedTable<TunnelInfo, T>,
}

impl<T> View for TtpTunnelCache<T> {
    type V = Map<(Seq<u8>, Option<(Protocol, SocketAddr)>, Option<(Protocol, SocketAddr)>), T>;

    closed spec fn view(&self) -> Map<(Seq<u8>, Option<(Protocol, SocketAddr)>, Option<(Protocol, SocketAddr)>), T> {
        self.tunnels@
    }
}

impl<T> TtpTunnelCache<T> {
    pub closed spec fn wf(&self) -> bool {
        self.tunnels.wf()
    }

    pub closed spec fn spec_len(&self) -> nat {
        self.tunnels.spec_len()
    }

    /// The route of the tunnel at position `i`.
    pub closed spec fn route_at(&self, i: int) -> (Seq<u8>, Option<(Protocol, SocketAddr)>, Option<(Protocol, SocketAddr)>) {
        self.tunnels.key_at(i)
    }

    /// The tunnel at position `i`.
    pub closed spec fn tunnel_at_spec(&self, i: int) -> T {
        self.tunnels.value_at(i)
    }

    pub fn new() -> (r: Self)
        ensures
            r.wf(),
            r@ == Map::<(Seq<u8>, Option<(Protocol, SocketAddr)>, Option<(Protocol, SocketAddr)>), T>::empty(),
    {
        TtpTunnelCache { tunnels: KeyedTable::new() }
    }

    pub fn len(&self) -> (r: usize)
        ensures
            r == self.spec_len(),
    {
        self.tunnels.len()
    }

    /// The tunnel at position `i`, to be asked whether it is still available.
    pub fn tunnel_at(&self, i: usize) -> (r: &T)
        requires
            i < self.spec_len(),
        ensures
            *r == self.tunnel_at_spec(i as int),
    {
        self.tunnels.value_ref_at(i)
    }

    /// Keeps exactly the tunnels flagged available, by position.
    pub fn retain_available(&mut self, available: &Vec<bool>)
        requires
            old(self).wf(),
            available@.len() == old(self).spec_len(),
        ensures
            final(self).wf(),
            forall|k| #[trigger] final(self)@.dom().contains(k) ==> old(self)@.dom().contains(k)
                && final(self)@[k] == old(self)@[k],
            forall|i: int|
                0 <= i < old(self).spec_len() ==> (#[trigger] final(self)@.dom().contains(
                    old(self).route_at(i),
                ) <==> available@[i]),
    {
        self.tunnels.retain_positions(available);
    }

    /// Remembers `tunnel` under its route, in place of any tunnel there.
    pub fn remember(&mut self, info: TunnelInfo, tunnel: T)
        requires
            old(self).wf(),
        ensures
            final(self).wf(),
            final(self)@ == old(self)@.insert(info@, tunnel),
    {
        self.tunnels.insert(info, tunnel);
    }

    /// A cached tunnel that serves `target`, if there is one.
    pub fn find(&self, target: &TtpTarget) -> (r: Option<&T>)
        requires
            self.wf(),
        ensures
            r is None <==> !(exists|k| #[trigger] self@.dom().contains(k) && spec_match_target(k, target@)),
            r matches Some(t) ==> exists|k| #[trigger] self@.dom().contains(k) && spec_match_target(k, target@)
                && self@[k] == *t,
    {
        let n = self.tunnels.len();
        let mut i: usize = 0;
        while i < n
            invariant
                self.tunnels.wf(),
                n == self.tunnels.spec_len(),
                i <= n,
                forall|j: int| 0 <= j < i ==> !spec_match_target(#[trigger] self.tunnels.key_at(j), target@),
            decreases n - i,
        {
            let info = self.tunnels.key_ref_at(i);
            if match_target(info, target) {
                proof {
                    self.tunnels.lemma_positions();
                    let k = self.tunnels.key_at(i as int);
                    assert(self.tunnels@.dom().contains(k) && spec_match_target(k, target@));
                    assert(self@.dom().contains(k) && self@[k] == self.tunnels.value_at(i as int));
                }
                return Some(self.tunnels.value_ref_at(i));
            }
            i = i + 1;
        }
        proof {
            self.tunnels.lemma_positions();
            assert forall|k| #[trigger] self.tunnels@.dom().contains(k) implies !spec_match_target(k, target@) by {
                let j = choose|j: int| 0 <= j < self.tunnels.spec_len() && self.tunnels.key_at(j) == k;
                assert(!spec_match_target(self.tunnels.key_at(j), target@));
            }
        }
        None
    }
}

/// A remembered tunnel is reused: once it is cached under its route, some
/// cached tunnel serves every target that route serves.
pub proof fn lemma_remembered_route_serves<T>(
    m: Map<(Seq<u8>, Option<(Protocol, SocketAddr)>, Option<(Protocol, SocketAddr)>), T>,
    route: (Seq<u8>, Option<(Protocol, SocketAddr)>, Option<(Protocol, SocketAddr)>),
    tunnel: T,
    target: TtpTargetView,
)
    requires
        spec_match_target(route, target),
    ensures
        exists|k| #[trigger] m.insert(route, tunnel).dom().contains(k) && spec_match_target(k, target),
{
    assert(m.insert(route, tunnel).dom().contains(route));
}

/// Reusable tunnels, one per peer, each with what is known of it and a `T`.
pub struct TtpPeerTunnels<T> {
    tunnels: KeyedTable<P2pId, (TunnelInfo, T)>,
}

impl<T> View for TtpPeerTunnels<T> {
    type V = Map<Seq<u8>, ((Seq<u8>, Option<(Protocol, SocketAddr)>, Option<(Protocol, SocketAddr)>), T)>;

    closed spec fn view(&self) -> Map<Seq<u8>, ((Seq<u8>, Option<(Protocol, SocketAddr)>, Option<(Protocol, SocketAddr)>), T)> {
        self.tunnels@.map_values(|e: (TunnelInfo, T)| (e.0@, e.1))
    }
}

impl<T> TtpPeerTunnels<T> {
    pub closed spec fn wf(&self) -> bool {
        &&& self.tunnels.wf()
        &&& forall|k: Seq<u8>| #[trigger] self.tunnels@.dom().contains(k) ==> self.tunnels@[k].0@.0 == k
    }

    pub closed spec fn spec_len(&self) -> nat {
        self.tunnels.spec_len()
    }

    /// The peer of the tunnel at position `i`.
    pub closed spec fn peer_at(&self, i: int) -> Seq<u8> {
        self.tunnels.key_at(i)
    }

    /// The tunnel at position `i`.
    pub closed spec fn tunnel_at_spec(&self, i: int) -> T {
        self.tunnels.value_at(i).1
    }

    pub fn new() -> (r: Self)
        ensures
            r.wf(),
            r@ == Map::<Seq<u8>, ((Seq<u8>, Option<(Protocol, SocketAddr)>, Option<(Protocol, SocketAddr)>), T)>::empty(),
    {
        let r = TtpPeerTunnels { tunnels: KeyedTable::new() };
        assert(r@ =~= Map::<Seq<u8>, ((Seq<u8>, Option<(Protocol, SocketAddr)>, Option<(Protocol, SocketAddr)>), T)>::empty());
        r
    }

    pub fn len(&self) -> (r: usize)
        ensures
            r == self.spec_len(),
    {
        self.tunnels.len()
    }

    /// The tunnel at position `i`, to be asked whether it is still available.
    pub fn tunnel_at(&self, i: usize) -> (r: &T)
        requires
            i < self.spec_len(),
        ensures
            *r == self.tunnel_at_spec(i as int),
    {
        &self.tunnels.value_ref_at(i).1
    }

    /// Keeps exactly the tunnels flagged available, by position.
    pub fn retain_available(&mut self, available: &Vec<bool>)
        requires
            old(self).wf(),
            available@.len() == old(self).spec_len(),
        ensures
            final(self).wf(),
            forall|k: Seq<u8>| #[trigger] final(self)@.dom().contains(k) ==> old(self)@.dom().contains(k)
                && final(self)@[k] == old(self)@[k],
            forall|i: int|
                0 <= i < old(self).spec_len() ==> (#[trigger] final(self)@.dom().contains(old(self).peer_at(i))
                    <==> available@[i]),
    {
        let ghost old_map = self.tunnels@;
        self.tunnels.retain_positions(available);
        assert forall|k: Seq<u8>| #[trigger] self@.dom().contains(k) implies old(self)@.dom().contains(k)
            && self@[k] == old(self)@[k] by {
            assert(self.tunnels@.dom().contains(k));
        }
    }

    /// Remembers `tunnel` as the tunnel to its peer, in place of any other.
    pub fn remember(&mut self, info: TunnelInfo, tunnel: T)
        requires
            old(self).wf(),
        ensures
            final(self).wf(),
            final(self)@ == old(self)@.insert(info.remote_id@, (info@, tunnel)),
    {
        let id = info.remote_id.duplicate();
        let ghost iv = info@;
        self.tunnels.insert(id, (info, tunnel));
        assert(self@ =~= old(self)@.insert(iv.0, (iv, tunnel)));
    }

    /// The tunnel that serves `target`; a target without one is not found.
    pub fn get_existing_tunnel(&self, target: &TtpTarget) -> (r: P2pResult<&T>)
        requires
            self.wf(),
        ensures
            ({
                let id = target.remote_id@;
                if self@.dom().contains(id) && spec_match_target(self@[id].0, target@) {
                    r == Ok::<&T, P2pError>(&self@[id].1)
                } else {
                    r == Err::<&T, P2pError>(P2pError { code: P2pErrorCode::NotFound })
                }
            }),
    {
        match self.find(target) {
            Some(t) => Ok(t),
            None => Err(P2pError::new(P2pErrorCode::NotFound)),
        }
    }

    /// The tunnel to `target`'s peer, if it serves the target.
    pub fn find(&self, target: &TtpTarget) -> (r: Option<&T>)
        requires
            self.wf(),
        ensures
            ({
                let id = target.remote_id@;
                if self@.dom().contains(id) && spec_match_target(self@[id].0, target@) {
                    r == Some(&self@[id].1)
                } else {
                    r is None
                }
            }),
    {
        match self.tunnels.get_ref(&target.remote_id) {
            Some(entry) => {
                if match_target(&entry.0, target) {
                    Some(&entry.1)
                } else {
                    None
                }
            },
            None => None,
        }
    }
}

/// The tunnel remembered for a peer is the one found for every target it
/// serves, until another tunnel to that peer replaces it.
pub proof fn lemma_remembered_peer_tunnel_found<T>(
    m: Map<Seq<u8>, ((Seq<u8>, Option<(Protocol, SocketAddr)>, Option<(Protocol, SocketAddr)>), T)>,
    route: (Seq<u8>, Option<(Protocol, SocketAddr)>, Option<(Protocol, SocketAddr)>),
    tunnel: T,
    target: TtpTargetView,
)
    requires
        spec_match_target(route, target),
    ensures
        ({
            let m2 = m.insert(route.0, (route, tunnel));
            &&& m2.dom().contains(target.remote_id)
            &&& spec_match_target(m2[target.remote_id].0, target)
            &&& m2[target.remote_id].1 == tunnel
        }),
{
}

} // verus!
