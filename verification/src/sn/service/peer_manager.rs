use vstd::prelude::*;
use crate::endpoint::{spec_is_static_wan, Endpoint, Protocol, SocketAddr};
use crate::error::{P2pError, P2pResult};
use crate::p2p_identity::{IdentityCertView, P2pIdentityCertRef};
use crate::sn::service::peer_table::PeerTable;
use crate::types::{copy_vec, P2pId, Timestamp, TunnelId};

verus! {

/// Ping timing of the peer manager, in milliseconds.
pub struct PeerManagerConfig {
    pub client_ping_interval_ms: u64,
    pub client_ping_timeout_ms: u64,
}

impl PeerManagerConfig {
    pub fn default_config() -> (r: PeerManagerConfig)
        ensures
            r.client_ping_interval_ms == 25000,
            r.client_ping_timeout_ms == 300_000,
    {
        PeerManagerConfig { client_ping_interval_ms: 25000, client_ping_timeout_ms: 300_000 }
    }
}

/// A peer found on the SN with the tunnel it is reachable through.
pub struct FoundPeer {
    pub desc: P2pIdentityCertRef,
    pub conn_id: TunnelId,
    pub is_wan: bool,
}

/// What the SN remembers of a peer.
pub struct CachedPeerInfo {
    pub desc: P2pIdentityCertRef,
    pub map_ports: Vec<(Protocol, u16)>,
    pub last_send_time: Timestamp,
    pub last_call_time: Timestamp,
    pub local_eps: Vec<Endpoint>,
    pub is_wan: bool,
}

pub struct CachedPeerInfoView {
    pub desc: IdentityCertView,
    pub map_ports: Seq<(Protocol, u16)>,
    pub last_send_time: Timestamp,
    pub last_call_time: Timestamp,
    pub local_eps: Seq<Endpoint>,
    pub is_wan: bool,
}

impl View for CachedPeerInfo {
    type V = CachedPeerInfoView;

    open spec fn view(&self) -> CachedPeerInfoView {
        CachedPeerInfoView {
            desc: self.desc@,
            map_ports: self.map_ports@,
            last_send_time: self.last_send_time,
            last_call_time: self.last_call_time,
            local_eps: self.local_eps@,
            is_wan: self.is_wan,
        }
    }
}

/// Some announced endpoint is WAN or port-mapped.
pub open spec fn spec_has_wan_endpoint(eps: Seq<Endpoint>) -> bool {
    exists|i: int| 0 <= i < eps.len() && spec_is_static_wan(#[trigger] eps[i])
}

/// Some announced endpoint has exactly the socket address `addr`.
pub open spec fn spec_contains_addr(eps: Seq<Endpoint>, addr: SocketAddr) -> bool {
    exists|i: int| 0 <= i < eps.len() && (#[trigger] eps[i]).addr == addr
}

/// A fresh cache entry for `desc`, first heard of at `send_time`.
pub open spec fn spec_new_cached(desc: IdentityCertView, send_time: Timestamp) -> CachedPeerInfoView {
    CachedPeerInfoView {
        desc,
        map_ports: Seq::empty(),
        last_send_time: send_time,
        last_call_time: 0,
        local_eps: Seq::empty(),
        is_wan: spec_has_wan_endpoint(desc.endpoints),
    }
}

/// `info` with its certificate replaced by `desc`.
pub open spec fn spec_with_desc(info: CachedPeerInfoView, desc: IdentityCertView) -> CachedPeerInfoView {
    CachedPeerInfoView { desc, is_wan: spec_has_wan_endpoint(desc.endpoints), ..info }
}

/// `info` with the port mappings and local endpoints a report carried.
pub open spec fn spec_with_report(
    info: CachedPeerInfoView,
    map_ports: Seq<(Protocol, u16)>,
    local_eps: Seq<Endpoint>,
) -> CachedPeerInfoView {
    CachedPeerInfoView { map_ports, local_eps, ..info }
}

/// What `add_peer_info` leaves under the peer's identifier.
pub open spec fn spec_added_peer_info(
    cache: Map<Seq<u8>, CachedPeerInfoView>,
    id: Seq<u8>,
    desc: IdentityCertView,
    now: Timestamp,
) -> CachedPeerInfoView {
    if cache.dom().contains(id) {
        spec_with_desc(cache[id], desc)
    } else {
        spec_new_cached(desc, now)
    }
}

/// The cache after `add_or_update_peer` with the given report.
pub open spec fn spec_add_or_update(
    cache: Map<Seq<u8>, CachedPeerInfoView>,
    id: Seq<u8>,
    device: Option<IdentityCertView>,
    map_ports: Seq<(Protocol, u16)>,
    local_eps: Seq<Endpoint>,
    now: Timestamp,
) -> Map<Seq<u8>, CachedPeerInfoView> {
    if cache.dom().contains(id) {
        let info = match device {
            Some(d) => spec_with_desc(cache[id], d),
            None => cache[id],
        };
        cache.insert(id, spec_with_report(info, map_ports, local_eps))
    } else {
        match device {
            None => cache,
            Some(d) => cache.insert(id, spec_with_report(spec_new_cached(d, now), map_ports, local_eps)),
        }
    }
}

/// Whether some endpoint announced in `desc` is WAN or port-mapped.
pub fn has_wan_endpoint(desc: &P2pIdentityCertRef) -> (r: bool)
    ensures
        r == spec_has_wan_endpoint(desc@.endpoints),
{
    let eps = desc.endpoints_ref();
    let mut i: usize = 0;
    while i < eps.len()
        invariant
            eps@ == desc@.endpoints,
            i <= eps.len(),
            forall|j: int| 0 <= j < i ==> !spec_is_static_wan(#[trigger] eps@[j]),
        decreases eps.len() - i,
    {
        if eps[i].is_static_wan() {
            return true;
        }
        i = i + 1;
    }
    false
}

/// Whether `dev` announces an endpoint on exactly `addr`.
pub fn contain_addr(dev: &P2pIdentityCertRef, addr: &SocketAddr) -> (r: bool)
    ensures
        r == spec_contains_addr(dev@.endpoints, *addr),
{
    let eps = dev.endpoints_ref();
    let mut i: usize = 0;
    while i < eps.len()
        invariant
            eps@ == dev@.endpoints,
            i <= eps.len(),
            forall|j: int| 0 <= j < i ==> (#[trigger] eps@[j]).addr != *addr,
        decreases eps.len() - i,
    {
        if eps[i].addr() == *addr {
            return true;
        }
        i = i + 1;
    }
    false
}

impl CachedPeerInfo {
    pub fn new(desc: P2pIdentityCertRef, send_time: Timestamp) -> (r: CachedPeerInfo)
        ensures
            r@ == spec_new_cached(desc@, send_time),
    {
        let is_wan = has_wan_endpoint(&desc);
        let r = CachedPeerInfo {
            is_wan,
            desc,
            map_ports: Vec::new(),
            last_send_time: send_time,
            last_call_time: 0,
            local_eps: Vec::new(),
        };
        assert(r@.map_ports =~= Seq::<(Protocol, u16)>::empty());
        assert(r@.local_eps =~= Seq::<Endpoint>::empty());
        r
    }

    /// Takes the peer's newer certificate; never fails.
    pub fn update_desc(&mut self, desc: &P2pIdentityCertRef) -> (r: P2pResult<bool>)
        ensures
            r == Ok::<bool, P2pError>(true),
            final(self)@ == spec_with_desc(old(self)@, desc@),
    {
        self.desc = desc.duplicate();
        self.is_wan = has_wan_endpoint(desc);
        Ok(true)
    }

    pub fn update_local_eps(&mut self, local_ips: &Vec<Endpoint>)
        ensures
            final(self)@ == (CachedPeerInfoView { local_eps: local_ips@, ..old(self)@ }),
    {
        self.local_eps = copy_vec(local_ips);
    }

    /// A copy of this entry.
    pub fn duplicate(&self) -> (r: CachedPeerInfo)
        ensures
            r@ == self@,
    {
        CachedPeerInfo {
            desc: self.desc.duplicate(),
            map_ports: copy_vec(&self.map_ports),
            last_send_time: self.last_send_time,
            last_call_time: self.last_call_time,
            local_eps: copy_vec(&self.local_eps),
            is_wan: self.is_wan,
        }
    }
}

/// Why a peer is looked up: a call from it at some time, or anything else.
pub enum FindPeerReason {
    CallFrom(Timestamp),
    Other,
}

/// Peers the SN keeps, split into those with a live tunnel and those that
/// only knocked.
pub struct Peers {
    active_peers: PeerTable<CachedPeerInfo>,
    knock_peers: PeerTable<CachedPeerInfo>,
}

/// The entry after a lookup for `reason`: a call records its time when it is
/// later than the last one recorded.
pub open spec fn spec_found(info: CachedPeerInfoView, reason: FindPeerReason) -> CachedPeerInfoView {
    match reason {
        FindPeerReason::CallFrom(t) => if t > info.last_call_time {
            CachedPeerInfoView { last_call_time: t, ..info }
        } else {
            info
        },
        FindPeerReason::Other => info,
    }
}

impl Peers {
    pub closed spec fn wf(&self) -> bool {
        self.active_peers.wf() && self.knock_peers.wf()
    }

    pub closed spec fn active(&self) -> Map<Seq<u8>, CachedPeerInfoView> {
        self.active_peers@.map_values(|c: CachedPeerInfo| c@)
    }

    pub closed spec fn knocking(&self) -> Map<Seq<u8>, CachedPeerInfoView> {
        self.knock_peers@.map_values(|c: CachedPeerInfo| c@)
    }

    pub fn new() -> (r: Peers)
        ensures
            r.wf(),
            r.active() == Map::<Seq<u8>, CachedPeerInfoView>::empty(),
            r.knocking() == Map::<Seq<u8>, CachedPeerInfoView>::empty(),
    {
        let r = Peers { active_peers: PeerTable::new(), knock_peers: PeerTable::new() };
        assert(r.active() =~= Map::<Seq<u8>, CachedPeerInfoView>::empty());
        assert(r.knocking() =~= Map::<Seq<u8>, CachedPeerInfoView>::empty());
        r
    }

    /// Looks `peerid` up among the active peers, then among the knocking
    /// ones; the entry found is updated for `reason` and a copy of it is
    /// returned.
    pub fn find_peer(&mut self, peerid: &P2pId, reason: FindPeerReason) -> (r: Option<CachedPeerInfo>)
        requires
            old(self).wf(),
        ensures
            final(self).wf(),
            old(self).active().dom().contains(peerid@) ==> {
                &&& final(self).active() == old(self).active().insert(
                    peerid@,
                    spec_found(old(self).active()[peerid@], reason),
                )
                &&& final(self).knocking() == old(self).knocking()
                &&& r matches Some(c) && c@ == spec_found(old(self).active()[peerid@], reason)
            },
            !old(self).active().dom().contains(peerid@) && old(self).knocking().dom().contains(
                peerid@,
            ) ==> {
                &&& final(self).knocking() == old(self).knocking().insert(
                    peerid@,
                    spec_found(old(self).knocking()[peerid@], reason),
                )
                &&& final(self).active() == old(self).active()
                &&& r matches Some(c) && c@ == spec_found(old(self).knocking()[peerid@], reason)
            },
            !old(self).active().dom().contains(peerid@) && !old(self).knocking().dom().contains(
                peerid@,
            ) ==> r is None && final(self).active() == old(self).active() && final(self).knocking()
                == old(self).knocking(),
    {
        match self.active_peers.index_of(peerid) {
            Some(i) => {
                let found = Self::found_in(&mut self.active_peers, i, reason);
                Some(found)
            },
            None => match self.knock_peers.index_of(peerid) {
                Some(i) => {
                    let found = Self::found_in(&mut self.knock_peers, i, reason);
                    Some(found)
                },
                None => None,
            },
        }
    }

    fn found_in(table: &mut PeerTable<CachedPeerInfo>, i: usize, reason: FindPeerReason) -> (r:
        CachedPeerInfo)
        requires
            old(table).wf(),
            i < old(table).spec_len(),
        ensures
            final(table).wf(),
            r@ == spec_found(old(table).value_at(i as int)@, reason),
            final(table)@.map_values(|c: CachedPeerInfo| c@) == old(table)@.map_values(
                |c: CachedPeerInfo| c@,
            ).insert(old(table).key_at(i as int), r@),
            old(table)@[old(table).key_at(i as int)] == old(table).value_at(i as int),
    {
        proof {
            table.lemma_positions();
            assert(table@.dom().contains(table.key_at(i as int)));
        }
        let cur = table.value_ref_at(i).duplicate();
        let mut next = cur;
        match reason {
            FindPeerReason::CallFrom(t) => {
                if t > next.last_call_time {
                    next.last_call_time = t;
                }
            },
            FindPeerReason::Other => {},
        }
        let out = next.duplicate();
        let ghost old_map = table@;
        let ghost k = table.key_at(i as int);
        table.set_value_at(i, next);
        proof {
            let f = |c: CachedPeerInfo| c@;
            assert(table@.map_values(f) =~= old_map.map_values(f).insert(k, out@));
        }
        out
    }
}

/// The SN's cache of peers it has heard from, by identifier.
pub struct PeerManager {
    config: PeerManagerConfig,
    device_conn_map: PeerTable<CachedPeerInfo>,
}

impl View for PeerManager {
    type V = Map<Seq<u8>, CachedPeerInfoView>;

    closed spec fn view(&self) -> Map<Seq<u8>, CachedPeerInfoView> {
        self.device_conn_map@.map_values(|c: CachedPeerInfo| c@)
    }
}

impl PeerManager {
    pub closed spec fn wf(&self) -> bool {
        self.device_conn_map.wf()
    }

    pub fn new() -> (r: PeerManager)
        ensures
            r.wf(),
            r@ == Map::<Seq<u8>, CachedPeerInfoView>::empty(),
    {
        let r = PeerManager {
            config: PeerManagerConfig::default_config(),
            device_conn_map: PeerTable::new(),
        };
        assert(r@ =~= Map::<Seq<u8>, CachedPeerInfoView>::empty());
        r
    }

    /// Records `peer_desc` for `remote_id` at time `now`: a known peer takes
    /// the new certificate, an unknown one gets a fresh entry.
    pub fn add_peer_info(&mut self, remote_id: P2pId, peer_desc: P2pIdentityCertRef, now: Timestamp)
        requires
            old(self).wf(),
        ensures
            final(self).wf(),
            final(self)@ == old(self)@.insert(
                remote_id@,
                spec_added_peer_info(old(self)@, remote_id@, peer_desc@, now),
            ),
    {
        let ghost f = |c: CachedPeerInfo| c@;
        let ghost old_map = self.device_conn_map@;
        proof {
            self.device_conn_map.lemma_positions();
        }
        match self.device_conn_map.index_of(&remote_id) {
            None => {
                let ghost k = remote_id@;
                let info = CachedPeerInfo::new(peer_desc, now);
                let ghost v = info@;
                self.device_conn_map.insert(remote_id, info);
                assert(self@ =~= old_map.map_values(f).insert(k, v));
            },
            Some(i) => {
                let mut info = self.device_conn_map.value_ref_at(i).duplicate();
                let _ = info.update_desc(&peer_desc);
                let ghost v = info@;
                self.device_conn_map.set_value_at(i, info);
                assert(self@ =~= old_map.map_values(f).insert(remote_id@, v));
            },
        }
    }

    pub fn remove_peer(&mut self, remote_id: P2pId)
        requires
            old(self).wf(),
        ensures
            final(self).wf(),
            final(self)@ == old(self)@.remove(remote_id@),
    {
        let ghost f = |c: CachedPeerInfo| c@;
        let ghost old_map = self.device_conn_map@;
        let _ = self.device_conn_map.remove(&remote_id);
        assert(self@ =~= old_map.map_values(f).remove(remote_id@));
    }

    /// Applies a peer's report at time `now`: a known peer takes the
    /// certificate when one came, and the port mappings and local
    /// endpoints; an unknown peer is added only when a certificate came.
    pub fn add_or_update_peer(
        &mut self,
        device_id: &P2pId,
        device: &Option<P2pIdentityCertRef>,
        map_ports: Vec<(Protocol, u16)>,
        local_eps: &Vec<Endpoint>,
        now: Timestamp,
    )
        requires
            old(self).wf(),
        ensures
            final(self).wf(),
            final(self)@ == spec_add_or_update(
                old(self)@,
                device_id@,
                match device {
                    Some(d) => Some(d@),
                    None => None,
                },
                map_ports@,
                local_eps@,
                now,
            ),
    {
        let ghost f = |c: CachedPeerInfo| c@;
        let ghost old_map = self.device_conn_map@;
        proof {
            self.device_conn_map.lemma_positions();
        }
        match self.device_conn_map.index_of(device_id) {
            Some(i) => {
                let mut peer = self.device_conn_map.value_ref_at(i).duplicate();
                match device {
                    Some(d) => {
                        let _ = peer.update_desc(d);
                    },
                    None => {},
                }
                peer.map_ports = map_ports;
                peer.update_local_eps(local_eps);
                let ghost v = peer@;
                self.device_conn_map.set_value_at(i, peer);
                assert(self@ =~= old_map.map_values(f).insert(device_id@, v));
            },
            None => {
                match device {
                    None => {},
                    Some(d) => {
                        let mut peer = CachedPeerInfo::new(d.duplicate(), now);
                        peer.map_ports = map_ports;
                        peer.update_local_eps(local_eps);
                        let ghost v = peer@;
                        self.device_conn_map.insert(device_id.duplicate(), peer);
                        assert(self@ =~= old_map.map_values(f).insert(device_id@, v));
                    },
                }
            },
        }
    }

    /// A copy of what is cached for `id`, if anything.
    pub fn find_peer(&self, id: &P2pId) -> (r: Option<CachedPeerInfo>)
        requires
            self.wf(),
        ensures
            match r {
                Some(c) => self@.dom().contains(id@) && c@ == self@[id@],
                None => !self@.dom().contains(id@),
            },
    {
        match self.device_conn_map.get_ref(id) {
            Some(c) => Some(c.duplicate()),
            None => None,
        }
    }
}

/// After `add_peer_info`, the peer is cached under its identifier with the
/// certificate just given, marked WAN exactly when that certificate announces
/// a WAN or port-mapped endpoint; a known peer keeps its port mappings, local
/// endpoints and times.
pub proof fn lemma_add_peer_info_records_desc(
    cache: Map<Seq<u8>, CachedPeerInfoView>,
    id: Seq<u8>,
    desc: IdentityCertView,
    now: Timestamp,
)
    ensures
        ({
            let m = cache.insert(id, spec_added_peer_info(cache, id, desc, now));
            &&& m.dom().contains(id)
            &&& m[id].desc == desc
            &&& m[id].is_wan == spec_has_wan_endpoint(desc.endpoints)
            &&& cache.dom().contains(id) ==> m[id].map_ports == cache[id].map_ports
                && m[id].local_eps == cache[id].local_eps && m[id].last_send_time
                == cache[id].last_send_time && m[id].last_call_time == cache[id].last_call_time
            &&& forall|k: Seq<u8>| k != id ==> #[trigger] m.dom().contains(k) == cache.dom().contains(k)
        }),
{
}

/// A report without a certificate never adds an unknown peer, and for a known
/// peer it keeps the certificate and the WAN mark while taking the reported
/// port mappings and local endpoints.
pub proof fn lemma_report_without_cert(
    cache: Map<Seq<u8>, CachedPeerInfoView>,
    id: Seq<u8>,
    map_ports: Seq<(Protocol, u16)>,
    local_eps: Seq<Endpoint>,
    now: Timestamp,
)
    ensures
        !cache.dom().contains(id) ==> spec_add_or_update(cache, id, None, map_ports, local_eps, now)
            == cache,
        cache.dom().contains(id) ==> ({
            let m = spec_add_or_update(cache, id, None, map_ports, local_eps, now);
            &&& m.dom() == cache.dom()
            &&& m[id].desc == cache[id].desc
            &&& m[id].is_wan == cache[id].is_wan
            &&& m[id].map_ports == map_ports
            &&& m[id].local_eps == local_eps
        }),
{
    if cache.dom().contains(id) {
        assert(cache.insert(id, spec_with_report(cache[id], map_ports, local_eps)).dom() =~= cache.dom());
    }
}

/// Once a peer is removed, nothing is cached under its identifier, whatever
/// was added before.
pub proof fn lemma_remove_after_add(
    cache: Map<Seq<u8>, CachedPeerInfoView>,
    id: Seq<u8>,
    desc: IdentityCertView,
    now: Timestamp,
)
    ensures
        !cache.insert(id, spec_added_peer_info(cache, id, desc, now)).remove(id).dom().contains(id),
        cache.insert(id, spec_added_peer_info(cache, id, desc, now)).remove(id) == cache.remove(id),
{
    assert(cache.insert(id, spec_added_peer_info(cache, id, desc, now)).remove(id) =~= cache.remove(id));
}

} // verus!
