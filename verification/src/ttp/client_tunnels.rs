use vstd::prelude::*;
use crate::endpoint::{Protocol, SocketAddr};
use crate::error::{P2pError, P2pErrorCode, P2pResult};
use crate::sn::service::peer_table::KeyedTable;
use crate::ttp::tunnel_cache::{match_target, spec_match_target, TunnelInfo};
use crate::ttp::types::{TtpTarget, TtpTargetView};
use crate::types::{P2pId, Timestamp};

verus! {

/// How long an unused, unleased tunnel of a client that keeps no server on
/// it stays cached, in microseconds (5 minutes).
pub const DEFAULT_TTP_CLIENT_IDLE_TIMEOUT: Timestamp = 300_000_000;

/// A tunnel a client keeps, with whether a configured server is reached over
/// it, when it was last used and how many streams hold it.
pub struct ClientTunnelEntry<T> {
    pub tunnel: T,
    pub maintained: bool,
    pub last_used: Timestamp,
    pub leases: usize,
}

/// The views of a list of targets.
pub open spec fn spec_target_views(targets: Seq<TtpTarget>) -> Seq<TtpTargetView> {
    targets.map_values(|t: TtpTarget| t@)
}

/// A tunnel (by its route) reaches one of the configured servers.
pub open spec fn spec_maintained(
    k: (Seq<u8>, Option<(Protocol, SocketAddr)>, Option<(Protocol, SocketAddr)>),
    targets: Seq<TtpTargetView>,
) -> bool {
    exists|i: int| 0 <= i < targets.len() && spec_match_target(k, #[trigger] targets[i])
}

/// Time since `last_used` at `now`, nothing when `now` is earlier.
pub open spec fn spec_elapsed(now: Timestamp, last_used: Timestamp) -> int {
    if now >= last_used {
        now - last_used
    } else {
        0
    }
}

/// An available tunnel stays cached while it reaches a configured server,
/// is leased, or was used within the idle timeout.
pub open spec fn spec_stays<T>(e: ClientTunnelEntry<T>, maintained: bool, now: Timestamp, idle_timeout: Timestamp) -> bool {
    maintained || e.leases > 0 || spec_elapsed(now, e.last_used) < idle_timeout
}

/// An entry after a lease is taken at `now`; the count stops at its
/// largest value.
pub open spec fn spec_leased<T>(e: ClientTunnelEntry<T>, now: Timestamp) -> ClientTunnelEntry<T> {
    ClientTunnelEntry {
        leases: if e.leases < usize::MAX { (e.leases + 1) as usize } else { e.leases },
        last_used: now,
        ..e
    }
}

/// An entry after a lease is given back at `now`.
pub open spec fn spec_unleased<T>(e: ClientTunnelEntry<T>, now: Timestamp) -> ClientTunnelEntry<T> {
    ClientTunnelEntry {
        leases: if e.leases > 0 { (e.leases - 1) as usize } else { 0 },
        last_used: now,
        ..e
    }
}

/// Giving back a lease undoes taking it: the lease count is what it was.
pub proof fn lemma_lease_then_release<T>(e: ClientTunnelEntry<T>, t1: Timestamp, t2: Timestamp)
    requires
        e.leases < usize::MAX,
    ensures
        spec_unleased(spec_leased(e, t1), t2).leases == e.leases,
        spec_unleased(spec_leased(e, t1), t2).tunnel == e.tunnel,
        spec_unleased(spec_leased(e, t1), t2).maintained == e.maintained,
{
}

/// Whether `info`'s tunnel reaches one of `targets`.
pub fn matches_any(info: &TunnelInfo, targets: &[TtpTarget]) -> (r: bool)
    ensures
        r == spec_maintained(info@, spec_target_views(targets@)),
{
    let ghost views = spec_target_views(targets@);
    let mut i: usize = 0;
    while i < targets.len()
        invariant
            i <= targets@.len(),
            views == spec_target_views(targets@),
            forall|j: int| 0 <= j < i ==> !spec_match_target(info@, #[trigger] views[j]),
        decreases targets.len() - i,
    {
        if match_target(info, &targets[i]) {
            assert(spec_match_target(info@, views[i as int]));
            return true;
        }
        i = i + 1;
    }
    false
}

/// The tunnels a TTP client keeps, by route, each a `T`.
pub struct TtpClientTunnels<T> {
    tunnels: KeyedTable<TunnelInfo, ClientTunnelEntry<T>>,
    idle_timeout: Timestamp,
}

impl<T> View for TtpClientTunnels<T> {
    type V = Map<(Seq<u8>, Option<(Protocol, SocketAddr)>, Option<(Protocol, SocketAddr)>), ClientTunnelEntry<T>>;

    closed spec fn view(&self) -> Map<(Seq<u8>, Option<(Protocol, SocketAddr)>, Option<(Protocol, SocketAddr)>), ClientTunnelEntry<T>> {
        self.tunnels@
    }
}

/// The cache after the idle tunnels are released: of the tunnels flagged
/// available, by position, those that stay, each with its `maintained`
/// flag recomputed against the configured servers.
pub open spec fn spec_released<T>(
    c: TtpClientTunnels<T>,
    now: Timestamp,
    targets: Seq<TtpTargetView>,
    available: Seq<bool>,
) -> Map<(Seq<u8>, Option<(Protocol, SocketAddr)>, Option<(Protocol, SocketAddr)>), ClientTunnelEntry<T>> {
    Map::new(
        |k: (Seq<u8>, Option<(Protocol, SocketAddr)>, Option<(Protocol, SocketAddr)>)| exists|j: int|
            0 <= j < c.spec_len() && #[trigger] c.route_at(j) == k && available[j] && spec_stays(
                c@[k],
                spec_maintained(k, targets),
                now,
                c.idle_timeout(),
            ),
        |k: (Seq<u8>, Option<(Protocol, SocketAddr)>, Option<(Protocol, SocketAddr)>)| ClientTunnelEntry {
            maintained: spec_maintained(k, targets),
            ..c@[k]
        },
    )
}

impl<T> TtpClientTunnels<T> {
    pub closed spec fn wf(&self) -> bool {
        self.tunnels.wf()
    }

    pub closed spec fn spec_len(&self) -> nat {
        self.tunnels.spec_len()
    }

    pub closed spec fn idle_timeout(&self) -> Timestamp {
        self.idle_timeout
    }

    /// The route of the tunnel at position `i`.
    pub closed spec fn route_at(&self, i: int) -> (Seq<u8>, Option<(Protocol, SocketAddr)>, Option<(Protocol, SocketAddr)>) {
        self.tunnels.key_at(i)
    }

    /// Every position holds a route of the cache, and every route a position.
    pub proof fn lemma_routes(&self)
        requires
            self.wf(),
        ensures
            forall|i: int| 0 <= i < self.spec_len() ==> #[trigger] self@.dom().contains(self.route_at(i)),
            forall|k| #[trigger] self@.dom().contains(k) ==> exists|i: int| 0 <= i < self.spec_len() && self.route_at(i) == k,
            forall|i: int, j: int|
                0 <= i < self.spec_len() && 0 <= j < self.spec_len() && i != j ==> self.route_at(i) != self.route_at(j),
    {
        self.tunnels.lemma_positions();
        assert forall|k| #[trigger] self@.dom().contains(k) implies exists|i: int|
            0 <= i < self.spec_len() && self.route_at(i) == k by {
            let i = choose|i: int| 0 <= i < self.tunnels.spec_len() && self.tunnels.key_at(i) == k;
            assert(self.route_at(i) == k);
        }
    }

    pub fn new(idle_timeout: Timestamp) -> (r: Self)
        ensures
            r.wf(),
            r.idle_timeout() == idle_timeout,
            r@ == Map::<(Seq<u8>, Option<(Protocol, SocketAddr)>, Option<(Protocol, SocketAddr)>), ClientTunnelEntry<T>>::empty(),
    {
        TtpClientTunnels { tunnels: KeyedTable::new(), idle_timeout }
    }

    pub fn len(&self) -> (r: usize)
        ensures
            r == self.spec_len(),
    {
        self.tunnels.len()
    }

    /// The tunnel at position `i`, to be asked whether it is still available.
    pub fn tunnel_at(&self, i: usize) -> (r: &T)
        requires
            self.wf(),
            i < self.spec_len(),
        ensures
            *r == self@[self.route_at(i as int)].tunnel,
    {
        proof {
            self.tunnels.lemma_positions();
            assert(self.tunnels@.dom().contains(self.tunnels.key_at(i as int)));
        }
        &self.tunnels.value_ref_at(i).tunnel
    }

    /// Releases the idle tunnels: keeps, of the tunnels flagged available by
    /// position, those that reach a configured server, are leased, or were
    /// used within the idle timeout, and records for each whether it reaches
    /// a configured server.
    pub fn release_idle_tunnels(&mut self, now: Timestamp, targets: &[TtpTarget], available: &Vec<bool>)
        requires
            old(self).wf(),
            available@.len() == old(self).spec_len(),
        ensures
            final(self).wf(),
            final(self).idle_timeout() == old(self).idle_timeout(),
            final(self)@ == spec_released(*old(self), now, spec_target_views(targets@), available@),
    {
        let ghost old_t = self.tunnels;
        let ghost views = spec_target_views(targets@);
        proof {
            old_t.lemma_positions();
        }
        let n = self.tunnels.len();
        let mut keep: Vec<bool> = Vec::new();
        let mut i: usize = 0;
        while i < n
            invariant
                self.tunnels.wf(),
                self.idle_timeout == old(self).idle_timeout,
                old_t == old(self).tunnels,
                old_t.wf(),
                views == spec_target_views(targets@),
                n == old_t.spec_len(),
                n == self.tunnels.spec_len(),
                available@.len() == n,
                i <= n,
                keep@.len() == i,
                forall|j: int| 0 <= j < n ==> self.tunnels.key_at(j) == old_t.key_at(j),
                forall|j: int| i <= j < n ==> self.tunnels.value_at(j) == old_t.value_at(j),
                forall|j: int|
                    0 <= j < i ==> #[trigger] self.tunnels.value_at(j) == (ClientTunnelEntry {
                        maintained: spec_maintained(old_t.key_at(j), views),
                        ..old_t.value_at(j)
                    }),
                forall|j: int|
                    0 <= j < i ==> #[trigger] keep@[j] == (available@[j] && spec_stays(
                        old_t.value_at(j),
                        spec_maintained(old_t.key_at(j), views),
                        now,
                        self.idle_timeout,
                    )),
            decreases n - i,
        {
            let maintained = matches_any(self.tunnels.key_ref_at(i), targets);
            let idle_timeout = self.idle_timeout;
            let e = self.tunnels.value_mut_at(i);
            e.maintained = maintained;
            let elapsed = if now >= e.last_used {
                now - e.last_used
            } else {
                0
            };
            let stays = e.maintained || e.leases > 0 || elapsed < idle_timeout;
            keep.push(available[i] && stays);
            i = i + 1;
        }
        let ghost mid = self.tunnels;
        proof {
            mid.lemma_positions();
        }
        self.tunnels.retain_positions(&keep);
        proof {
            let target = spec_released(*old(self), now, views, available@);
            assert forall|k| #[trigger] self@.dom().contains(k) <==> target.dom().contains(k) by {
                if self@.dom().contains(k) {
                    assert(mid@.dom().contains(k));
                    let j = choose|j: int| 0 <= j < mid.spec_len() && mid.key_at(j) == k;
                    assert(mid@.dom().contains(mid.key_at(j)));
                    assert(keep@[j]);
                    assert(old_t.key_at(j) == k);
                    assert(old_t@.dom().contains(old_t.key_at(j)));
                    assert(old(self).route_at(j) == k);
                }
                if target.dom().contains(k) {
                    let j = choose|j: int|
                        0 <= j < old(self).spec_len() && #[trigger] old(self).route_at(j) == k && available@[j]
                            && spec_stays(old(self)@[k], spec_maintained(k, views), now, old(self).idle_timeout());
                    assert(old_t.key_at(j) == k);
                    assert(old_t@.dom().contains(old_t.key_at(j)));
                    assert(old_t@[k] == old_t.value_at(j));
                    assert(mid.key_at(j) == k);
                    assert(keep@[j]);
                    assert(mid@.dom().contains(mid.key_at(j)));
                }
            }
            assert forall|k| #[trigger] self@.dom().contains(k) implies self@[k] == target[k] by {
                assert(mid@.dom().contains(k));
                let j = choose|j: int| 0 <= j < mid.spec_len() && mid.key_at(j) == k;
                assert(mid@.dom().contains(mid.key_at(j)));
                assert(old_t.key_at(j) == k);
                assert(old_t@.dom().contains(old_t.key_at(j)));
            }
            assert(self@ =~= target);
        }
    }

    /// The first cached tunnel that serves `target`, by position, after the
    /// idle tunnels are released; it is marked used at `now`.
    pub fn find_existing_tunnel(
        &mut self,
        target: &TtpTarget,
        now: Timestamp,
        targets: &[TtpTarget],
        available: &Vec<bool>,
    ) -> (r: Option<usize>)
        requires
            old(self).wf(),
            available@.len() == old(self).spec_len(),
        ensures
            final(self).wf(),
            final(self).idle_timeout() == old(self).idle_timeout(),
            ({
                let released = spec_released(*old(self), now, spec_target_views(targets@), available@);
                match r {
                    None => final(self)@ == released && !(exists|k| #[trigger] released.dom().contains(k)
                        && spec_match_target(k, target@)),
                    Some(i) => {
                        let k = final(self).route_at(i as int);
                        &&& i < final(self).spec_len()
                        &&& released.dom().contains(k)
                        &&& spec_match_target(k, target@)
                        &&& final(self)@ == released.insert(k, ClientTunnelEntry { last_used: now, ..released[k] })
                    },
                }
            }),
    {
        self.release_idle_tunnels(now, targets, available);
        let ghost released = spec_released(*old(self), now, spec_target_views(targets@), available@);
        let n = self.tunnels.len();
        let mut i: usize = 0;
        while i < n
            invariant
                self.tunnels.wf(),
                released == spec_released(*old(self), now, spec_target_views(targets@), available@),
                self@ == released,
                self.idle_timeout == old(self).idle_timeout,
                n == self.tunnels.spec_len(),
                i <= n,
                forall|j: int| 0 <= j < i ==> !spec_match_target(#[trigger] self.tunnels.key_at(j), target@),
            decreases n - i,
        {
            if match_target(self.tunnels.key_ref_at(i), target) {
                let ghost before = self.tunnels;
                proof {
                    before.lemma_positions();
                    assert(before@.dom().contains(before.key_at(i as int)));
                }
                let e = self.tunnels.value_mut_at(i);
                e.last_used = now;
                proof {
                    let k = before.key_at(i as int);
                    assert(self.route_at(i as int) == k);
                    assert(before@[k] == before.value_at(i as int));
                    assert(self.tunnels@ == before@.insert(k, ClientTunnelEntry { last_used: now, ..before@[k] }));
                    assert(released.dom().contains(k));
                    assert(spec_match_target(k, target@));
                }
                return Some(i);
            }
            i = i + 1;
        }
        proof {
            self.tunnels.lemma_positions();
            assert forall|k| #[trigger] self.tunnels@.dom().contains(k) implies !spec_match_target(k, target@) by {
                let j = choose|j: int| 0 <= j < self.tunnels.spec_len() && self.tunnels.key_at(j) == k;
                assert(!spec_match_target(self.tunnels.key_at(j), target@));
            }
        }
        None
    }

    /// Remembers a new tunnel under its route after the idle tunnels are
    /// released: unleased, used at `now`, and maintained when it reaches a
    /// configured server.
    pub fn remember_tunnel_entry(
        &mut self,
        info: TunnelInfo,
        tunnel: T,
        now: Timestamp,
        targets: &[TtpTarget],
        available: &Vec<bool>,
    )
        requires
            old(self).wf(),
            available@.len() == old(self).spec_len(),
        ensures
            final(self).wf(),
            final(self).idle_timeout() == old(self).idle_timeout(),
            final(self)@ == spec_released(*old(self), now, spec_target_views(targets@), available@).insert(
                info@,
                ClientTunnelEntry {
                    tunnel,
                    maintained: spec_maintained(info@, spec_target_views(targets@)),
                    last_used: now,
                    leases: 0,
                },
            ),
    {
        let maintained = matches_any(&info, targets);
        self.release_idle_tunnels(now, targets, available);
        self.tunnels.insert(info, ClientTunnelEntry { tunnel, maintained, last_used: now, leases: 0 });
    }

    /// After the configured servers changed: every tunnel to `remote_id`
    /// records again whether it reaches one, and counts as used at `now`.
    pub fn refresh_maintained_cache_state(&mut self, remote_id: &P2pId, targets: &[TtpTarget], now: Timestamp)
        requires
            old(self).wf(),
        ensures
            final(self).wf(),
            final(self).idle_timeout() == old(self).idle_timeout(),
            final(self)@.dom() == old(self)@.dom(),
            forall|k| #[trigger] final(self)@.dom().contains(k) ==> final(self)@[k] == (if k.0 == remote_id@ {
                ClientTunnelEntry {
                    maintained: spec_maintained(k, spec_target_views(targets@)),
                    last_used: now,
                    ..old(self)@[k]
                }
            } else {
                old(self)@[k]
            }),
    {
        let ghost old_t = self.tunnels;
        let ghost views = spec_target_views(targets@);
        proof {
            old_t.lemma_positions();
        }
        let n = self.tunnels.len();
        let mut i: usize = 0;
        while i < n
            invariant
                self.tunnels.wf(),
                self.idle_timeout == old(self).idle_timeout,
                old_t == old(self).tunnels,
                views == spec_target_views(targets@),
                n == old_t.spec_len(),
                n == self.tunnels.spec_len(),
                i <= n,
                forall|j: int| 0 <= j < n ==> self.tunnels.key_at(j) == old_t.key_at(j),
                forall|j: int| i <= j < n ==> self.tunnels.value_at(j) == old_t.value_at(j),
                forall|j: int|
                    0 <= j < i ==> #[trigger] self.tunnels.value_at(j) == (if old_t.key_at(j).0 == remote_id@ {
                        ClientTunnelEntry {
                            maintained: spec_maintained(old_t.key_at(j), views),
                            last_used: now,
                            ..old_t.value_at(j)
                        }
                    } else {
                        old_t.value_at(j)
                    }),
            decreases n - i,
        {
            if self.tunnels.key_ref_at(i).remote_id.same_as(remote_id) {
                let maintained = matches_any(self.tunnels.key_ref_at(i), targets);
                let e = self.tunnels.value_mut_at(i);
                e.maintained = maintained;
                e.last_used = now;
            }
            i = i + 1;
        }
        proof {
            self.tunnels.lemma_positions();
            assert forall|k| #[trigger] self@.dom().contains(k) <==> old(self)@.dom().contains(k) by {
                if self@.dom().contains(k) {
                    let j = choose|j: int| 0 <= j < self.tunnels.spec_len() && self.tunnels.key_at(j) == k;
                    assert(old_t.key_at(j) == k);
                }
                if old(self)@.dom().contains(k) {
                    let j = choose|j: int| 0 <= j < old_t.spec_len() && old_t.key_at(j) == k;
                    assert(self.tunnels.key_at(j) == k);
                }
            }
            assert(self@.dom() =~= old(self)@.dom());
            assert forall|k| #[trigger] self@.dom().contains(k) implies self@[k] == (if k.0 == remote_id@ {
                ClientTunnelEntry { maintained: spec_maintained(k, views), last_used: now, ..old(self)@[k] }
            } else {
                old(self)@[k]
            }) by {
                let j = choose|j: int| 0 <= j < self.tunnels.spec_len() && self.tunnels.key_at(j) == k;
                assert(old_t.key_at(j) == k);
            }
        }
    }

    /// Takes a lease on the first cached tunnel that serves `target`, by
    /// position, marking it used at `now`; answers its route, or `None` when
    /// no cached tunnel serves the target. The lease count stops at its
    /// largest value.
    pub fn acquire_lease(&mut self, target: &TtpTarget, now: Timestamp) -> (r: Option<TunnelInfo>)
        requires
            old(self).wf(),
        ensures
            final(self).wf(),
            final(self).idle_timeout() == old(self).idle_timeout(),
            r is None ==> final(self)@ == old(self)@ && !(exists|k| #[trigger] old(self)@.dom().contains(k)
                && spec_match_target(k, target@)),
            r matches Some(info) ==> ({
                let k = info@;
                let e = old(self)@[k];
                &&& old(self)@.dom().contains(k)
                &&& spec_match_target(k, target@)
                &&& final(self)@ == old(self)@.insert(k, spec_leased(e, now))
            }),
    {
        let n = self.tunnels.len();
        let mut i: usize = 0;
        while i < n
            invariant
                self.tunnels.wf(),
                self.tunnels == old(self).tunnels,
                self.idle_timeout == old(self).idle_timeout,
                n == self.tunnels.spec_len(),
                i <= n,
                forall|j: int| 0 <= j < i ==> !spec_match_target(#[trigger] self.tunnels.key_at(j), target@),
            decreases n - i,
        {
            if match_target(self.tunnels.key_ref_at(i), target) {
                let key = self.tunnels.key_ref_at(i).duplicate();
                proof {
                    self.tunnels.lemma_positions();
                    assert(self.tunnels@.dom().contains(self.tunnels.key_at(i as int)));
                    assert(key@ == self.tunnels.key_at(i as int));
                }
                let e = self.tunnels.value_mut_at(i);
                if e.leases < usize::MAX {
                    e.leases = e.leases + 1;
                }
                e.last_used = now;
                return Some(key);
            }
            i = i + 1;
        }
        proof {
            self.tunnels.lemma_positions();
            assert forall|k| #[trigger] self.tunnels@.dom().contains(k) implies !spec_match_target(k, target@) by {
                let j = choose|j: int| 0 <= j < self.tunnels.spec_len() && self.tunnels.key_at(j) == k;
                assert(!spec_match_target(self.tunnels.key_at(j), target@));
            }
        }
        None
    }

    /// Gives back a lease on the tunnel at route `key`, marking it used at
    /// `now`; a tunnel no longer cached is left alone.
    pub fn release_lease(&mut self, key: &TunnelInfo, now: Timestamp)
        requires
            old(self).wf(),
        ensures
            final(self).wf(),
            final(self).idle_timeout() == old(self).idle_timeout(),
            old(self)@.dom().contains(key@) ==> final(self)@ == old(self)@.insert(
                key@,
                spec_unleased(old(self)@[key@], now),
            ),
            !old(self)@.dom().contains(key@) ==> final(self)@ == old(self)@,
    {
        match self.tunnels.index_of(key) {
            Some(i) => {
                let e = self.tunnels.value_mut_at(i);
                if e.leases > 0 {
                    e.leases = e.leases - 1;
                }
                e.last_used = now;
            },
            None => {},
        }
    }
}

/// Releasing idle tunnels never drops an available tunnel that is leased
/// or reaches a configured server.
pub proof fn lemma_busy_tunnels_stay<T>(
    c: TtpClientTunnels<T>,
    now: Timestamp,
    targets: Seq<TtpTargetView>,
    available: Seq<bool>,
    j: int,
)
    requires
        c.wf(),
        0 <= j < c.spec_len(),
        available[j],
        c@[c.route_at(j)].leases > 0 || spec_maintained(c.route_at(j), targets),
    ensures
        spec_released(c, now, targets, available).dom().contains(c.route_at(j)),
        spec_released(c, now, targets, available)[c.route_at(j)].tunnel == c@[c.route_at(j)].tunnel,
{
}

/// The one server the configured targets name: none when there are none;
/// configured targets that name different servers are refused.
pub fn configured_server_id(targets: &Vec<TtpTarget>) -> (r: P2pResult<Option<P2pId>>)
    ensures
        targets@.len() == 0 ==> r matches Ok(None),
        targets@.len() > 0 && (forall|i: int| 0 <= i < targets@.len() ==> (#[trigger] targets@[i]).remote_id@
            == targets@[0].remote_id@) ==> (r matches Ok(Some(id)) && id@ == targets@[0].remote_id@),
        targets@.len() > 0 && !(forall|i: int| 0 <= i < targets@.len() ==> (#[trigger] targets@[i]).remote_id@
            == targets@[0].remote_id@) ==> r == Err::<Option<P2pId>, P2pError>(
            P2pError { code: P2pErrorCode::InvalidParam },
        ),
{
    if targets.len() == 0 {
        return Ok(None);
    }
    let first = &targets[0];
    let mut i: usize = 0;
    while i < targets.len()
        invariant
            targets@.len() > 0,
            *first == targets@[0],
            i <= targets@.len(),
            forall|j: int| 0 <= j < i ==> (#[trigger] targets@[j]).remote_id@ == targets@[0].remote_id@,
        decreases targets.len() - i,
    {
        if !targets[i].remote_id.same_as(&first.remote_id) {
            return Err(P2pError::new(P2pErrorCode::InvalidParam));
        }
        i = i + 1;
    }
    Ok(Some(first.remote_id.duplicate()))
}

/// A configured target is the same server as `target`: same peer and same
/// remote endpoint.
pub open spec fn spec_same_server(a: TtpTargetView, b: TtpTargetView) -> bool {
    a.remote_id == b.remote_id && a.remote_ep.protocol == b.remote_ep.protocol && a.remote_ep.addr == b.remote_ep.addr
}

fn same_server(a: &TtpTarget, b: &TtpTarget) -> (r: bool)
    ensures
        r == spec_same_server(a@, b@),
{
    a.remote_id.same_as(&b.remote_id) && a.remote_ep.protocol == b.remote_ep.protocol && a.remote_ep.addr
        == b.remote_ep.addr
}

/// Adds `target` to the configured servers unless the same server is there.
pub fn add_server_target(targets: &mut Vec<TtpTarget>, target: TtpTarget)
    ensures
        (exists|i: int| 0 <= i < old(targets)@.len() && spec_same_server(#[trigger] old(targets)@[i]@, target@))
            ==> final(targets)@ == old(targets)@,
        !(exists|i: int| 0 <= i < old(targets)@.len() && spec_same_server(#[trigger] old(targets)@[i]@, target@))
            ==> final(targets)@ == old(targets)@.push(target),
{
    let mut i: usize = 0;
    while i < targets.len()
        invariant
            i <= targets@.len(),
            targets@ == old(targets)@,
            forall|j: int| 0 <= j < i ==> !spec_same_server(#[trigger] targets@[j]@, target@),
        decreases targets.len() - i,
    {
        if same_server(&targets[i], &target) {
            assert(spec_same_server(targets@[i as int]@, target@));
            return;
        }
        i = i + 1;
    }
    targets.push(target);
}

/// Removes every configured target that is the same server as `target`,
/// keeping the others in order.
pub fn remove_server_target(targets: &mut Vec<TtpTarget>, target: &TtpTarget)
    ensures
        final(targets)@ == old(targets)@.filter(|t: TtpTarget| !spec_same_server(t@, target@)),
{
    let ghost start = targets@;
    let mut rest: Vec<TtpTarget> = Vec::new();
    std::mem::swap(targets, &mut rest);
    let n = rest.len();
    let mut i: usize = 0;
    let ghost keep = |t: TtpTarget| !spec_same_server(t@, target@);
    while i < n
        invariant
            n == start.len(),
            i <= n,
            rest@ == start.subrange(i as int, n as int),
            targets@ == start.subrange(0, i as int).filter(keep),
            keep == (|t: TtpTarget| !spec_same_server(t@, target@)),
        decreases n - i,
    {
        let t = rest.remove(0);
        proof {
            reveal(Seq::filter);
        }
        assert(start.subrange(0, i + 1).drop_last() =~= start.subrange(0, i as int));
        assert(start.subrange(0, i + 1).last() == t);
        if !same_server(&t, target) {
            targets.push(t);
        }
        i = i + 1;
        assert(rest@ =~= start.subrange(i as int, n as int));
    }
    assert(start.subrange(0, n as int) =~= start);
}

} // verus!
