use vstd::prelude::*;
use crate::error::{P2pError, P2pErrorCode, P2pResult};
use crate::sn::protocol::sn::{
    spec_same_request_view, SnTunnelRendezvous, SnTunnelRendezvousResp, SnTunnelRendezvousRespView,
    SnTunnelRendezvousView, SN_TUNNEL_RENDEZVOUS_RESULT_FAILED,
};
use crate::sn::service::peer_table::{spec_lists_key, KeyedTable, TableKey};
use crate::types::{P2pId, Sequence, Timestamp, TunnelId};

verus! {

/// Most rendezvous attempts alive at once.
pub const MAX_LIVE_ATTEMPTS: usize = 256;

/// Most attempts alive at once between one initiator and one target.
pub const MAX_LIVE_ATTEMPTS_PER_PAIR: usize = 8;

/// Most requests one initiator may start within a rate window.
pub const MAX_REQUESTS_PER_INITIATOR_WINDOW: usize = 32;

/// Most duplicate requests that may wait on one attempt.
pub const MAX_INFLIGHT_WAITERS_PER_ATTEMPT: usize = 8;

/// Length of the rate window, in microseconds (60 seconds).
pub const RATE_WINDOW: Timestamp = 60_000_000;

/// How long an attempt lives, in microseconds (30 seconds).
pub const MAX_REQUEST_LIFETIME: Timestamp = 30_000_000;

/// An attempt: the initiator and the request's sequence and tunnel id.
pub struct RendezvousKey {
    pub initiator: P2pId,
    pub seq: Sequence,
    pub tunnel_id: TunnelId,
}

impl View for RendezvousKey {
    type V = (Seq<u8>, u32, u32);

    open spec fn view(&self) -> (Seq<u8>, u32, u32) {
        (self.initiator@, self.seq.0, self.tunnel_id.0)
    }
}

impl TableKey for RendezvousKey {
    fn same_key(&self, other: &Self) -> (r: bool) {
        self.seq.0 == other.seq.0 && self.tunnel_id.0 == other.tunnel_id.0
            && self.initiator.same_as(&other.initiator)
    }

    fn copy_key(&self) -> (r: Self) {
        RendezvousKey { initiator: self.initiator.duplicate(), seq: self.seq, tunnel_id: self.tunnel_id }
    }
}

pub open spec fn spec_key(initiator: Seq<u8>, request: SnTunnelRendezvousView) -> (Seq<u8>, u32, u32) {
    (initiator, request.seq.0, request.tunnel_id.0)
}

impl RendezvousKey {
    pub fn new(initiator: &P2pId, request: &SnTunnelRendezvous) -> (r: RendezvousKey)
        ensures
            r@ == spec_key(initiator@, request@),
    {
        RendezvousKey { initiator: initiator.duplicate(), seq: request.seq, tunnel_id: request.tunnel_id }
    }
}

/// One attempt: the request that started it, until when it lives, the
/// response once there is one, and how many duplicate requests wait on it.
pub struct RendezvousEntry {
    pub request: SnTunnelRendezvous,
    pub expires_at: Timestamp,
    pub response: Option<SnTunnelRendezvousResp>,
    pub waiters: usize,
}

pub struct RendezvousEntryView {
    pub request: SnTunnelRendezvousView,
    pub expires_at: Timestamp,
    pub response: Option<SnTunnelRendezvousRespView>,
    pub waiters: nat,
}

impl View for RendezvousEntry {
    type V = RendezvousEntryView;

    open spec fn view(&self) -> RendezvousEntryView {
        RendezvousEntryView {
            request: self.request@,
            expires_at: self.expires_at,
            response: match self.response {
                Some(r) => Some(r@),
                None => None,
            },
            waiters: self.waiters as nat,
        }
    }
}

/// How a rendezvous request is to be handled.
pub enum RendezvousBegin {
    /// A new attempt: the SN runs it.
    New,
    /// The attempt was already answered: this answer is repeated.
    Cached(SnTunnelRendezvousResp),
    /// The attempt is running: the request waits for its answer.
    InFlight,
}

pub enum RendezvousBeginView {
    New,
    Cached(SnTunnelRendezvousRespView),
    InFlight,
}

pub open spec fn spec_begin_view(b: RendezvousBegin) -> RendezvousBeginView {
    match b {
        RendezvousBegin::New => RendezvousBeginView::New,
        RendezvousBegin::Cached(r) => RendezvousBeginView::Cached(r@),
        RendezvousBegin::InFlight => RendezvousBeginView::InFlight,
    }
}

pub struct RendezvousStateView {
    pub entries: Map<(Seq<u8>, u32, u32), RendezvousEntryView>,
    pub rate_windows: Map<Seq<u8>, Seq<Timestamp>>,
}

/// `t + w`, saturating at `u64::MAX`.
pub open spec fn spec_sat_add(t: u64, w: u64) -> u64 {
    if t + w > u64::MAX {
        u64::MAX
    } else {
        (t + w) as u64
    }
}

/// A request time has left the rate window at `now`.
pub open spec fn spec_left_window(t: Timestamp, now: Timestamp) -> bool {
    spec_sat_add(t, RATE_WINDOW) < now
}

/// A rate window with the times that left it dropped from its front.
pub open spec fn spec_trim_window(ts: Seq<Timestamp>, now: Timestamp) -> Seq<Timestamp>
    decreases ts.len(),
{
    if ts.len() > 0 && spec_left_window(ts[0], now) {
        spec_trim_window(ts.drop_first(), now)
    } else {
        ts
    }
}

/// The state at `now` with expired attempts dropped and every rate window
/// trimmed, empty windows dropped.
pub open spec fn spec_cleanup(v: RendezvousStateView, now: Timestamp) -> RendezvousStateView {
    RendezvousStateView {
        entries: Map::new(
            |k: (Seq<u8>, u32, u32)| v.entries.dom().contains(k) && now < v.entries[k].expires_at,
            |k: (Seq<u8>, u32, u32)| v.entries[k],
        ),
        rate_windows: Map::new(
            |p: Seq<u8>| v.rate_windows.dom().contains(p) && spec_trim_window(v.rate_windows[p], now).len() > 0,
            |p: Seq<u8>| spec_trim_window(v.rate_windows[p], now),
        ),
    }
}

/// Attempts alive between `initiator` and `to`.
pub open spec fn spec_pair_count(
    entries: Map<(Seq<u8>, u32, u32), RendezvousEntryView>,
    initiator: Seq<u8>,
    to: Seq<u8>,
) -> nat {
    entries.dom().filter(spec_pair_pred(entries, initiator, to)).len()
}

/// An attempt of `initiator` towards `to`.
pub open spec fn spec_pair_pred(
    entries: Map<(Seq<u8>, u32, u32), RendezvousEntryView>,
    initiator: Seq<u8>,
    to: Seq<u8>,
) -> spec_fn((Seq<u8>, u32, u32)) -> bool {
    |k: (Seq<u8>, u32, u32)| k.0 == initiator && entries[k].request.to_peer_id == to
}

/// What `begin` does once expired state is cleaned up: a known attempt
/// answers from its cache or lets the request wait, unless the request
/// conflicts or too many wait; a new attempt is admitted only within the
/// live-attempt, per-pair and rate limits.
pub open spec fn spec_begin(
    v: RendezvousStateView,
    initiator: Seq<u8>,
    request: SnTunnelRendezvousView,
    now: Timestamp,
) -> (RendezvousStateView, P2pResult<RendezvousBeginView>) {
    let key = spec_key(initiator, request);
    if v.entries.dom().contains(key) {
        let e = v.entries[key];
        if !spec_same_request_view(e.request, request) {
            (v, Err(P2pError { code: P2pErrorCode::Conflict }))
        } else if e.response is Some {
            (v, Ok(RendezvousBeginView::Cached(e.response.unwrap())))
        } else if e.waiters >= MAX_INFLIGHT_WAITERS_PER_ATTEMPT {
            (v, Err(P2pError { code: P2pErrorCode::OutOfLimit }))
        } else {
            (
                RendezvousStateView {
                    entries: v.entries.insert(key, RendezvousEntryView { waiters: e.waiters + 1, ..e }),
                    ..v
                },
                Ok(RendezvousBeginView::InFlight),
            )
        }
    } else if v.entries.dom().len() >= MAX_LIVE_ATTEMPTS || spec_pair_count(
        v.entries,
        initiator,
        request.to_peer_id,
    ) >= MAX_LIVE_ATTEMPTS_PER_PAIR {
        (v, Err(P2pError { code: P2pErrorCode::OutOfLimit }))
    } else {
        let w = spec_trim_window(
            if v.rate_windows.dom().contains(initiator) {
                v.rate_windows[initiator]
            } else {
                Seq::empty()
            },
            now,
        );
        if w.len() >= MAX_REQUESTS_PER_INITIATOR_WINDOW {
            (
                RendezvousStateView { rate_windows: v.rate_windows.insert(initiator, w), ..v },
                Err(P2pError { code: P2pErrorCode::OutOfLimit }),
            )
        } else {
            (
                RendezvousStateView {
                    entries: v.entries.insert(
                        key,
                        RendezvousEntryView {
                            request,
                            expires_at: spec_sat_add(now, MAX_REQUEST_LIFETIME),
                            response: None,
                            waiters: 0,
                        },
                    ),
                    rate_windows: v.rate_windows.insert(initiator, w.push(now)),
                },
                Ok(RendezvousBeginView::New),
            )
        }
    }
}

/// What `cache_response` does: an attempt that expired is dropped; a
/// response to an unknown or conflicting attempt, or one that does not
/// validate, is refused; otherwise the waiting requests are answered and
/// the attempt caches the answer later duplicates get (a failure when the
/// request asked for predicted endpoints).
pub open spec fn spec_cache_response(
    v: RendezvousStateView,
    initiator: Seq<u8>,
    request: SnTunnelRendezvous,
    response: SnTunnelRendezvousResp,
    now: Timestamp,
) -> (RendezvousStateView, P2pResult<()>) {
    let key = spec_key(initiator, request@);
    if v.entries.dom().contains(key) && now >= v.entries[key].expires_at {
        (
            RendezvousStateView { entries: v.entries.remove(key), ..v },
            Err(P2pError { code: P2pErrorCode::Expired }),
        )
    } else if !v.entries.dom().contains(key) {
        (v, Err(P2pError { code: P2pErrorCode::NotFound }))
    } else if !spec_same_request_view(v.entries[key].request, request@) {
        (v, Err(P2pError { code: P2pErrorCode::Conflict }))
    } else if response.spec_validate(request.seq, request.need_predict_endpoint) is Err {
        (v, response.spec_validate(request.seq, request.need_predict_endpoint))
    } else {
        let cached = if request.need_predict_endpoint {
            SnTunnelRendezvousRespView {
                seq: request.seq,
                result: SN_TUNNEL_RENDEZVOUS_RESULT_FAILED,
                predicted_endpoint_array: Seq::empty(),
            }
        } else {
            response@
        };
        (
            RendezvousStateView {
                entries: v.entries.insert(
                    key,
                    RendezvousEntryView { response: Some(cached), waiters: 0, ..v.entries[key] },
                ),
                ..v
            },
            Ok(()),
        )
    }
}

/// What `fail_unanswered` does: an attempt of this very request that has
/// no answer yet is dropped (and this is reported); anything else stays.
pub open spec fn spec_fail_unanswered(
    v: RendezvousStateView,
    initiator: Seq<u8>,
    request: SnTunnelRendezvousView,
) -> (RendezvousStateView, bool) {
    let key = spec_key(initiator, request);
    if v.entries.dom().contains(key) && spec_same_request_view(v.entries[key].request, request)
        && v.entries[key].response is None {
        (RendezvousStateView { entries: v.entries.remove(key), ..v }, true)
    } else {
        (v, false)
    }
}

/// Once an attempt is answered, a repeat of its request while the attempt
/// lives is answered from the cache: with the response itself, or with a
/// failure when the request asked for predicted endpoints (so that stale
/// predictions are never replayed).
pub proof fn lemma_answer_is_replayed(
    v: RendezvousStateView,
    initiator: Seq<u8>,
    request: SnTunnelRendezvous,
    response: SnTunnelRendezvousResp,
    now: Timestamp,
    later: Timestamp,
)
    requires
        spec_cache_response(v, initiator, request, response, now).1 is Ok,
        later < v.entries[spec_key(initiator, request@)].expires_at,
    ensures
        spec_begin(
            spec_cleanup(spec_cache_response(v, initiator, request, response, now).0, later),
            initiator,
            request@,
            later,
        ).1 == Ok::<RendezvousBeginView, P2pError>(
            RendezvousBeginView::Cached(
                if request.need_predict_endpoint {
                    SnTunnelRendezvousRespView {
                        seq: request.seq,
                        result: SN_TUNNEL_RENDEZVOUS_RESULT_FAILED,
                        predicted_endpoint_array: Seq::empty(),
                    }
                } else {
                    response@
                },
            ),
        ),
{
    let key = spec_key(initiator, request@);
    let after = spec_cache_response(v, initiator, request, response, now).0;
    let cleaned = spec_cleanup(after, later);
    assert(after.entries.dom().contains(key));
    assert(cleaned.entries.dom().contains(key));
    assert(cleaned.entries[key] == after.entries[key]);
}

/// The admission limits every state of the service keeps.
pub open spec fn spec_within_limits(v: RendezvousStateView) -> bool {
    &&& v.entries.dom().finite()
    &&& v.entries.dom().len() <= MAX_LIVE_ATTEMPTS
    &&& forall|k: (Seq<u8>, u32, u32)| #[trigger] v.entries.dom().contains(k) ==> v.entries[k].waiters
        <= MAX_INFLIGHT_WAITERS_PER_ATTEMPT
    &&& forall|p: Seq<u8>| #[trigger] v.rate_windows.dom().contains(p) ==> v.rate_windows[p].len()
        <= MAX_REQUESTS_PER_INITIATOR_WINDOW
    &&& forall|i: Seq<u8>, t: Seq<u8>| #[trigger] spec_pair_count(v.entries, i, t) <= MAX_LIVE_ATTEMPTS_PER_PAIR
}

/// Dropping attempts never raises the number alive between a pair.
proof fn lemma_pair_count_sub(
    a: Map<(Seq<u8>, u32, u32), RendezvousEntryView>,
    b: Map<(Seq<u8>, u32, u32), RendezvousEntryView>,
    i: Seq<u8>,
    t: Seq<u8>,
)
    requires
        b.dom().finite(),
        a.dom().subset_of(b.dom()),
        forall|k: (Seq<u8>, u32, u32)| #[trigger] a.dom().contains(k) ==> a[k].request.to_peer_id
            == b[k].request.to_peer_id,
    ensures
        spec_pair_count(a, i, t) <= spec_pair_count(b, i, t),
{
    let fa = a.dom().filter(spec_pair_pred(a, i, t));
    let fb = b.dom().filter(spec_pair_pred(b, i, t));
    assert(fa.subset_of(fb));
    vstd::set_lib::lemma_len_subset(fa, fb);
}

/// Adding an attempt raises by one the number alive between its own pair,
/// and no other.
proof fn lemma_pair_count_insert(
    m: Map<(Seq<u8>, u32, u32), RendezvousEntryView>,
    k: (Seq<u8>, u32, u32),
    e: RendezvousEntryView,
    i: Seq<u8>,
    t: Seq<u8>,
)
    requires
        m.dom().finite(),
        !m.dom().contains(k),
    ensures
        spec_pair_count(m.insert(k, e), i, t) == spec_pair_count(m, i, t) + (if k.0 == i
            && e.request.to_peer_id == t {
            1int
        } else {
            0int
        }),
{
    let m2 = m.insert(k, e);
    let fa = m.dom().filter(spec_pair_pred(m, i, t));
    let fb = m2.dom().filter(spec_pair_pred(m2, i, t));
    if k.0 == i && e.request.to_peer_id == t {
        assert(fb =~= fa.insert(k));
        assert(!fa.contains(k));
    } else {
        assert(fb =~= fa);
    }
}

proof fn lemma_trim_shortens(ts: Seq<Timestamp>, now: Timestamp)
    ensures
        spec_trim_window(ts, now).len() <= ts.len(),
    decreases ts.len(),
{
    if ts.len() > 0 && spec_left_window(ts[0], now) {
        lemma_trim_shortens(ts.drop_first(), now);
    }
}

/// Cleaning up keeps the admission limits.
pub proof fn lemma_cleanup_within_limits(v: RendezvousStateView, now: Timestamp)
    requires
        spec_within_limits(v),
    ensures
        spec_within_limits(spec_cleanup(v, now)),
{
    let c = spec_cleanup(v, now);
    assert(c.entries.dom().subset_of(v.entries.dom()));
    vstd::set_lib::lemma_len_subset(c.entries.dom(), v.entries.dom());
    assert forall|p: Seq<u8>| #[trigger] c.rate_windows.dom().contains(p) implies c.rate_windows[p].len()
        <= MAX_REQUESTS_PER_INITIATOR_WINDOW by {
        lemma_trim_shortens(v.rate_windows[p], now);
    }
    assert forall|i: Seq<u8>, t: Seq<u8>| #[trigger] spec_pair_count(c.entries, i, t) <= MAX_LIVE_ATTEMPTS_PER_PAIR by {
        lemma_pair_count_sub(c.entries, v.entries, i, t);
    }
}

/// Handling a request keeps the admission limits: the live-attempt,
/// per-pair, waiter and rate limits are never exceeded.
pub proof fn lemma_begin_within_limits(
    v: RendezvousStateView,
    initiator: Seq<u8>,
    request: SnTunnelRendezvousView,
    now: Timestamp,
)
    requires
        spec_within_limits(v),
    ensures
        spec_within_limits(spec_begin(spec_cleanup(v, now), initiator, request, now).0),
{
    lemma_cleanup_within_limits(v, now);
    let c = spec_cleanup(v, now);
    let key = spec_key(initiator, request);
    let w = spec_trim_window(
        if c.rate_windows.dom().contains(initiator) {
            c.rate_windows[initiator]
        } else {
            Seq::empty()
        },
        now,
    );
    lemma_trim_shortens(
        if c.rate_windows.dom().contains(initiator) {
            c.rate_windows[initiator]
        } else {
            Seq::empty()
        },
        now,
    );
    if c.entries.dom().contains(key) {
        let e = c.entries[key];
        let m2 = c.entries.insert(key, RendezvousEntryView { waiters: e.waiters + 1, ..e });
        assert(m2.dom() =~= c.entries.dom());
        assert forall|i: Seq<u8>, t: Seq<u8>| #[trigger] spec_pair_count(m2, i, t) <= MAX_LIVE_ATTEMPTS_PER_PAIR by {
            lemma_pair_count_sub(m2, c.entries, i, t);
        }
    } else {
        let n = spec_begin(c, initiator, request, now).0;
        if c.entries.dom().len() < MAX_LIVE_ATTEMPTS && spec_pair_count(c.entries, initiator, request.to_peer_id)
            < MAX_LIVE_ATTEMPTS_PER_PAIR && w.len() < MAX_REQUESTS_PER_INITIATOR_WINDOW {
            assert(c.entries.dom().insert(key).len() == c.entries.dom().len() + 1);
            let e = RendezvousEntryView {
                request,
                expires_at: spec_sat_add(now, MAX_REQUEST_LIFETIME),
                response: None,
                waiters: 0,
            };
            assert forall|i: Seq<u8>, t: Seq<u8>| #[trigger] spec_pair_count(n.entries, i, t) <= MAX_LIVE_ATTEMPTS_PER_PAIR by {
                lemma_pair_count_insert(c.entries, key, e, i, t);
            }
        }
    }
}

/// Dropping attempts or rate windows keeps the admission limits.
pub proof fn lemma_drop_within_limits(v: RendezvousStateView, w: RendezvousStateView)
    requires
        spec_within_limits(v),
        w.entries.submap_of(v.entries),
        w.rate_windows.submap_of(v.rate_windows),
    ensures
        spec_within_limits(w),
{
    assert(w.entries.dom().subset_of(v.entries.dom()));
    vstd::set_lib::lemma_len_subset(w.entries.dom(), v.entries.dom());
    assert forall|k: (Seq<u8>, u32, u32)| #[trigger] w.entries.dom().contains(k) implies w.entries[k].waiters
        <= MAX_INFLIGHT_WAITERS_PER_ATTEMPT by {
        assert(v.entries.dom().contains(k));
    }
    assert forall|p: Seq<u8>| #[trigger] w.rate_windows.dom().contains(p) implies w.rate_windows[p].len()
        <= MAX_REQUESTS_PER_INITIATOR_WINDOW by {
        assert(v.rate_windows.dom().contains(p));
    }
    assert forall|i: Seq<u8>, t: Seq<u8>| #[trigger] spec_pair_count(w.entries, i, t) <= MAX_LIVE_ATTEMPTS_PER_PAIR by {
        lemma_pair_count_sub(w.entries, v.entries, i, t);
    }
}

/// Recording a response keeps the admission limits.
pub proof fn lemma_cache_response_within_limits(
    v: RendezvousStateView,
    initiator: Seq<u8>,
    request: SnTunnelRendezvous,
    response: SnTunnelRendezvousResp,
    now: Timestamp,
)
    requires
        spec_within_limits(v),
    ensures
        spec_within_limits(spec_cache_response(v, initiator, request, response, now).0),
{
    let key = spec_key(initiator, request@);
    let n = spec_cache_response(v, initiator, request, response, now).0;
    if v.entries.dom().contains(key) && now >= v.entries[key].expires_at {
        lemma_drop_within_limits(v, n);
    } else if n != v {
        assert(n.entries.dom() =~= v.entries.dom());
        assert forall|i: Seq<u8>, t: Seq<u8>| #[trigger] spec_pair_count(n.entries, i, t) <= MAX_LIVE_ATTEMPTS_PER_PAIR by {
            lemma_pair_count_sub(n.entries, v.entries, i, t);
        }
    }
}

/// An empty state is within the admission limits.
pub proof fn lemma_empty_within_limits()
    ensures
        spec_within_limits(
            RendezvousStateView { entries: Map::empty(), rate_windows: Map::empty() },
        ),
{
    let v = RendezvousStateView {
        entries: Map::<(Seq<u8>, u32, u32), RendezvousEntryView>::empty(),
        rate_windows: Map::<Seq<u8>, Seq<Timestamp>>::empty(),
    };
    assert forall|i: Seq<u8>, t: Seq<u8>| #[trigger] spec_pair_count(v.entries, i, t) <= MAX_LIVE_ATTEMPTS_PER_PAIR by {
        assert(v.entries.dom().filter(spec_pair_pred(v.entries, i, t)) =~= Set::empty());
    }
}

/// Rendezvous attempts the SN is running, and the request times of each
/// initiator within the rate window.
pub struct RendezvousState {
    entries: KeyedTable<RendezvousKey, RendezvousEntry>,
    rate_windows: KeyedTable<P2pId, Vec<Timestamp>>,
}

impl View for RendezvousState {
    type V = RendezvousStateView;

    closed spec fn view(&self) -> RendezvousStateView {
        RendezvousStateView {
            entries: self.entries@.map_values(|e: RendezvousEntry| e@),
            rate_windows: self.rate_windows@.map_values(|w: Vec<Timestamp>| w@),
        }
    }
}

impl RendezvousState {
    pub closed spec fn wf(&self) -> bool {
        self.entries.wf() && self.rate_windows.wf()
    }

    pub fn new() -> (r: RendezvousState)
        ensures
            r.wf(),
            r@.entries == Map::<(Seq<u8>, u32, u32), RendezvousEntryView>::empty(),
            r@.rate_windows == Map::<Seq<u8>, Seq<Timestamp>>::empty(),
    {
        let r = RendezvousState { entries: KeyedTable::new(), rate_windows: KeyedTable::new() };
        assert(r@.entries =~= Map::<(Seq<u8>, u32, u32), RendezvousEntryView>::empty());
        assert(r@.rate_windows =~= Map::<Seq<u8>, Seq<Timestamp>>::empty());
        r
    }

    /// Drops the attempts that expired at `now`, answering which they were,
    /// and trims every rate window, dropping the empty ones.
    pub fn cleanup(&mut self, now: Timestamp) -> (r: Vec<RendezvousKey>)
        requires
            old(self).wf(),
        ensures
            final(self).wf(),
            final(self)@ == spec_cleanup(old(self)@, now),
            forall|k: (Seq<u8>, u32, u32)|
                #[trigger] spec_lists_key(r@, k) <==> (old(self)@.entries.dom().contains(k)
                    && !(now < old(self)@.entries[k].expires_at)),
    {
        let ghost old_entries = self.entries@;
        let ghost old_view = self@;
        proof {
            self.entries.lemma_positions();
        }
        let n = self.entries.len();
        let ghost pos_before = self.entries;
        let mut keep: Vec<bool> = Vec::new();
        let mut i: usize = 0;
        while i < n
            invariant
                self.entries.wf(),
                self.entries == pos_before,
                n == self.entries.spec_len(),
                i <= n,
                keep@.len() == i,
                forall|j: int| 0 <= j < i ==> #[trigger] keep@[j] == (now < self.entries.value_at(j).expires_at),
            decreases n - i,
        {
            let live = now < self.entries.value_ref_at(i).expires_at;
            keep.push(live);
            i = i + 1;
        }
        let expired = self.entries.keys_not_kept(&keep);
        let ghost pos_entries = self.entries;
        self.entries.retain_positions(&keep);
        self.trim_rate_windows(now);
        proof {
            let f = |e: RendezvousEntry| e@;
            let target = spec_cleanup(old_view, now).entries;
            assert forall|k: (Seq<u8>, u32, u32)| #[trigger] self@.entries.dom().contains(k) <==> target.dom().contains(k) by {
                if old_entries.dom().contains(k) {
                    let p = choose|p: int| 0 <= p < pos_entries.spec_len() && pos_entries.key_at(p) == k;
                    assert(self.entries@.dom().contains(pos_entries.key_at(p)) <==> keep@[p]);
                }
            }
            assert forall|k: (Seq<u8>, u32, u32)| #[trigger] self@.entries.dom().contains(k) implies self@.entries[k] == target[k] by {
            }
            assert(self@.entries =~= target);
            assert forall|k: (Seq<u8>, u32, u32)|
                #[trigger] spec_lists_key(expired@, k) <==> (old_view.entries.dom().contains(k)
                    && !(now < old_view.entries[k].expires_at)) by {
                if spec_lists_key(expired@, k) {
                    let j = choose|j: int| 0 <= j < expired@.len() && expired@[j]@ == k;
                    assert(pos_entries.spec_unkept_key(keep@, expired@[j]@));
                    let p = choose|p: int| 0 <= p < keep@.len() && !keep@[p] && pos_entries.key_at(p) == expired@[j]@;
                    assert(old_entries.dom().contains(pos_entries.key_at(p)));
                }
                if old_view.entries.dom().contains(k) && !(now < old_view.entries[k].expires_at) {
                    let p = choose|p: int| 0 <= p < pos_entries.spec_len() && pos_entries.key_at(p) == k;
                    assert(!keep@[p]);
                    assert(spec_lists_key(expired@, pos_entries.key_at(p)));
                }
            }
        }
        expired
    }

    /// Attempts alive between `initiator` and `to`.
    fn pair_count(&self, initiator: &P2pId, to: &P2pId) -> (r: usize)
        requires
            self.wf(),
        ensures
            r == spec_pair_count(self@.entries, initiator@, to@),
    {
        let ghost m = self@.entries;
        let ghost f = spec_pair_pred(m, initiator@, to@);
        proof {
            self.entries.lemma_positions();
        }
        let n = self.entries.len();
        let mut count: usize = 0;
        let mut i: usize = 0;
        while i < n
            invariant
                self.wf(),
                m == self@.entries,
                f == spec_pair_pred(m, initiator@, to@),
                n == self.entries.spec_len(),
                i <= n,
                count <= i,
                count == self.entries.count_positions(f, i as int),
                forall|j: int| 0 <= j < n ==> #[trigger] self.entries@.dom().contains(self.entries.key_at(j))
                    && self.entries@[self.entries.key_at(j)] == self.entries.value_at(j),
            decreases n - i,
        {
            let k = self.entries.key_ref_at(i);
            let e = self.entries.value_ref_at(i);
            let hit = k.initiator.same_as(initiator) && e.request.to_peer_id.same_as(to);
            proof {
                assert(m.dom().contains(self.entries.key_at(i as int)));
                assert(m[self.entries.key_at(i as int)] == self.entries.value_at(i as int)@);
                assert(self.entries.key_at(i as int) == k@);
                assert(*e == self.entries.value_at(i as int));
                assert(hit == (k.initiator@ == initiator@ && e.request.to_peer_id@ == to@));
                let kk = self.entries.key_at(i as int);
                assert(f(kk) == (kk.0 == initiator@ && m[kk].request.to_peer_id == to@));
                assert(f(self.entries.key_at(i as int)) == hit);
            }
            if hit {
                count = count + 1;
            }
            i = i + 1;
        }
        proof {
            self.entries.lemma_count(f);
            assert(self.entries@.dom().filter(f) =~= m.dom().filter(f));
        }
        count
    }

    /// Handles a rendezvous request of `authenticated_initiator` at `now`,
    /// after dropping what expired (the expired attempts are answered, `.0`).
    pub fn begin(&mut self, authenticated_initiator: &P2pId, request: &SnTunnelRendezvous, now: Timestamp) -> (r:
        (Vec<RendezvousKey>, P2pResult<RendezvousBegin>))
        requires
            old(self).wf(),
        ensures
            final(self).wf(),
            forall|k: (Seq<u8>, u32, u32)|
                #[trigger] spec_lists_key(r.0@, k) <==> (old(self)@.entries.dom().contains(k)
                    && !(now < old(self)@.entries[k].expires_at)),
            (final(self)@, match r.1 {
                Ok(b) => Ok(spec_begin_view(b)),
                Err(e) => Err(e),
            }) == spec_begin(spec_cleanup(old(self)@, now), authenticated_initiator@, request@, now),
    {
        let expired = self.cleanup(now);
        let ghost v = self@;
        let ghost ef = |e: RendezvousEntry| e@;
        let ghost wf_ = |w: Vec<Timestamp>| w@;
        let key = RendezvousKey::new(authenticated_initiator, request);
        proof {
            self.entries.lemma_positions();
            self.entries.lemma_len();
            assert(v.entries.dom() =~= self.entries@.dom());
            assert(v.rate_windows.dom() =~= self.rate_windows@.dom());
        }
        match self.entries.index_of(&key) {
            Some(i) => {
                let e = self.entries.value_ref_at(i);
                assert(v.entries[key@] == e@);
                if !e.request.same_request(request) {
                    return (expired, Err(P2pError::new(P2pErrorCode::Conflict)));
                }
                if let Some(resp) = &e.response {
                    let cached = resp.duplicate();
                    return (expired, Ok(RendezvousBegin::Cached(cached)));
                }
                if e.waiters >= MAX_INFLIGHT_WAITERS_PER_ATTEMPT {
                    return (expired, Err(P2pError::new(P2pErrorCode::OutOfLimit)));
                }
                let next = RendezvousEntry {
                    request: e.request.duplicate(),
                    expires_at: e.expires_at,
                    response: None,
                    waiters: e.waiters + 1,
                };
                let ghost nv = next@;
                let _ = self.entries.replace_value_at(i, next);
                proof {
                    assert(self@.entries =~= v.entries.insert(key@, nv));
                }
                (expired, Ok(RendezvousBegin::InFlight))
            },
            None => {
                if self.entries.len() >= MAX_LIVE_ATTEMPTS || self.pair_count(
                    authenticated_initiator,
                    &request.to_peer_id,
                ) >= MAX_LIVE_ATTEMPTS_PER_PAIR {
                    return (expired, Err(P2pError::new(P2pErrorCode::OutOfLimit)));
                }
                let mut w: Vec<Timestamp> = match self.rate_windows.get_ref(authenticated_initiator) {
                    Some(ts) => copy_timestamps(ts),
                    None => Vec::new(),
                };
                assert(w@ == (if v.rate_windows.dom().contains(authenticated_initiator@) {
                    v.rate_windows[authenticated_initiator@]
                } else {
                    Seq::<Timestamp>::empty()
                }));
                trim_window(&mut w, now);
                if w.len() >= MAX_REQUESTS_PER_INITIATOR_WINDOW {
                    let ghost wv = w@;
                    self.rate_windows.insert(authenticated_initiator.duplicate(), w);
                    proof {
                        assert(self@.rate_windows =~= v.rate_windows.insert(authenticated_initiator@, wv));
                    }
                    return (expired, Err(P2pError::new(P2pErrorCode::OutOfLimit)));
                }
                w.push(now);
                let ghost wv = w@;
                self.rate_windows.insert(authenticated_initiator.duplicate(), w);
                let entry = RendezvousEntry {
                    request: request.duplicate(),
                    expires_at: sat_add(now, MAX_REQUEST_LIFETIME),
                    response: None,
                    waiters: 0,
                };
                let ghost nv = entry@;
                self.entries.insert(key, entry);
                proof {
                    assert(self@.rate_windows =~= v.rate_windows.insert(authenticated_initiator@, wv));
                    assert(self@.entries =~= v.entries.insert(spec_key(authenticated_initiator@, request@), nv));
                }
                (expired, Ok(RendezvousBegin::New))
            },
        }
    }

    /// Records the response to an attempt at `now`; see [`spec_cache_response`].
    /// On success the requests waiting on the attempt are to be given
    /// `response`.
    pub fn cache_response(
        &mut self,
        authenticated_initiator: &P2pId,
        request: &SnTunnelRendezvous,
        response: &SnTunnelRendezvousResp,
        now: Timestamp,
    ) -> (r: P2pResult<()>)
        requires
            old(self).wf(),
        ensures
            final(self).wf(),
            (final(self)@, r) == spec_cache_response(old(self)@, authenticated_initiator@, *request, *response, now),
    {
        let ghost v = self@;
        let key = RendezvousKey::new(authenticated_initiator, request);
        proof {
            self.entries.lemma_positions();
        }
        match self.entries.index_of(&key) {
            None => Err(P2pError::new(P2pErrorCode::NotFound)),
            Some(i) => {
                if now >= self.entries.value_ref_at(i).expires_at {
                    let _ = self.entries.remove(&key);
                    proof {
                        assert(self@.entries =~= v.entries.remove(key@));
                    }
                    return Err(P2pError::new(P2pErrorCode::Expired));
                }
                let e = self.entries.value_ref_at(i);
                if !e.request.same_request(request) {
                    return Err(P2pError::new(P2pErrorCode::Conflict));
                }
                match response.validate(request.seq, request.need_predict_endpoint) {
                    Err(err) => {
                        return Err(err);
                    },
                    Ok(()) => {},
                }
                let cached = if request.need_predict_endpoint {
                    SnTunnelRendezvousResp::failure(request.seq)
                } else {
                    response.duplicate()
                };
                let next = RendezvousEntry {
                    request: e.request.duplicate(),
                    expires_at: e.expires_at,
                    response: Some(cached),
                    waiters: 0,
                };
                let ghost nv = next@;
                let _ = self.entries.replace_value_at(i, next);
                proof {
                    assert(nv.response.unwrap().predicted_endpoint_array =~= (if request.need_predict_endpoint {
                        Seq::<crate::endpoint::Endpoint>::empty()
                    } else {
                        response@.predicted_endpoint_array
                    }));
                    assert(self@.entries =~= v.entries.insert(key@, nv));
                }
                Ok(())
            },
        }
    }

    /// Drops an attempt that failed before it was answered; answers whether
    /// it did (its waiting requests are then to be failed).
    pub fn fail_unanswered(&mut self, authenticated_initiator: &P2pId, request: &SnTunnelRendezvous) -> (r: bool)
        requires
            old(self).wf(),
        ensures
            final(self).wf(),
            (final(self)@, r) == spec_fail_unanswered(old(self)@, authenticated_initiator@, request@),
    {
        let ghost v = self@;
        let key = RendezvousKey::new(authenticated_initiator, request);
        match self.entries.index_of(&key) {
            None => false,
            Some(i) => {
                let e = self.entries.value_ref_at(i);
                if !e.request.same_request(request) || e.response.is_some() {
                    return false;
                }
                let _ = self.entries.remove(&key);
                proof {
                    assert(self@.entries =~= v.entries.remove(key@));
                }
                true
            },
        }
    }

    /// Drops every attempt `peer_id` started or is the target of, and its
    /// rate window; answers which attempts were dropped.
    pub fn remove_peer(&mut self, peer_id: &P2pId) -> (r: Vec<RendezvousKey>)
        requires
            old(self).wf(),
        ensures
            final(self).wf(),
            final(self)@.rate_windows == old(self)@.rate_windows.remove(peer_id@),
            final(self)@.entries == Map::new(
                |k: (Seq<u8>, u32, u32)| old(self)@.entries.dom().contains(k) && k.0 != peer_id@
                    && old(self)@.entries[k].request.to_peer_id != peer_id@,
                |k: (Seq<u8>, u32, u32)| old(self)@.entries[k],
            ),
            forall|k: (Seq<u8>, u32, u32)|
                #[trigger] spec_lists_key(r@, k) <==> (old(self)@.entries.dom().contains(k)
                    && (k.0 == peer_id@ || old(self)@.entries[k].request.to_peer_id == peer_id@)),
    {
        let ghost old_entries = self.entries@;
        let ghost old_view = self@;
        proof {
            self.entries.lemma_positions();
        }
        let n = self.entries.len();
        let ghost pos_before = self.entries;
        let mut keep: Vec<bool> = Vec::new();
        let mut i: usize = 0;
        while i < n
            invariant
                self.entries.wf(),
                self.entries == pos_before,
                n == self.entries.spec_len(),
                i <= n,
                keep@.len() == i,
                forall|j: int| 0 <= j < i ==> #[trigger] keep@[j] == (self.entries.key_at(j).0 != peer_id@
                    && self.entries.value_at(j).request.to_peer_id@ != peer_id@),
            decreases n - i,
        {
            let k = self.entries.key_ref_at(i);
            let stay = !k.initiator.same_as(peer_id) && !self.entries.value_ref_at(i).request.to_peer_id.same_as(
                peer_id,
            );
            keep.push(stay);
            i = i + 1;
        }
        let removed = self.entries.keys_not_kept(&keep);
        self.entries.retain_positions(&keep);
        let _ = self.rate_windows.remove(peer_id);
        proof {
            let target = Map::new(
                |k: (Seq<u8>, u32, u32)| old_view.entries.dom().contains(k) && k.0 != peer_id@
                    && old_view.entries[k].request.to_peer_id != peer_id@,
                |k: (Seq<u8>, u32, u32)| old_view.entries[k],
            );
            assert forall|k: (Seq<u8>, u32, u32)| #[trigger] self@.entries.dom().contains(k) <==> target.dom().contains(k) by {
                if old_entries.dom().contains(k) {
                    let p = choose|p: int| 0 <= p < pos_before.spec_len() && pos_before.key_at(p) == k;
                    assert(self.entries@.dom().contains(pos_before.key_at(p)) <==> keep@[p]);
                }
            }
            assert(self@.entries =~= target);
            let g = |w: Vec<Timestamp>| w@;
            assert(self@.rate_windows =~= old_view.rate_windows.remove(peer_id@));
            assert forall|k: (Seq<u8>, u32, u32)|
                #[trigger] spec_lists_key(removed@, k) <==> (old_view.entries.dom().contains(k)
                    && (k.0 == peer_id@ || old_view.entries[k].request.to_peer_id == peer_id@)) by {
                if spec_lists_key(removed@, k) {
                    let j = choose|j: int| 0 <= j < removed@.len() && removed@[j]@ == k;
                    assert(pos_before.spec_unkept_key(keep@, removed@[j]@));
                    let p = choose|p: int| 0 <= p < keep@.len() && !keep@[p] && pos_before.key_at(p) == removed@[j]@;
                    assert(old_entries.dom().contains(pos_before.key_at(p)));
                }
                if old_view.entries.dom().contains(k) && (k.0 == peer_id@ || old_view.entries[k].request.to_peer_id == peer_id@) {
                    let p = choose|p: int| 0 <= p < pos_before.spec_len() && pos_before.key_at(p) == k;
                    assert(!keep@[p]);
                    assert(spec_lists_key(removed@, pos_before.key_at(p)));
                }
            }
        }
        removed
    }

    /// Trims every rate window at `now`, dropping the empty ones.
    fn trim_rate_windows(&mut self, now: Timestamp)
        requires
            old(self).wf(),
        ensures
            final(self).wf(),
            final(self).entries == old(self).entries,
            final(self)@.rate_windows == spec_cleanup(old(self)@, now).rate_windows,
    {
        let ghost old_windows = self.rate_windows@;
        let ghost old_table = self.rate_windows;
        proof {
            self.rate_windows.lemma_positions();
        }
        let n = self.rate_windows.len();
        let mut keep: Vec<bool> = Vec::new();
        let mut i: usize = 0;
        while i < n
            invariant
                self.rate_windows.wf(),
                self.entries == old(self).entries,
                self.entries.wf(),
                n == self.rate_windows.spec_len(),
                n == old_table.spec_len(),
                i <= n,
                keep@.len() == i,
                forall|j: int| 0 <= j < n ==> #[trigger] self.rate_windows.key_at(j) == old_table.key_at(j),
                forall|j: int| 0 <= j < i ==> #[trigger] self.rate_windows.value_at(j)@ == spec_trim_window(
                    old_table.value_at(j)@,
                    now,
                ),
                forall|j: int| i <= j < n ==> #[trigger] self.rate_windows.value_at(j) == old_table.value_at(j),
                forall|j: int| 0 <= j < i ==> #[trigger] keep@[j] == (self.rate_windows.value_at(j)@.len() > 0),
            decreases n - i,
        {
            let mut w = copy_timestamps(self.rate_windows.value_ref_at(i));
            trim_window(&mut w, now);
            let non_empty = w.len() > 0;
            let _ = self.rate_windows.replace_value_at(i, w);
            keep.push(non_empty);
            i = i + 1;
        }
        let ghost pos_table = self.rate_windows;
        proof {
            pos_table.lemma_positions();
        }
        self.rate_windows.retain_positions(&keep);
        proof {
            let target = spec_cleanup(self@, now).rate_windows;
            let g = |w: Vec<Timestamp>| w@;
            assert forall|p: Seq<u8>| #[trigger] self.rate_windows@.map_values(g).dom().contains(p) <==> Map::new(
                |p: Seq<u8>| old_windows.map_values(g).dom().contains(p) && spec_trim_window(old_windows.map_values(g)[p], now).len() > 0,
                |p: Seq<u8>| spec_trim_window(old_windows.map_values(g)[p], now),
            ).dom().contains(p) by {
                if old_windows.dom().contains(p) {
                    let j = choose|j: int| 0 <= j < old_table.spec_len() && old_table.key_at(j) == p;
                    assert(pos_table.key_at(j) == p);
                    assert(self.rate_windows@.dom().contains(pos_table.key_at(j)) <==> keep@[j]);
                }
                if self.rate_windows@.dom().contains(p) {
                    assert(pos_table@.dom().contains(p));
                    let j = choose|j: int| 0 <= j < pos_table.spec_len() && pos_table.key_at(j) == p;
                    assert(old_table.key_at(j) == p);
                }
            }
            assert forall|p: Seq<u8>| #[trigger] self.rate_windows@.map_values(g).dom().contains(p) implies self.rate_windows@.map_values(g)[p]
                == spec_trim_window(old_windows.map_values(g)[p], now) by {
                assert(pos_table@.dom().contains(p));
                let j = choose|j: int| 0 <= j < pos_table.spec_len() && pos_table.key_at(j) == p;
                assert(old_table.key_at(j) == p);
            }
            assert(self.rate_windows@.map_values(g) =~= Map::new(
                |p: Seq<u8>| old_windows.map_values(g).dom().contains(p) && spec_trim_window(old_windows.map_values(g)[p], now).len() > 0,
                |p: Seq<u8>| spec_trim_window(old_windows.map_values(g)[p], now),
            ));
        }
    }
}

fn copy_timestamps(ts: &Vec<Timestamp>) -> (r: Vec<Timestamp>)
    ensures
        r@ == ts@,
{
    let mut out: Vec<Timestamp> = Vec::new();
    let mut i: usize = 0;
    while i < ts.len()
        invariant
            i <= ts@.len(),
            out@ == ts@.subrange(0, i as int),
        decreases ts.len() - i,
    {
        out.push(ts[i]);
        i = i + 1;
        assert(out@ =~= ts@.subrange(0, i as int));
    }
    assert(ts@.subrange(0, ts@.len() as int) =~= ts@);
    out
}

fn sat_add(t: u64, w: u64) -> (r: u64)
    ensures
        r == spec_sat_add(t, w),
{
    if t > u64::MAX - w {
        u64::MAX
    } else {
        t + w
    }
}

/// Drops from the front of `ts` the times that left the rate window at `now`.
fn trim_window(ts: &mut Vec<Timestamp>, now: Timestamp)
    ensures
        final(ts)@ == spec_trim_window(old(ts)@, now),
{
    while ts.len() > 0 && sat_add(ts[0], RATE_WINDOW) < now
        invariant
            spec_trim_window(ts@, now) == spec_trim_window(old(ts)@, now),
        decreases ts@.len(),
    {
        let ghost before = ts@;
        let _ = ts.remove(0);
        assert(ts@ =~= before.drop_first());
    }
}

} // verus!
