use vstd::prelude::*;
use crate::sn::service::peer_table::{KeyedTable, TableKey};
use crate::types::{P2pId, Timestamp, TunnelId};

verus! {

/// How long a call is remembered, in microseconds (60 seconds).
pub const CALL_STUB_TIMEOUT: Timestamp = 60_000_000;

/// A call, identified by the calling peer and its tunnel id.
pub struct RemoteSeq {
    pub remote: P2pId,
    pub seq: TunnelId,
}

impl View for RemoteSeq {
    type V = (Seq<u8>, u32);

    open spec fn view(&self) -> (Seq<u8>, u32) {
        (self.remote@, self.seq.0)
    }
}

impl TableKey for RemoteSeq {
    fn same_key(&self, other: &Self) -> (r: bool) {
        self.seq.0 == other.seq.0 && self.remote.same_as(&other.remote)
    }

    fn copy_key(&self) -> (r: Self) {
        RemoteSeq { remote: self.remote.duplicate(), seq: self.seq }
    }
}

pub struct CallStubView {
    pub last_recycle: Timestamp,
    pub stubs: Map<(Seq<u8>, u32), Timestamp>,
}

/// An entry recorded at `when` is stale at `now`: older than the timeout.
pub open spec fn spec_stale(now: Timestamp, when: Timestamp) -> bool {
    now > when && now - when > CALL_STUB_TIMEOUT
}

/// Remembers recent calls so that a call repeated by the same remote with
/// the same tunnel id is handled once.
pub struct CallStub {
    last_recycle: Timestamp,
    stubs: KeyedTable<RemoteSeq, Timestamp>,
}

impl View for CallStub {
    type V = CallStubView;

    closed spec fn view(&self) -> CallStubView {
        CallStubView { last_recycle: self.last_recycle, stubs: self.stubs@ }
    }
}

impl CallStub {
    pub closed spec fn wf(&self) -> bool {
        self.stubs.wf()
    }

    /// An empty stub whose last recycle is `now`.
    pub fn new(now: Timestamp) -> (r: Self)
        ensures
            r.wf(),
            r@ == (CallStubView { last_recycle: now, stubs: Map::empty() }),
    {
        CallStub { last_recycle: now, stubs: KeyedTable::new() }
    }

    /// Records the call `(remote, seq)` at `now`; answers whether it is new.
    pub fn insert(&mut self, remote: &P2pId, seq: &TunnelId, now: Timestamp) -> (r: bool)
        requires
            old(self).wf(),
        ensures
            final(self).wf(),
            r == !old(self)@.stubs.dom().contains((remote@, seq.0)),
            final(self)@ == (CallStubView {
                last_recycle: old(self)@.last_recycle,
                stubs: old(self)@.stubs.insert((remote@, seq.0), now),
            }),
    {
        let key = RemoteSeq { remote: remote.duplicate(), seq: *seq };
        let is_new = !self.stubs.contains(&key);
        self.stubs.insert(key, now);
        is_new
    }

    /// Drops stale calls when more than the timeout has passed since the
    /// last recycle at `now`; the last recycle then becomes `clock_now`, the
    /// current time as the caller read it.
    pub fn recycle(&mut self, now: Timestamp, clock_now: Timestamp)
        requires
            old(self).wf(),
        ensures
            final(self).wf(),
            spec_stale(now, old(self)@.last_recycle) ==> final(self)@ == (CallStubView {
                last_recycle: clock_now,
                stubs: Map::new(
                    |k: (Seq<u8>, u32)| old(self)@.stubs.dom().contains(k) && !spec_stale(now, old(self)@.stubs[k]),
                    |k: (Seq<u8>, u32)| old(self)@.stubs[k],
                ),
            }),
            !spec_stale(now, old(self)@.last_recycle) ==> final(self)@ == old(self)@,
    {
        if !(now > self.last_recycle && now - self.last_recycle > CALL_STUB_TIMEOUT) {
            return;
        }
        let ghost old_stubs = self.stubs;
        proof {
            old_stubs.lemma_positions();
        }
        let mut keep: Vec<bool> = Vec::new();
        let mut i: usize = 0;
        while i < self.stubs.len()
            invariant
                i <= self.stubs.spec_len(),
                keep@.len() == i,
                forall|j: int|
                    0 <= j < i ==> keep@[j] == !spec_stale(now, self.stubs.value_at(j)),
            decreases self.stubs.spec_len() - i,
        {
            let when = self.stubs.value_at_index(i);
            keep.push(!(now > when && now - when > CALL_STUB_TIMEOUT));
            i = i + 1;
        }
        self.stubs.retain_positions(&keep);
        proof {
            let target = Map::new(
                |k: (Seq<u8>, u32)| old_stubs@.dom().contains(k) && !spec_stale(now, old_stubs@[k]),
                |k: (Seq<u8>, u32)| old_stubs@[k],
            );
            assert forall|k: (Seq<u8>, u32)| #[trigger] self.stubs@.dom().contains(k) <==> target.dom().contains(k) by {
                if old_stubs@.dom().contains(k) {
                    let j = choose|j: int| 0 <= j < old_stubs.spec_len() && old_stubs.key_at(j) == k;
                    assert(old_stubs@.dom().contains(old_stubs.key_at(j)));
                    assert(self.stubs@.dom().contains(old_stubs.key_at(j)) == keep@[j]);
                }
            }
            assert(self.stubs@ =~= target);
        }
        self.last_recycle = clock_now;
    }
}

} // verus!
