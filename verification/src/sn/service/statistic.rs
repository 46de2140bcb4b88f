use vstd::prelude::*;
use crate::sn::service::peer_table::KeyedTable;
use crate::types::{P2pId, Timestamp};

verus! {

/// How long, in microseconds, statistics stay cached before they are
/// written out again.
pub const CACHE_MAX_TIMEOUT: u64 = 5_000_000;

pub struct StatisticManagerView<S> {
    pub last_cache_timestamp: Timestamp,
    pub statistics: Map<Seq<u8>, S>,
}

/// The statistics `S` the SN keeps of each peer, and when they were last
/// written out.
pub struct StatisticManager<S> {
    last_cache_timestamp: Timestamp,
    statistics: KeyedTable<P2pId, S>,
}

impl<S> View for StatisticManager<S> {
    type V = StatisticManagerView<S>;

    closed spec fn view(&self) -> StatisticManagerView<S> {
        StatisticManagerView { last_cache_timestamp: self.last_cache_timestamp, statistics: self.statistics@ }
    }
}

/// Whether statistics last written out at `last` are due again at `now`.
pub open spec fn spec_cache_due(now: Timestamp, last: Timestamp) -> bool {
    now > last && now - last >= CACHE_MAX_TIMEOUT
}

impl<S> StatisticManager<S> {
    pub closed spec fn wf(&self) -> bool {
        self.statistics.wf()
    }

    /// No statistics yet, last written out at `now`.
    pub fn new(now: Timestamp) -> (r: Self)
        ensures
            r.wf(),
            r@ == (StatisticManagerView { last_cache_timestamp: now, statistics: Map::<Seq<u8>, S>::empty() }),
    {
        StatisticManager { last_cache_timestamp: now, statistics: KeyedTable::new() }
    }

    /// The statistics of `id`, which start as `fresh` for a peer seen for
    /// the first time.
    pub fn get_peer_status(&mut self, id: P2pId, fresh: S) -> (r: &S)
        requires
            old(self).wf(),
        ensures
            final(self).wf(),
            final(self)@.last_cache_timestamp == old(self)@.last_cache_timestamp,
            final(self)@.statistics == (if old(self)@.statistics.dom().contains(id@) {
                old(self)@.statistics
            } else {
                old(self)@.statistics.insert(id@, fresh)
            }),
            *r == final(self)@.statistics[id@],
    {
        if !self.statistics.contains(&id) {
            self.statistics.insert(id.duplicate(), fresh);
        }
        let i = match self.statistics.index_of(&id) {
            Some(i) => i,
            None => {
                proof {
                    assert(self.statistics@.dom().contains(id@));
                }
                0
            },
        };
        self.statistics.value_ref_at(i)
    }

    /// Whether the statistics are due to be written out at `now`; when they
    /// are, `now` becomes the time they were last written out.
    pub fn on_time_escape(&mut self, now: Timestamp) -> (r: bool)
        requires
            old(self).wf(),
        ensures
            final(self).wf(),
            r == spec_cache_due(now, old(self)@.last_cache_timestamp),
            final(self)@.statistics == old(self)@.statistics,
            final(self)@.last_cache_timestamp == (if r {
                now
            } else {
                old(self)@.last_cache_timestamp
            }),
    {
        if now > self.last_cache_timestamp && now - self.last_cache_timestamp >= CACHE_MAX_TIMEOUT {
            self.last_cache_timestamp = now;
            true
        } else {
            false
        }
    }

    pub fn len(&self) -> (r: usize)
        requires
            self.wf(),
        ensures
            r == self@.statistics.len(),
    {
        proof {
            self.statistics.lemma_len();
        }
        self.statistics.len()
    }
}

} // verus!
