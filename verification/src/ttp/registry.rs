use vstd::prelude::*;
use crate::error::{P2pError, P2pErrorCode, P2pResult};
use crate::sn::service::peer_table::{KeyedTable, TableKey};

verus! {

/// Who listens for TTP items of each purpose `K`: one callback `C` per
/// purpose.
pub struct TtpQueueRegistry<K, C> {
    listeners: KeyedTable<K, C>,
}

impl<K: TableKey, C> View for TtpQueueRegistry<K, C> {
    type V = Map<K::V, C>;

    closed spec fn view(&self) -> Map<K::V, C> {
        self.listeners@
    }
}

impl<K: TableKey, C> TtpQueueRegistry<K, C> {
    pub closed spec fn wf(&self) -> bool {
        self.listeners.wf()
    }

    pub fn new() -> (r: TtpQueueRegistry<K, C>)
        ensures
            r.wf(),
            r@ == Map::<K::V, C>::empty(),
    {
        TtpQueueRegistry { listeners: KeyedTable::new() }
    }

    /// Listens for `purpose` with `callback`; a purpose already listened
    /// for is refused.
    pub fn register(&mut self, purpose: K, callback: C) -> (r: P2pResult<()>)
        requires
            old(self).wf(),
        ensures
            final(self).wf(),
            old(self)@.dom().contains(purpose@) ==> r == Err::<(), P2pError>(
                P2pError { code: P2pErrorCode::AlreadyExists },
            ) && final(self)@ == old(self)@,
            !old(self)@.dom().contains(purpose@) ==> r is Ok && final(self)@ == old(self)@.insert(
                purpose@,
                callback,
            ),
    {
        if self.listeners.contains(&purpose) {
            return Err(P2pError::new(P2pErrorCode::AlreadyExists));
        }
        self.listeners.insert(purpose, callback);
        Ok(())
    }

    pub fn remove(&mut self, purpose: &K)
        requires
            old(self).wf(),
        ensures
            final(self).wf(),
            final(self)@ == old(self)@.remove(purpose@),
    {
        let _ = self.listeners.remove(purpose);
    }

    /// The callback an item for `purpose` goes to; a purpose nobody listens
    /// for is not found.
    pub fn deliver(&self, purpose: &K) -> (r: P2pResult<&C>)
        requires
            self.wf(),
        ensures
            self@.dom().contains(purpose@) ==> (r matches Ok(c) && *c == self@[purpose@]),
            !self@.dom().contains(purpose@) ==> r == Err::<&C, P2pError>(
                P2pError { code: P2pErrorCode::NotFound },
            ),
    {
        match self.listeners.get_ref(purpose) {
            Some(c) => Ok(c),
            None => Err(P2pError::new(P2pErrorCode::NotFound)),
        }
    }

    pub fn is_listen(&self, purpose: &K) -> (r: bool)
        requires
            self.wf(),
        ensures
            r == self@.dom().contains(purpose@),
    {
        self.listeners.contains(purpose)
    }
}

/// Registering a purpose makes it listened for until it is removed, and a
/// second registration of it is refused.
pub proof fn lemma_register_then_listen<K, C>(m: Map<K, C>, purpose: K, callback: C)
    requires
        !m.dom().contains(purpose),
    ensures
        m.insert(purpose, callback).dom().contains(purpose),
        m.insert(purpose, callback)[purpose] == callback,
        !m.insert(purpose, callback).remove(purpose).dom().contains(purpose),
{
}

} // verus!
