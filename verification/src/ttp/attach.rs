use vstd::prelude::*;
use crate::error::{P2pError, P2pErrorCode, P2pResult};

verus! {

/// The listeners a tunnel gets when it is attached to the TTP runtime, in the
/// order in which they are registered.
#[derive(PartialEq, Eq, Structural, Clone, Copy, Debug)]
pub enum AttachStage {
    Stream,
    ControlStream,
    Datagram,
}

/// What attaching does after one listener registration has answered.
#[derive(PartialEq, Eq, Structural, Clone, Copy, Debug)]
pub enum AttachStep {
    /// Register the listener of this stage next.
    Listen(AttachStage),
    /// Every listener is registered: the tunnel is attached.
    Completed,
    /// The registration failed: the tunnel is closed and this error returned.
    Failed(P2pError),
}

/// The stage that follows `stage`, if any.
pub open spec fn spec_next_stage(stage: AttachStage) -> Option<AttachStage> {
    match stage {
        AttachStage::Stream => Some(AttachStage::ControlStream),
        AttachStage::ControlStream => Some(AttachStage::Datagram),
        AttachStage::Datagram => None,
    }
}

/// A tunnel that does not support a kind of listener is attached without it;
/// any other refusal fails the attachment.
pub open spec fn spec_registration_tolerated(result: P2pResult<()>) -> bool {
    match result {
        Ok(()) => true,
        Err(e) => e.code == P2pErrorCode::NotSupport,
    }
}

pub open spec fn spec_attach_step(stage: AttachStage, result: P2pResult<()>) -> AttachStep {
    if spec_registration_tolerated(result) {
        match spec_next_stage(stage) {
            Some(next) => AttachStep::Listen(next),
            None => AttachStep::Completed,
        }
    } else {
        AttachStep::Failed(result->Err_0)
    }
}

/// The first listener registered for a tunnel being attached.
pub fn first_attach_stage() -> (r: AttachStage)
    ensures
        r == AttachStage::Stream,
{
    AttachStage::Stream
}

/// Decides what follows the registration of the `stage` listener, given what
/// the tunnel answered.
pub fn attach_step(stage: AttachStage, result: &P2pResult<()>) -> (r: AttachStep)
    ensures
        r == spec_attach_step(stage, *result),
{
    let tolerated = match result {
        Ok(()) => true,
        Err(e) => e.code() == P2pErrorCode::NotSupport,
    };
    if !tolerated {
        return match result {
            Err(e) => AttachStep::Failed(P2pError::new(e.code())),
            Ok(()) => AttachStep::Completed,
        };
    }
    match stage {
        AttachStage::Stream => AttachStep::Listen(AttachStage::ControlStream),
        AttachStage::ControlStream => AttachStep::Listen(AttachStage::Datagram),
        AttachStage::Datagram => AttachStep::Completed,
    }
}

/// Of the registrations answered in order from the first stage, what
/// attaching ends in: the first intolerable error, or completion.
pub open spec fn spec_attach_outcome(results: Seq<P2pResult<()>>) -> P2pResult<()> {
    if !spec_registration_tolerated(results[0]) {
        results[0]
    } else if !spec_registration_tolerated(results[1]) {
        results[1]
    } else if !spec_registration_tolerated(results[2]) {
        results[2]
    } else {
        Ok(())
    }
}

/// Running the steps from the first stage over three answers visits the
/// three listeners in order, and attaching fails with the first answer that
/// is an error other than lack of support, or completes when there is none.
pub proof fn lemma_attach_steps(results: Seq<P2pResult<()>>)
    requires
        results.len() == 3,
    ensures
        ({
            let s0 = spec_attach_step(AttachStage::Stream, results[0]);
            let s1 = spec_attach_step(AttachStage::ControlStream, results[1]);
            let s2 = spec_attach_step(AttachStage::Datagram, results[2]);
            &&& s0 is Failed ==> spec_attach_outcome(results) == results[0]
            &&& !(s0 is Failed) ==> s0 == AttachStep::Listen(AttachStage::ControlStream)
            &&& !(s0 is Failed) && s1 is Failed ==> spec_attach_outcome(results) == results[1]
            &&& !(s0 is Failed) && !(s1 is Failed) ==> s1 == AttachStep::Listen(
                AttachStage::Datagram,
            )
            &&& !(s0 is Failed) && !(s1 is Failed) && s2 is Failed ==> spec_attach_outcome(results)
                == results[2]
            &&& !(s0 is Failed) && !(s1 is Failed) && !(s2 is Failed) ==> s2
                == AttachStep::Completed
            &&& (spec_attach_outcome(results) is Ok) <==> (!(s0 is Failed) && !(s1 is Failed) && !(
            s2 is Failed))
        }),
{
}

/// The identities that stay attached when those whose tunnel is gone are
/// dropped: `alive[i]` tells whether the tunnel of `ids[i]` is still held.
pub open spec fn spec_still_attached<T>(ids: Seq<T>, alive: Seq<bool>) -> Seq<T>
    decreases ids.len(),
{
    if ids.len() == 0 || alive.len() == 0 {
        Seq::empty()
    } else {
        let rest = spec_still_attached(ids.drop_last(), alive.drop_last());
        if alive.last() {
            rest.push(ids.last())
        } else {
            rest
        }
    }
}

/// What stays of two lists of the same length, filtered by the same
/// liveness, has the same length.
proof fn lemma_still_attached_len<A, B>(a: Seq<A>, b: Seq<B>, alive: Seq<bool>)
    requires
        a.len() == b.len(),
    ensures
        spec_still_attached(a, alive).len() == spec_still_attached(b, alive).len(),
    decreases a.len(),
{
    if a.len() > 0 && alive.len() > 0 {
        lemma_still_attached_len(a.drop_last(), b.drop_last(), alive.drop_last());
    }
}

/// The tunnels already attached to a runtime, each held as an identity (the
/// address of the shared tunnel) beside a handle `W` that tells whether it is
/// still alive.
pub struct AttachedTunnels<W> {
    ids: Vec<u64>,
    handles: Vec<W>,
}

impl<W> View for AttachedTunnels<W> {
    type V = Seq<u64>;

    closed spec fn view(&self) -> Seq<u64> {
        self.ids@
    }
}

impl<W> AttachedTunnels<W> {
    /// The handles of the attached tunnels, in the order of `self@`.
    pub closed spec fn handles(&self) -> Seq<W> {
        self.handles@
    }

    pub closed spec fn wf(&self) -> bool {
        self.ids@.len() == self.handles@.len()
    }

    pub fn new() -> (r: AttachedTunnels<W>)
        ensures
            r.wf(),
            r@ == Seq::<u64>::empty(),
    {
        AttachedTunnels { ids: Vec::new(), handles: Vec::new() }
    }

    pub fn len(&self) -> (r: usize)
        requires
            self.wf(),
        ensures
            r == self@.len(),
    {
        self.ids.len()
    }

    /// The handle of the `i`th attached tunnel, by which the caller tells
    /// whether it is still alive.
    pub fn handle_at(&self, i: usize) -> (r: &W)
        requires
            self.wf(),
            i < self@.len(),
        ensures
            *r == self.handles()[i as int],
    {
        &self.handles[i]
    }

    /// Drops the tunnels that are gone, then marks `id` attached unless it
    /// already is. Returns whether it was newly marked: a tunnel is attached
    /// once however often it is offered.
    pub fn try_mark_attached(&mut self, id: u64, handle: W, alive: &Vec<bool>) -> (r: bool)
        requires
            old(self).wf(),
            alive@.len() == old(self)@.len(),
        ensures
            final(self).wf(),
            r == !spec_still_attached(old(self)@, alive@).contains(id),
            r ==> final(self)@ == spec_still_attached(old(self)@, alive@).push(id),
            !r ==> final(self)@ == spec_still_attached(old(self)@, alive@),
            r ==> final(self).handles() == spec_still_attached(old(self).handles(), alive@).push(
                handle,
            ),
            !r ==> final(self).handles() == spec_still_attached(old(self).handles(), alive@),
    {
        let n = self.ids.len();
        let mut old_ids: Vec<u64> = Vec::new();
        let mut old_handles: Vec<W> = Vec::new();
        std::mem::swap(&mut old_ids, &mut self.ids);
        std::mem::swap(&mut old_handles, &mut self.handles);
        let ghost ids0 = old_ids@;
        let ghost handles0 = old_handles@;
        // Move the live entries back in their order.
        let mut kept_ids: Vec<u64> = Vec::new();
        let mut kept_handles: Vec<W> = Vec::new();
        let mut i: usize = 0;
        while i < n
            invariant
                n == ids0.len(),
                alive@.len() == n,
                i <= n,
                old_ids@ == ids0,
                handles0.len() == n,
                old_handles@ == handles0.skip(i as int),
                kept_handles@ == spec_still_attached(handles0.take(i as int), alive@.take(i as int)),
                kept_ids@ == spec_still_attached(ids0.take(i as int), alive@.take(i as int)),
            decreases n - i,
        {
            assert(ids0.take(i as int + 1).drop_last() =~= ids0.take(i as int));
            assert(alive@.take(i as int + 1).drop_last() =~= alive@.take(i as int));
            assert(handles0.take(i as int + 1).drop_last() =~= handles0.take(i as int));
            assert(handles0.skip(i as int).drop_first() =~= handles0.skip(i as int + 1));
            let h = old_handles.remove(0);
            if alive[i] {
                kept_ids.push(old_ids[i]);
                kept_handles.push(h);
            }
            i = i + 1;
        }
        assert(ids0.take(n as int) =~= ids0);
        assert(alive@.take(n as int) =~= alive@);
        assert(handles0.take(n as int) =~= handles0);
        proof {
            lemma_still_attached_len(ids0, handles0, alive@);
        }
        self.ids = kept_ids;
        self.handles = kept_handles;
        let ghost kept = self.ids@;
        let mut j: usize = 0;
        let m = self.ids.len();
        while j < m
            invariant
                m == self.ids@.len(),
                self.ids@ == kept,
                kept == spec_still_attached(ids0, alive@),
                ids0 == old(self)@,
                handles0 == old(self).handles(),
                self.handles@ == spec_still_attached(handles0, alive@),
                self.handles@.len() == m,
                j <= m,
                forall|k: int| 0 <= k < j ==> self.ids@[k] != id,
            decreases m - j,
        {
            if self.ids[j] == id {
                assert(kept[j as int] == id);
                return false;
            }
            j = j + 1;
        }
        self.ids.push(id);
        self.handles.push(handle);
        true
    }
}

/// While every attached tunnel is alive, none is dropped.
pub proof fn lemma_all_alive_kept(ids: Seq<u64>)
    ensures
        spec_still_attached(ids, Seq::new(ids.len(), |i: int| true)) == ids,
    decreases ids.len(),
{
    if ids.len() > 0 {
        let alive = Seq::new(ids.len(), |i: int| true);
        assert(alive.drop_last() =~= Seq::new(ids.drop_last().len(), |i: int| true));
        lemma_all_alive_kept(ids.drop_last());
        assert(ids.drop_last().push(ids.last()) =~= ids);
    }
}

/// A tunnel is attached once: after it has been offered, offering it again
/// while every attached tunnel is still alive is refused, and the attached
/// set stays as it was.
pub proof fn lemma_attached_once(ids: Seq<u64>, alive: Seq<bool>, id: u64)
    requires
        alive.len() == ids.len(),
    ensures
        ({
            let kept = spec_still_attached(ids, alive);
            let after = if kept.contains(id) {
                kept
            } else {
                kept.push(id)
            };
            let again = spec_still_attached(after, Seq::new(after.len(), |i: int| true));
            &&& after.contains(id)
            &&& again.contains(id)
            &&& again == after
        }),
{
    let kept = spec_still_attached(ids, alive);
    let after = if kept.contains(id) {
        kept
    } else {
        kept.push(id)
    };
    if !kept.contains(id) {
        assert(after[kept.len() as int] == id);
    }
    lemma_all_alive_kept(after);
}

} // verus!
