//! Semaphores.

use vstd::prelude::*;

use crate::coroutine::{Handle, HandleList, State};
use crate::runtime::processor::Processor;

verus! {

/// All of these are parked.
pub open spec fn all_parked(waiting: Seq<Handle>) -> bool {
    forall|i: int| 0 <= i < waiting.len() ==> (#[trigger] waiting[i]).spec_state() == State::Parked
}

/// A call on a semaphore, with its outcome.
pub enum SemaphoreUse {
    /// A coroutine of a processor, seen before and after, wanted a permit.
    Acquire(Processor, Processor, bool),
    /// Somebody tried to get a permit.
    TryAcquire(bool),
    /// A permit came back.
    Release(Option<Handle>),
}

/// A semaphore: the number of permits that can be had, and the coroutines that wait for one.
pub struct Semaphore {
    count: usize,
    waiting: HandleList,
}

impl Semaphore {
    /// The number of permits that can be had.
    pub closed spec fn permits(&self) -> usize {
        self.count
    }

    /// The coroutines that wait for a permit.
    pub closed spec fn waiting(&self) -> Seq<Handle> {
        self.waiting@
    }

    /// Nobody waits while there is a permit, and whoever waits is parked.
    pub open spec fn wf(&self) -> bool {
        &&& self.permits() > 0 ==> self.waiting().len() == 0
        &&& all_parked(self.waiting())
    }

    /// A semaphore with so many permits.
    pub fn new(count: usize) -> (sema: Semaphore)
        ensures
            sema.wf(),
            sema.permits() == count,
            sema.waiting() == Seq::<Handle>::empty(),
    {
        Semaphore { count, waiting: HandleList::new() }
    }

    /// What happens when the coroutine of a processor wants a permit.
    pub open spec fn acquired(
        self,
        after: Semaphore,
        p_before: Processor,
        p_after: Processor,
        acquired: bool,
    ) -> bool {
        if self.permits() > 0 {
            &&& acquired
            &&& after.permits() == self.permits() - 1
            &&& after.waiting() == self.waiting()
            &&& p_after == p_before
        } else {
            &&& !acquired
            &&& after.permits() == 0
            &&& after.waiting().len() == self.waiting().len() + 1
            &&& after.waiting().drop_last() == self.waiting()
            &&& after.waiting().last().moved_to(p_before.current_coro->0, State::Parked)
            &&& p_after.same_but_current(p_before)
            &&& p_after.current_coro is None
        }
    }

    /// Semaphore acquire (or down, P). If there is no permit the coroutine of the processor is
    /// parked, and has one when it is made ready again.
    pub fn acquire(&mut self, p: &mut Processor) -> (acquired: bool)
        requires
            old(self).wf(),
            old(self).permits() == 0 ==> old(p).current_coro is Some,
        ensures
            final(self).wf(),
            old(self).acquired(*final(self), *old(p), *final(p), acquired),
            old(self).used(*final(self), SemaphoreUse::Acquire(*old(p), *final(p), acquired)),
    {
        if self.count > 0 {
            self.count = self.count - 1;
            true
        } else {
            let coro = p.park();
            self.waiting.push_back(coro);
            proof {
                assert(self.waiting().drop_last() =~= old(self).waiting());
            }
            false
        }
    }

    /// Semaphore acquire (or down, P). Returns at once, no matter whether there is a permit.
    pub fn try_acquire(&mut self) -> (acquired: bool)
        requires
            old(self).wf(),
        ensures
            final(self).wf(),
            acquired == (old(self).permits() > 0),
            final(self).permits() == (if acquired {
                old(self).permits() - 1
            } else {
                0
            }),
            final(self).waiting() == old(self).waiting(),
            old(self).used(*final(self), SemaphoreUse::TryAcquire(acquired)),
    {
        if self.count > 0 {
            self.count = self.count - 1;
            true
        } else {
            false
        }
    }

    /// The number of permits that can be had at once.
    pub fn available(&self) -> (count: usize)
        ensures
            count == self.permits(),
    {
        self.count
    }

    /// What happens when a permit comes back: the coroutine that has waited longest gets it, and
    /// only if there is none it can be had by others.
    pub open spec fn released(self, after: Semaphore, ready: Option<Handle>) -> bool {
        if self.waiting().len() > 0 {
            &&& ready == Some(self.waiting()[0])
            &&& after.permits() == self.permits()
            &&& after.waiting() == self.waiting().drop_first()
        } else {
            &&& ready is None
            &&& after.permits() == self.permits() + 1
            &&& after.waiting() == self.waiting()
        }
    }

    /// Semaphore release (or up, V). If somebody waits, the coroutine is to be made ready.
    pub fn release(&mut self) -> (ready: Option<Handle>)
        requires
            old(self).wf(),
            old(self).permits() < usize::MAX,
        ensures
            final(self).wf(),
            old(self).released(*final(self), ready),
            old(self).used(*final(self), SemaphoreUse::Release(ready)),
            ready matches Some(hdl) ==> hdl.spec_state() == State::Parked,
    {
        match self.waiting.pop_front() {
            Some(hdl) => {
                proof {
                    assert(self.waiting@ =~= old(self).waiting@.drop_first());
                }
                Some(hdl)
            },
            None => {
                self.count = self.count + 1;
                None
            },
        }
    }

    /// What a semaphore is before and after a call.
    pub open spec fn used(self, after: Semaphore, call: SemaphoreUse) -> bool {
        match call {
            SemaphoreUse::Acquire(p_before, p_after, acquired) => self.acquired(
                after,
                p_before,
                p_after,
                acquired,
            ),
            SemaphoreUse::TryAcquire(acquired) => {
                &&& acquired == (self.permits() > 0)
                &&& after.permits() == (if acquired {
                    self.permits() - 1
                } else {
                    0
                })
                &&& after.waiting() == self.waiting()
            },
            SemaphoreUse::Release(ready) => self.released(after, ready),
        }
    }

    /// A release undoes an acquire that did not have to wait.
    pub proof fn release_undoes_acquire(
        before: Semaphore,
        middle: Semaphore,
        after: Semaphore,
        p_before: Processor,
        p_after: Processor,
        ready: Option<Handle>,
    )
        requires
            before.wf(),
            before.acquired(middle, p_before, p_after, true),
            middle.released(after, ready),
        ensures
            ready is None,
            after.permits() == before.permits(),
            after.waiting() == before.waiting(),
    {
    }

    /// A permit is never lost and never doubled: a release either wakes up exactly one that
    /// waits, or adds one permit.
    pub proof fn every_release_counts_once(before: Semaphore, after: Semaphore, ready: Option<Handle>)
        requires
            before.wf(),
            before.released(after, ready),
        ensures
            after.permits() - after.waiting().len() == before.permits() - before.waiting().len() + 1,
            ready is Some ==> after.permits() == before.permits(),
    {
    }

    /// Whoever waits first gets a permit first: the one that waits when nobody else does gets
    /// the next permit that comes back.
    pub proof fn first_come_first_served(
        before: Semaphore,
        middle: Semaphore,
        after: Semaphore,
        p_before: Processor,
        p_after: Processor,
        ready: Option<Handle>,
    )
        requires
            before.wf(),
            before.acquired(middle, p_before, p_after, false),
            middle.released(after, ready),
        ensures
            before.waiting().len() > 0 ==> ready == Some(before.waiting()[0]),
            before.waiting().len() == 0 ==> ready is Some && ready->0.moved_to(
                p_before.current_coro->0,
                State::Parked,
            ),
    {
        if before.waiting().len() > 0 {
            assert(middle.waiting()[0] == middle.waiting().drop_last()[0]);
        }
    }
}

/// What a semaphore was at first and after each call.
pub open spec fn semaphore_history(semas: Seq<Semaphore>, calls: Seq<SemaphoreUse>) -> bool {
    &&& semas.len() == calls.len() + 1
    &&& forall|i: int| 0 <= i < semas.len() ==> (#[trigger] semas[i]).wf()
    &&& forall|i: int| 0 <= i < calls.len() ==> semas[i].used(semas[i + 1], #[trigger] calls[i])
}

/// The number of permits that were given away: at once, or to one that had waited for it.
pub open spec fn given_away(calls: Seq<SemaphoreUse>) -> nat
    decreases calls.len(),
{
    if calls.len() == 0 {
        0
    } else {
        given_away(calls.drop_last()) + match calls.last() {
            SemaphoreUse::Acquire(_, _, true) => 1nat,
            SemaphoreUse::TryAcquire(true) => 1nat,
            SemaphoreUse::Release(Some(_)) => 1nat,
            _ => 0nat,
        }
    }
}

/// The number of permits that came back.
pub open spec fn came_back(calls: Seq<SemaphoreUse>) -> nat
    decreases calls.len(),
{
    if calls.len() == 0 {
        0
    } else {
        came_back(calls.drop_last()) + if calls.last() is Release {
            1nat
        } else {
            0nat
        }
    }
}

/// The numbers of the coroutines that had to wait, in this order.
pub open spec fn had_to_wait(calls: Seq<SemaphoreUse>) -> Seq<usize>
    decreases calls.len(),
{
    if calls.len() == 0 {
        Seq::empty()
    } else {
        let before = had_to_wait(calls.drop_last());
        match calls.last() {
            SemaphoreUse::Acquire(p, _, false) => before.push(p.current_coro->0.spec_id()),
            _ => before,
        }
    }
}

/// The numbers of the coroutines that got a permit after they had waited, in this order.
pub open spec fn got_one(calls: Seq<SemaphoreUse>) -> Seq<usize>
    decreases calls.len(),
{
    if calls.len() == 0 {
        Seq::empty()
    } else {
        let before = got_one(calls.drop_last());
        match calls.last() {
            SemaphoreUse::Release(Some(hdl)) => before.push(hdl.spec_id()),
            _ => before,
        }
    }
}

/// The numbers of coroutines.
pub open spec fn ids_of(handles: Seq<Handle>) -> Seq<usize> {
    handles.map_values(|hdl: Handle| hdl.spec_id())
}

/// However a semaphore is used, the permits that were given away and those that can still be had
/// are those that it had at first and those that came back: none is lost or doubled. So there are
/// never more holders than permits. Those who had to wait get theirs in the order in which they
/// came, and nobody waits while there is a permit.
pub proof fn permits_are_kept(semas: Seq<Semaphore>, calls: Seq<SemaphoreUse>)
    requires
        semaphore_history(semas, calls),
        semas[0].waiting() == Seq::<Handle>::empty(),
    ensures
        given_away(calls) + semas.last().permits() == semas[0].permits() + came_back(calls),
        got_one(calls) + ids_of(semas.last().waiting()) == had_to_wait(calls),
        semas.last().waiting().len() > 0 ==> semas.last().permits() == 0,
    decreases calls.len(),
{
    if calls.len() == 0 {
        assert(got_one(calls) + ids_of(semas.last().waiting()) =~= had_to_wait(calls));
    } else {
        let n = calls.len() - 1;
        let earlier = calls.drop_last();
        let so_far = semas.drop_last();
        assert forall|i: int| 0 <= i < earlier.len() implies so_far[i].used(
            so_far[i + 1],
            #[trigger] earlier[i],
        ) by {
            assert(calls[i] == earlier[i]);
        }
        assert forall|i: int| 0 <= i < so_far.len() implies (#[trigger] so_far[i]).wf() by {
            assert(semas[i].wf());
        }
        permits_are_kept(so_far, earlier);
        let before = semas[n];
        let after = semas[n + 1];
        assert(before.wf() && after.wf());
        assert(before.used(after, calls[n]));
        assert(so_far.last() == before && semas.last() == after);
        match calls[n] {
            SemaphoreUse::Acquire(p, _, false) => {
                let id = p.current_coro->0.spec_id();
                assert(after.waiting() =~= before.waiting().push(after.waiting().last()));
                assert(ids_of(after.waiting()) =~= ids_of(before.waiting()).push(id));
                assert(got_one(earlier) + ids_of(after.waiting()) =~= (got_one(earlier) + ids_of(
                    before.waiting(),
                )).push(id));
            },
            SemaphoreUse::Release(Some(hdl)) => {
                let id = hdl.spec_id();
                assert(seq![id] + ids_of(after.waiting()) =~= ids_of(before.waiting()));
                assert(got_one(earlier).push(id) + ids_of(after.waiting()) =~= got_one(earlier)
                    + ids_of(before.waiting()));
            },
            _ => {},
        }
    }
}

/// Whoever gets a permit at once goes on as if nothing had happened. Whoever does not is taken off
/// its processor, which else has what it had.
pub proof fn only_who_gets_no_permit_stops(
    before: Semaphore,
    after: Semaphore,
    p_before: Processor,
    p_after: Processor,
    acquired: bool,
)
    requires
        before.acquired(after, p_before, p_after, acquired),
    ensures
        acquired <==> before.permits() > 0,
        acquired ==> p_after == p_before && after.permits() + 1 == before.permits(),
        !acquired ==> {
            &&& p_after.current_coro is None
            &&& p_after.queue == p_before.queue
            &&& p_after.run_next == p_before.run_next
            &&& p_after.stack_pool == p_before.stack_pool
            &&& after.permits() == before.permits()
        },
{
}

} // verus!
