//! Mutexes for coroutines.

use vstd::prelude::*;

use crate::coroutine::{Handle, State};
use crate::runtime::processor::Processor;
use crate::sync::semaphore::Semaphore;

verus! {

/// The outcome of locking: a guard.
pub type LockResult<G> = Result<G, PoisonError<G>>;

/// The outcome of trying to lock: a guard if the mutex was not locked.
pub type TryLockResult<G> = Result<G, PoisonError<()>>;

/// A mutex. The data is in it while it is not locked.
pub struct Mutex<T> {
    sema: Semaphore,
    data: Option<T>,
}

/// Stands for a locked mutex and holds its data.
pub struct Guard<T> {
    data: T,
}

impl<T> Guard<T> {
    /// The data.
    pub closed spec fn spec_data(&self) -> T {
        self.data
    }

    fn new(data: T) -> (guard: Guard<T>)
        ensures
            guard.spec_data() == data,
    {
        Guard { data }
    }

    /// The data.
    pub fn deref(&self) -> (data: &T)
        ensures
            *data == self.spec_data(),
    {
        &self.data
    }

    /// The data, to be changed.
    pub fn deref_mut(&mut self) -> (data: &mut T)
        ensures
            *data == old(self).spec_data(),
            *final(data) == final(self).spec_data(),
    {
        &mut self.data
    }
}

impl<T> Mutex<T> {
    /// The data, while there is no guard.
    pub closed spec fn spec_data(&self) -> Option<T> {
        self.data
    }

    /// The mutex is not locked, nor promised to one that was woken up.
    pub closed spec fn is_free(&self) -> bool {
        self.sema.permits() > 0
    }

    /// The coroutines that wait for the mutex.
    pub closed spec fn waiting(&self) -> Seq<Handle> {
        self.sema.waiting()
    }

    /// While the mutex is free, nobody waits and the data is there.
    pub closed spec fn wf(&self) -> bool {
        &&& self.sema.wf()
        &&& self.sema.permits() <= 1
        &&& self.sema.permits() == 1 ==> self.data is Some
    }

    /// A mutex that is not locked.
    pub fn new(data: T) -> (mutex: Mutex<T>)
        ensures
            mutex.wf(),
            mutex.is_free(),
            mutex.spec_data() == Some(data),
            mutex.waiting() == Seq::<Handle>::empty(),
    {
        Mutex { sema: Semaphore::new(1), data: Some(data) }
    }

    /// What a call of `lock` does: a free mutex is locked, and else the coroutine is parked.
    pub open spec fn lock_called(
        self,
        after: Mutex<T>,
        p_before: Processor,
        p_after: Processor,
        guard: Option<LockResult<Guard<T>>>,
    ) -> bool {
        &&& !after.is_free()
        &&& if self.is_free() {
            &&& guard matches Some(Ok(guard)) && Some(guard.spec_data()) == self.spec_data()
            &&& after.spec_data() is None
            &&& after.waiting() == self.waiting()
            &&& p_after == p_before
        } else {
            &&& guard is None
            &&& after.spec_data() == self.spec_data()
            &&& after.waiting().len() == self.waiting().len() + 1
            &&& after.waiting().drop_last() == self.waiting()
            &&& after.waiting().last().moved_to(p_before.current_coro->0, State::Parked)
            &&& p_after.same_but_current(p_before)
            &&& p_after.current_coro is None
        }
    }

    /// What a call of `locked` does: the data goes to the guard.
    pub open spec fn locked_called(self, after: Mutex<T>, guard: LockResult<Guard<T>>) -> bool {
        &&& !after.is_free()
        &&& guard matches Ok(guard) && Some(guard.spec_data()) == self.spec_data()
        &&& after.spec_data() is None
        &&& after.waiting() == self.waiting()
    }

    /// What a call of `try_lock` does: a free mutex is locked, and else nothing happens.
    pub open spec fn try_lock_called(
        self,
        after: Mutex<T>,
        guard: TryLockResult<Guard<T>>,
    ) -> bool {
        &&& !after.is_free()
        &&& after.waiting() == self.waiting()
        &&& match guard {
            Ok(guard) => {
                &&& self.is_free()
                &&& Some(guard.spec_data()) == self.spec_data()
                &&& after.spec_data() is None
            },
            Err(_) => {
                &&& !self.is_free()
                &&& after.spec_data() == self.spec_data()
            },
        }
    }

    /// What a call of `unlock` does: the data goes back, and the mutex is free unless somebody
    /// waits for it.
    pub open spec fn unlock_called(
        self,
        after: Mutex<T>,
        guard: Guard<T>,
        ready: Option<Handle>,
    ) -> bool {
        &&& after.spec_data() == Some(guard.spec_data())
        &&& if self.waiting().len() > 0 {
            &&& ready == Some(self.waiting()[0])
            &&& ready->0.spec_state() == State::Parked
            &&& !after.is_free()
            &&& after.waiting() == self.waiting().drop_first()
        } else {
            &&& ready is None
            &&& after.is_free()
            &&& after.waiting() == self.waiting()
        }
    }

    /// Acquires the mutex. If it is not free the coroutine of the processor is parked; when it
    /// is made ready again, the mutex is its own, and `locked` gives the guard.
    pub fn lock(&mut self, p: &mut Processor) -> (guard: Option<LockResult<Guard<T>>>)
        requires
            old(self).wf(),
            !old(self).is_free() ==> old(p).current_coro is Some,
        ensures
            final(self).wf(),
            old(self).lock_called(*final(self), *old(p), *final(p), guard),
    {
        if self.sema.acquire(p) {
            Some(self.locked())
        } else {
            None
        }
    }

    /// The guard of the coroutine whose own the mutex is.
    pub fn locked(&mut self) -> (guard: LockResult<Guard<T>>)
        requires
            old(self).wf(),
            !old(self).is_free(),
            old(self).spec_data() is Some,
        ensures
            final(self).wf(),
            old(self).locked_called(*final(self), guard),
    {
        Ok(Guard::new(self.data.take().unwrap()))
    }

    /// Tries to acquire the mutex, and returns at once.
    pub fn try_lock(&mut self) -> (guard: TryLockResult<Guard<T>>)
        requires
            old(self).wf(),
        ensures
            final(self).wf(),
            old(self).try_lock_called(*final(self), guard),
    {
        if self.sema.try_acquire() {
            Ok(Guard::new(self.data.take().unwrap()))
        } else {
            Err(PoisonError::new(()))
        }
    }

    /// What dropping the guard does: the data goes back, and the coroutine that has waited
    /// longest, if there is one, is to be made ready, and has the mutex.
    pub fn unlock(&mut self, guard: Guard<T>) -> (ready: Option<Handle>)
        requires
            old(self).wf(),
            !old(self).is_free(),
            old(self).spec_data() is None,
        ensures
            final(self).wf(),
            old(self).unlock_called(*final(self), guard, ready),
    {
        self.data = Some(guard.data);
        self.sema.release()
    }

    /// There is never more than one guard: once somebody has it, neither `lock` nor `try_lock`
    /// gives another one, and the data stays where it is.
    pub proof fn one_guard_at_a_time(
        before: Mutex<T>,
        held: Mutex<T>,
        p: Processor,
        first: LockResult<Guard<T>>,
        after_lock: Mutex<T>,
        p_before: Processor,
        p_after: Processor,
        second: Option<LockResult<Guard<T>>>,
        after_try: Mutex<T>,
        third: TryLockResult<Guard<T>>,
    )
        requires
            before.lock_called(held, p, p, Some(first)),
            held.lock_called(after_lock, p_before, p_after, second),
            held.try_lock_called(after_try, third),
        ensures
            second is None,
            third is Err,
            after_lock.spec_data() is None,
            after_try.spec_data() is None,
    {
    }

    /// Whoever locks the mutex next gets the data as the guard before left it, no matter whether
    /// it comes to a free mutex or was waiting for it.
    pub proof fn next_guard_has_the_data(
        held: Mutex<T>,
        left: Mutex<T>,
        guard: Guard<T>,
        ready: Option<Handle>,
        after: Mutex<T>,
        p: Processor,
        next: LockResult<Guard<T>>,
    )
        requires
            held.unlock_called(left, guard, ready),
            ready is None ==> left.lock_called(after, p, p, Some(next)),
            ready is Some ==> left.locked_called(after, next),
        ensures
            next matches Ok(next) && next.spec_data() == guard.spec_data(),
    {
    }
}

/// Whoever has to wait for a mutex waits behind all others, and when the mutex is unlocked, the one
/// that has waited longest gets it: nobody who comes meanwhile can have it first. Only if nobody
/// waits the mutex is free, and the next one to come gets it at once, with the data.
pub proof fn mutex_is_handed_over_in_order<T>(
    held: Mutex<T>,
    waited: Mutex<T>,
    p_before: Processor,
    p_after: Processor,
    guard: Guard<T>,
    left: Mutex<T>,
    ready: Option<Handle>,
    after: Mutex<T>,
    outcome: TryLockResult<Guard<T>>,
)
    requires
        !held.is_free(),
        waited == held || held.lock_called(waited, p_before, p_after, None),
        waited.unlock_called(left, guard, ready),
        left.try_lock_called(after, outcome),
    ensures
        waited != held ==> {
            &&& waited.waiting().len() == held.waiting().len() + 1
            &&& waited.waiting().take(held.waiting().len() as int) == held.waiting()
            &&& waited.waiting().last().spec_id() == p_before.current_coro->0.spec_id()
            &&& p_after.current_coro is None
        },
        waited.waiting().len() > 0 ==> {
            &&& ready is Some
            &&& waited.waiting() == seq![ready->0] + left.waiting()
            &&& outcome is Err
            &&& after.waiting() == left.waiting()
            &&& after.spec_data() == Some(guard.spec_data())
        },
        waited.waiting().len() == 0 ==> {
            &&& ready is None
            &&& outcome matches Ok(next) && next.spec_data() == guard.spec_data()
            &&& after.spec_data() is None
        },
{
    if waited != held {
        assert(waited.waiting().take(held.waiting().len() as int)
            =~= waited.waiting().drop_last());
    }
    if waited.waiting().len() > 0 {
        assert(seq![ready->0] + left.waiting() =~= waited.waiting());
    }
}

/// After any attempt to lock it a mutex is not free. Whoever gets it at once goes on as if nothing had
/// happened; whoever does not is taken off its processor, which else has what it had, and is parked
/// until it is handed the mutex. Nobody comes or goes among those who wait but for this.
pub proof fn locked_mutex_is_not_free<T>(
    before: Mutex<T>,
    locked: Mutex<T>,
    p_before: Processor,
    p_after: Processor,
    guard: Option<LockResult<Guard<T>>>,
    tried: Mutex<T>,
    outcome: TryLockResult<Guard<T>>,
    taken: Mutex<T>,
    taken_guard: LockResult<Guard<T>>,
    left: Mutex<T>,
    last: Guard<T>,
    ready: Option<Handle>,
)
    requires
        before.lock_called(locked, p_before, p_after, guard),
        before.try_lock_called(tried, outcome),
        before.locked_called(taken, taken_guard),
        before.unlock_called(left, last, ready),
    ensures
        !locked.is_free() && !tried.is_free() && !taken.is_free(),
        guard is Some <==> before.is_free(),
        outcome is Ok <==> before.is_free(),
        guard is Some ==> p_after == p_before && locked.waiting() == before.waiting(),
        guard is None ==> {
            &&& p_after.current_coro is None
            &&& p_after.queue == p_before.queue
            &&& p_after.run_next == p_before.run_next
            &&& p_after.stack_pool == p_before.stack_pool
        },
        tried.waiting() == before.waiting(),
        taken.waiting() == before.waiting(),
        left.is_free() <==> before.waiting().len() == 0,
        left.is_free() ==> left.waiting() == before.waiting(),
        ready matches Some(hdl) ==> hdl.spec_state() == State::Parked,
{
}

/// The error of a lock that could not be had.
pub struct PoisonError<T> {
    guard: T,
}

impl<T> PoisonError<T> {
    /// What the error holds.
    pub closed spec fn spec_inner(&self) -> T {
        self.guard
    }

    /// An error that holds a guard.
    pub fn new(guard: T) -> (error: PoisonError<T>)
        ensures
            error.spec_inner() == guard,
    {
        PoisonError { guard }
    }

    /// What the error holds.
    pub fn into_inner(self) -> (guard: T)
        ensures
            guard == self.spec_inner(),
    {
        self.guard
    }

    /// What the error holds.
    pub fn get_ref(&self) -> (guard: &T)
        ensures
            *guard == self.spec_inner(),
    {
        &self.guard
    }

    /// What the error holds, to be changed.
    pub fn get_mut(&mut self) -> (guard: &mut T)
        ensures
            *guard == old(self).spec_inner(),
            *final(guard) == final(self).spec_inner(),
    {
        &mut self.guard
    }

    /// The error in words.
    pub fn description(&self) -> (text: &'static str)
        ensures
            text@ == "poisoned lock: another task failed inside"@,
    {
        "poisoned lock: another task failed inside"
    }
}

} // verus!
