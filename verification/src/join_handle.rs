//! Handles through which the result of a coroutine is handed over.

use vstd::prelude::*;

use crate::coroutine::{Handle, State};
use crate::runtime::processor::Processor;
use crate::sync::mono_barrier::{BarrierState, MonoBarrier, Notified, Waiting};

verus! {

/// How a join goes on.
pub enum Join<R> {
    /// The coroutine has ended with this result.
    Done(R),
    /// The coroutine that joins is parked, and takes the result when it is made ready.
    Parked,
    /// The thread that joins has to wait, and goes on with `woken` when it is woken up.
    Thread,
}

/// A call on either end of a join handle, with its outcome.
pub enum JoinUse<R> {
    /// The result was handed over.
    Push(R, Notified),
    /// Somebody joined.
    Pop(Join<R>),
    /// A thread that joins was woken up.
    Woken(Join<R>),
    /// The coroutine that joins took the result.
    Take(R),
}

/// What the two ends of a join handle share: the result, once it is there.
pub struct JoinHandleInner<R> {
    barrier: MonoBarrier,
    data: Option<R>,
}

impl<R> JoinHandleInner<R> {
    /// The result, from when it was handed over until it was taken.
    pub closed spec fn spec_data(&self) -> Option<R> {
        self.data
    }

    /// What is going on at the barrier.
    pub closed spec fn barrier_state(&self) -> BarrierState {
        self.barrier.spec_state()
    }

    /// Once somebody may pass, the result is there.
    pub open spec fn wf(&self) -> bool {
        self.barrier_state() is Ready ==> self.spec_data() is Some
    }

    /// What the two ends share before and after a call.
    pub open spec fn used(self, after: JoinHandleInner<R>, call: JoinUse<R>) -> bool {
        match call {
            JoinUse::Push(result, notified) => {
                &&& after.spec_data() == Some(result)
                &&& after.barrier_state() == MonoBarrier::after_notify(self.barrier_state())
                &&& notified == (match self.barrier_state() {
                    BarrierState::Coroutine(coro) => Notified::Coroutine(coro),
                    BarrierState::Thread => Notified::Thread,
                    _ => Notified::Nobody,
                })
            },
            JoinUse::Pop(Join::Done(result)) | JoinUse::Woken(Join::Done(result)) => {
                &&& self.barrier_state() is Ready
                &&& self.spec_data() == Some(result)
                &&& after.spec_data() is None
                &&& after.barrier_state() is Empty
            },
            JoinUse::Pop(Join::Parked) => {
                &&& self.barrier_state() is Empty
                &&& after.spec_data() == self.spec_data()
                &&& after.barrier_state() is Coroutine
            },
            JoinUse::Pop(Join::Thread) => {
                &&& self.barrier_state() is Empty
                &&& after.spec_data() == self.spec_data()
                &&& after.barrier_state() is Thread
            },
            JoinUse::Woken(Join::Thread) => self.barrier_state() is Thread && after == self,
            JoinUse::Woken(Join::Parked) => false,
            JoinUse::Take(result) => {
                &&& self.spec_data() == Some(result)
                &&& after.spec_data() is None
                &&& after.barrier_state() == self.barrier_state()
            },
        }
    }

    /// No result yet, and nobody waits for it.
    pub fn new() -> (inner: JoinHandleInner<R>)
        ensures
            inner.wf(),
            inner.spec_data() is None,
            inner.barrier_state() is Empty,
    {
        JoinHandleInner { barrier: MonoBarrier::new(), data: None }
    }

    /// Hands the result over. Whoever waits for it is to be woken up.
    pub fn push(&mut self, result: R) -> (notified: Notified)
        requires
            old(self).wf(),
        ensures
            final(self).wf(),
            final(self).spec_data() == Some(result),
            final(self).barrier_state() == MonoBarrier::after_notify(old(self).barrier_state()),
            notified == (match old(self).barrier_state() {
                BarrierState::Coroutine(coro) => Notified::Coroutine(coro),
                BarrierState::Thread => Notified::Thread,
                _ => Notified::Nobody,
            }),
            old(self).used(*final(self), JoinUse::Push(result, notified)),
    {
        self.data = Some(result);
        self.barrier.notify()
    }

    /// Waits for the result and takes it.
    pub fn pop(&mut self, p: Option<&mut Processor>) -> (join: Join<R>)
        requires
            old(self).wf(),
            old(self).barrier_state() is Ready || old(self).barrier_state() is Empty,
            p matches Some(p) ==> p.current_coro is Some,
        ensures
            final(self).wf(),
            match old(self).barrier_state() {
                BarrierState::Ready => {
                    &&& join == Join::Done(old(self).spec_data()->0)
                    &&& final(self).spec_data() is None
                    &&& final(self).barrier_state() is Empty
                    &&& p matches Some(p) ==> *final(p) == *p
                },
                _ => {
                    &&& final(self).spec_data() == old(self).spec_data()
                    &&& match p {
                        Some(p) => {
                            &&& join is Parked
                            &&& final(self).barrier_state() matches BarrierState::Coroutine(coro)
                                && coro.moved_to(p.current_coro->0, State::Parked)
                            &&& final(p).same_but_current(*p)
                            &&& final(p).current_coro is None
                        },
                        None => {
                            &&& join is Thread
                            &&& final(self).barrier_state() is Thread
                        },
                    }
                },
            },
            old(self).used(*final(self), JoinUse::Pop(join)),
    {
        match self.barrier.wait(p) {
            Ok(Waiting::Done) => Join::Done(self.take()),
            Ok(Waiting::Parked) => Join::Parked,
            _ => Join::Thread,
        }
    }

    /// Goes on with the wait of a thread that was woken up: it takes the result if that is there,
    /// and has to wait on if not.
    pub fn woken(&mut self) -> (join: Join<R>)
        requires
            old(self).wf(),
            old(self).barrier_state() is Ready || old(self).barrier_state() is Thread,
        ensures
            final(self).wf(),
            old(self).barrier_state() is Ready ==> {
                &&& join == Join::Done(old(self).spec_data()->0)
                &&& final(self).spec_data() is None
                &&& final(self).barrier_state() is Empty
            },
            old(self).barrier_state() is Thread ==> join is Thread && *final(self) == *old(self),
            old(self).used(*final(self), JoinUse::Woken(join)),
    {
        match self.barrier.woken() {
            Ok(Waiting::Done) => Join::Done(self.take()),
            _ => Join::Thread,
        }
    }

    /// Takes the result, which is there when the coroutine that joins was woken up.
    pub fn take(&mut self) -> (result: R)
        requires
            old(self).spec_data() is Some,
            !(old(self).barrier_state() is Ready),
        ensures
            final(self).wf(),
            result == old(self).spec_data()->0,
            final(self).spec_data() is None,
            final(self).barrier_state() == old(self).barrier_state(),
            old(self).used(*final(self), JoinUse::Take(result)),
    {
        self.data.take().unwrap()
    }
}

/// What the two ends of a join handle shared at first and after each call.
pub open spec fn join_history<R>(inners: Seq<JoinHandleInner<R>>, calls: Seq<JoinUse<R>>) -> bool {
    &&& inners.len() == calls.len() + 1
    &&& forall|i: int| 0 <= i < calls.len() ==> inners[i].used(inners[i + 1], #[trigger] calls[i])
}

/// The result that a call gave to the one that joins, if it did.
pub open spec fn joined<R>(call: JoinUse<R>) -> Option<R> {
    match call {
        JoinUse::Pop(Join::Done(result)) => Some(result),
        JoinUse::Woken(Join::Done(result)) => Some(result),
        JoinUse::Take(result) => Some(result),
        _ => None,
    }
}

/// The number of results that were handed over.
pub open spec fn pushed<R>(calls: Seq<JoinUse<R>>) -> nat
    decreases calls.len(),
{
    if calls.len() == 0 {
        0
    } else {
        pushed(calls.drop_last()) + if calls.last() is Push {
            1nat
        } else {
            0nat
        }
    }
}

/// The number of results that were received.
pub open spec fn received<R>(calls: Seq<JoinUse<R>>) -> nat
    decreases calls.len(),
{
    if calls.len() == 0 {
        0
    } else {
        received(calls.drop_last()) + if joined(calls.last()) is Some {
            1nat
        } else {
            0nat
        }
    }
}

/// A result is received once at most: through a new join handle, never more results are received
/// than were handed over. What is received is the result that was handed over last.
pub proof fn result_is_received_once<R>(inners: Seq<JoinHandleInner<R>>, calls: Seq<JoinUse<R>>)
    requires
        join_history(inners, calls),
        inners[0].spec_data() is None,
    ensures
        received(calls) <= pushed(calls),
        inners.last().spec_data() is Some ==> received(calls) < pushed(calls),
        inners.last().spec_data() matches Some(result) ==> exists|i: int|
            {
                &&& 0 <= i < calls.len()
                &&& #[trigger] calls[i] matches JoinUse::Push(pushed, _) && pushed == result
                &&& forall|k: int| i < k < calls.len() ==> joined(#[trigger] calls[k]) is None
                    && !(calls[k] is Push)
            },
    decreases calls.len(),
{
    if calls.len() > 0 {
        let n = calls.len() - 1;
        let earlier = calls.drop_last();
        let so_far = inners.drop_last();
        assert forall|i: int| 0 <= i < earlier.len() implies so_far[i].used(
            so_far[i + 1],
            #[trigger] earlier[i],
        ) by {
            assert(calls[i] == earlier[i]);
        }
        result_is_received_once(so_far, earlier);
        let before = inners[n];
        let after = inners[n + 1];
        assert(before.used(after, calls[n]));
        assert(so_far.last() == before && inners.last() == after);
        if let Some(result) = after.spec_data() {
            if calls[n] is Push {
                assert(calls[n] matches JoinUse::Push(pushed, _) && pushed == result);
            } else {
                assert(joined(calls[n]) is None);
                assert(before.spec_data() == Some(result));
                let i = choose|i: int|
                    {
                        &&& 0 <= i < earlier.len()
                        &&& #[trigger] earlier[i] matches JoinUse::Push(pushed, _) && pushed
                            == result
                        &&& forall|k: int| i < k < earlier.len() ==> joined(
                            #[trigger] earlier[k],
                        ) is None && !(earlier[k] is Push)
                    };
                assert(calls[i] == earlier[i]);
                assert forall|k: int| i < k < calls.len() implies joined(#[trigger] calls[k]) is None
                    && !(calls[k] is Push) by {
                    if k < n {
                        assert(earlier[k] == calls[k]);
                    }
                }
            }
        }
    }
}

/// Whoever joins gets exactly the result that the coroutine ended with, no matter who comes first:
/// at once if the result is there, and else as soon as it is woken up for it.
pub proof fn join_gives_the_result<R>(
    first: JoinHandleInner<R>,
    second: JoinHandleInner<R>,
    third: JoinHandleInner<R>,
    last: JoinHandleInner<R>,
    result: R,
    notified: Notified,
    join: Join<R>,
    got: R,
)
    requires
        first.barrier_state() is Empty,
        (first.used(second, JoinUse::Push(result, notified)) && second.used(third, JoinUse::Pop(join))
            && last == third && join == Join::Done(got)) || (first.used(second, JoinUse::Pop(join))
            && second.used(third, JoinUse::Push(result, notified)) && (third.used(
            last,
            JoinUse::Take(got),
        ) || third.used(last, JoinUse::Woken(Join::Done(got))))),
    ensures
        got == result,
        last.spec_data() is None,
        second.barrier_state() matches BarrierState::Coroutine(coro) ==> notified
            == Notified::Coroutine(coro),
        second.barrier_state() is Thread ==> notified is Thread,
        second.barrier_state() is Ready ==> notified is Nobody,
{
}

/// Whoever joins after the coroutine has ended does not wait, and gets the result. It is not there
/// for anyone else then: who joins again has to wait.
pub proof fn result_that_is_there_is_not_waited_for<R>(
    first: JoinHandleInner<R>,
    second: JoinHandleInner<R>,
    third: JoinHandleInner<R>,
    last: JoinHandleInner<R>,
    result: R,
    notified: Notified,
    join: Join<R>,
    again: Join<R>,
)
    requires
        first.barrier_state() is Empty,
        first.used(second, JoinUse::Push(result, notified)),
        second.used(third, JoinUse::Pop(join)),
        third.used(last, JoinUse::Pop(again)),
    ensures
        notified is Nobody,
        join == Join::Done(result),
        again is Parked || again is Thread,
{
}

/// Whoever joins before the coroutine has ended waits, and is the one that is told when the result
/// is handed over: a coroutine is handed out once, to take the result, and a thread gets the result
/// when it is woken up. Whoever joins after that has to wait.
pub proof fn whoever_joins_early_is_told<R>(
    first: JoinHandleInner<R>,
    second: JoinHandleInner<R>,
    third: JoinHandleInner<R>,
    fourth: JoinHandleInner<R>,
    last: JoinHandleInner<R>,
    join: Join<R>,
    result: R,
    notified: Notified,
    taken: JoinUse<R>,
    again: Join<R>,
)
    requires
        first.barrier_state() is Empty,
        first.used(second, JoinUse::Pop(join)),
        second.used(third, JoinUse::Push(result, notified)),
        third.used(fourth, taken),
        join is Parked ==> taken is Take,
        join is Thread ==> taken is Woken,
        fourth.used(last, JoinUse::Pop(again)),
    ensures
        join is Parked || join is Thread,
        join is Parked ==> second.barrier_state() is Coroutine && notified == Notified::Coroutine(
            second.barrier_state()->Coroutine_0,
        ),
        join is Thread ==> second.barrier_state() is Thread && notified is Thread,
        joined(taken) == Some(result),
        again is Parked || again is Thread,
{
}

} // verus!
