//! Barriers at which one waits for another.

use vstd::prelude::*;

use crate::coroutine::{Handle, State};
use crate::runtime::processor::Processor;

verus! {

/// What is going on at a barrier.
pub enum BarrierState {
    /// Nobody waits, and nobody was here.
    Empty,
    /// Somebody was here already.
    Ready,
    /// A thread waits.
    Thread,
    /// A coroutine waits.
    Coroutine(Handle),
}

/// Why one cannot wait.
#[derive(Debug, Clone, Copy, PartialEq, Eq, Structural)]
pub enum MonoBarrierError {
    /// Somebody else waits already.
    Occupied,
    /// A thread panicked while it held the lock of the barrier.
    PoisonError,
}

/// How a wait goes on.
#[derive(Debug, Clone, Copy, PartialEq, Eq, Structural)]
pub enum Waiting {
    /// It is over.
    Done,
    /// The coroutine is parked, and the wait is over when it is made ready.
    Parked,
    /// The thread has to wait, and goes on with `woken` when it is woken up.
    Thread,
}

/// Who has to be told about a notification.
pub enum Notified {
    /// Nobody.
    Nobody,
    /// This coroutine is to be made ready.
    Coroutine(Handle),
    /// The thread that waits is to be woken up.
    Thread,
}

/// A barrier for one coroutine or thread.
pub struct MonoBarrier {
    state: BarrierState,
}

impl MonoBarrier {
    /// What is going on.
    pub closed spec fn spec_state(&self) -> BarrierState {
        self.state
    }

    /// A new barrier.
    pub fn new() -> (barrier: MonoBarrier)
        ensures
            barrier.spec_state() is Empty,
    {
        MonoBarrier { state: BarrierState::Empty }
    }

    /// Waits, and fails if someone is waiting already. On a processor its coroutine waits, else
    /// the thread.
    pub fn wait(&mut self, p: Option<&mut Processor>) -> (waiting: Result<Waiting, MonoBarrierError>)
        requires
            p matches Some(p) ==> p.current_coro is Some,
        ensures
            match old(self).spec_state() {
                BarrierState::Ready => {
                    &&& waiting == Ok::<Waiting, MonoBarrierError>(Waiting::Done)
                    &&& final(self).spec_state() is Empty
                    &&& p matches Some(p) ==> *final(p) == *p
                },
                BarrierState::Empty => match p {
                    Some(p) => {
                        &&& waiting == Ok::<Waiting, MonoBarrierError>(Waiting::Parked)
                        &&& final(self).spec_state() matches BarrierState::Coroutine(coro)
                            && coro.moved_to(p.current_coro->0, State::Parked)
                        &&& final(p).same_but_current(*p)
                        &&& final(p).current_coro is None
                    },
                    None => {
                        &&& waiting == Ok::<Waiting, MonoBarrierError>(Waiting::Thread)
                        &&& final(self).spec_state() is Thread
                    },
                },
                _ => {
                    &&& waiting == Err::<Waiting, MonoBarrierError>(MonoBarrierError::Occupied)
                    &&& *final(self) == *old(self)
                    &&& p matches Some(p) ==> *final(p) == *p
                },
            },
            barrier_used(
                old(self).spec_state(),
                final(self).spec_state(),
                BarrierUse::Wait(waiting),
            ),
    {
        match &self.state {
            BarrierState::Ready => {
                self.state = BarrierState::Empty;
                Ok(Waiting::Done)
            },
            BarrierState::Empty => match p {
                Some(p) => {
                    self.state = BarrierState::Coroutine(p.park());
                    Ok(Waiting::Parked)
                },
                None => {
                    self.state = BarrierState::Thread;
                    Ok(Waiting::Thread)
                },
            },
            _ => Err(MonoBarrierError::Occupied),
        }
    }

    /// Goes on with the wait of a thread that was woken up. It is over if there was a
    /// notification. If nobody notified, the thread has to wait on; so it has if the notification
    /// was used up by somebody else meanwhile. It fails only if a coroutine waits by now.
    pub fn woken(&mut self) -> (waiting: Result<Waiting, MonoBarrierError>)
        ensures
            match old(self).spec_state() {
                BarrierState::Ready => {
                    &&& waiting == Ok::<Waiting, MonoBarrierError>(Waiting::Done)
                    &&& final(self).spec_state() is Empty
                },
                BarrierState::Thread => {
                    &&& waiting == Ok::<Waiting, MonoBarrierError>(Waiting::Thread)
                    &&& *final(self) == *old(self)
                },
                BarrierState::Empty => {
                    &&& waiting == Ok::<Waiting, MonoBarrierError>(Waiting::Thread)
                    &&& final(self).spec_state() is Thread
                },
                BarrierState::Coroutine(_) => {
                    &&& waiting == Err::<Waiting, MonoBarrierError>(MonoBarrierError::Occupied)
                    &&& *final(self) == *old(self)
                },
            },
            barrier_used(
                old(self).spec_state(),
                final(self).spec_state(),
                BarrierUse::Woken(waiting),
            ),
    {
        match &self.state {
            BarrierState::Ready => {
                self.state = BarrierState::Empty;
                Ok(Waiting::Done)
            },
            BarrierState::Thread => Ok(Waiting::Thread),
            BarrierState::Empty => {
                self.state = BarrierState::Thread;
                Ok(Waiting::Thread)
            },
            BarrierState::Coroutine(_) => Err(MonoBarrierError::Occupied),
        }
    }

    /// The barrier after a notification.
    pub open spec fn after_notify(before: BarrierState) -> BarrierState {
        match before {
            BarrierState::Coroutine(_) => BarrierState::Empty,
            _ => BarrierState::Ready,
        }
    }

    /// Notifies the one that waits, or else the next one to wait.
    pub fn notify(&mut self) -> (notified: Notified)
        ensures
            final(self).spec_state() == Self::after_notify(old(self).spec_state()),
            notified == (match old(self).spec_state() {
                BarrierState::Coroutine(coro) => Notified::Coroutine(coro),
                BarrierState::Thread => Notified::Thread,
                _ => Notified::Nobody,
            }),
            notified is Coroutine ==> final(self).spec_state() is Empty,
            barrier_used(
                old(self).spec_state(),
                final(self).spec_state(),
                BarrierUse::Notify(notified),
            ),
    {
        let mut state = BarrierState::Ready;
        std::mem::swap(&mut state, &mut self.state);
        match state {
            BarrierState::Empty => Notified::Nobody,
            BarrierState::Ready => Notified::Nobody,
            BarrierState::Coroutine(coro) => {
                self.state = BarrierState::Empty;
                Notified::Coroutine(coro)
            },
            BarrierState::Thread => Notified::Thread,
        }
    }

    /// However often nobody was told of a notification, it lets one wait pass, and no more.
    pub proof fn notifications_do_not_add_up(before: BarrierState)
        requires
            before is Empty || before is Ready,
        ensures
            Self::after_notify(before) is Ready,
            Self::after_notify(Self::after_notify(before)) == Self::after_notify(before),
    {
    }
}

/// What is going on at a barrier for coroutines.
pub enum CoroLock {
    /// Nobody waits, and nobody was here.
    Empty,
    /// Somebody was here already.
    Ready,
    /// A coroutine waits.
    Coroutine(Handle),
}

/// Why a coroutine cannot wait.
#[derive(Debug, Clone, Copy, PartialEq, Eq, Structural)]
pub enum CoroMonoBarrierError {
    /// There is no coroutine, as there is no processor.
    MissingProcessor,
    /// Another one waits already.
    Occupied,
}

/// What became of a coroutine that was parked for a barrier.
pub enum Entered {
    /// It waits there.
    Waits,
    /// Somebody was there meanwhile: it is to be made ready, and the wait is over.
    Passed(Handle),
    /// Somebody else waits there meanwhile: it is to be made ready, and the wait failed.
    Occupied(Handle),
}

/// A barrier for one coroutine.
pub struct CoroMonoBarrier {
    lock: CoroLock,
}

impl CoroMonoBarrier {
    /// What is going on.
    pub closed spec fn spec_lock(&self) -> CoroLock {
        self.lock
    }

    /// A new barrier.
    pub fn new() -> (barrier: CoroMonoBarrier)
        ensures
            barrier.spec_lock() is Empty,
    {
        CoroMonoBarrier { lock: CoroLock::Empty }
    }

    /// Takes away the mark that somebody was here, if there is one.
    pub fn try_pass(&mut self) -> (passed: bool)
        ensures
            passed == (old(self).spec_lock() is Ready),
            passed ==> final(self).spec_lock() is Empty,
            !passed ==> *final(self) == *old(self),
            coro_barrier_used(
                old(self).spec_lock(),
                final(self).spec_lock(),
                CoroBarrierUse::TryPass(passed),
            ),
    {
        match &self.lock {
            CoroLock::Ready => {
                self.lock = CoroLock::Empty;
                true
            },
            _ => false,
        }
    }

    /// A coroutine that was parked for the barrier comes to it.
    pub fn enter(&mut self, coro: Handle) -> (entered: Entered)
        ensures
            match old(self).spec_lock() {
                CoroLock::Empty => {
                    &&& entered is Waits
                    &&& final(self).spec_lock() == CoroLock::Coroutine(coro)
                },
                CoroLock::Ready => {
                    &&& entered == Entered::Passed(coro)
                    &&& final(self).spec_lock() is Empty
                },
                CoroLock::Coroutine(_) => {
                    &&& entered == Entered::Occupied(coro)
                    &&& *final(self) == *old(self)
                },
            },
            coro_barrier_used(
                old(self).spec_lock(),
                final(self).spec_lock(),
                CoroBarrierUse::Enter(entered),
            ),
    {
        match &self.lock {
            CoroLock::Empty => {
                self.lock = CoroLock::Coroutine(coro);
                Entered::Waits
            },
            CoroLock::Ready => {
                self.lock = CoroLock::Empty;
                Entered::Passed(coro)
            },
            CoroLock::Coroutine(_) => Entered::Occupied(coro),
        }
    }

    /// The coroutine of a processor waits for a notification. It is parked unless there was one.
    pub fn wait(&mut self, p: Option<&mut Processor>) -> (parked: Result<bool, CoroMonoBarrierError>)
        requires
            p matches Some(p) ==> p.current_coro is Some,
        ensures
            match p {
                None => {
                    &&& parked == Err::<bool, CoroMonoBarrierError>(
                        CoroMonoBarrierError::MissingProcessor,
                    )
                    &&& *final(self) == *old(self)
                },
                Some(p) => match old(self).spec_lock() {
                    CoroLock::Ready => {
                        &&& parked == Ok::<bool, CoroMonoBarrierError>(false)
                        &&& final(self).spec_lock() is Empty
                        &&& *final(p) == *p
                    },
                    CoroLock::Empty => {
                        &&& parked == Ok::<bool, CoroMonoBarrierError>(true)
                        &&& final(self).spec_lock() matches CoroLock::Coroutine(coro)
                            && coro.moved_to(p.current_coro->0, State::Parked)
                        &&& final(p).same_but_current(*p)
                        &&& final(p).current_coro is None
                    },
                    CoroLock::Coroutine(_) => {
                        &&& parked == Err::<bool, CoroMonoBarrierError>(
                            CoroMonoBarrierError::Occupied,
                        )
                        &&& *final(self) == *old(self)
                        &&& *final(p) == *p
                    },
                },
            },
            coro_barrier_used(
                old(self).spec_lock(),
                final(self).spec_lock(),
                CoroBarrierUse::Wait(parked),
            ),
    {
        match p {
            None => Err(CoroMonoBarrierError::MissingProcessor),
            Some(p) => {
                if self.try_pass() {
                    return Ok(false);
                }
                match &self.lock {
                    CoroLock::Coroutine(_) => Err(CoroMonoBarrierError::Occupied),
                    _ => {
                        let coro = p.park();
                        let _ = self.enter(coro);
                        Ok(true)
                    },
                }
            },
        }
    }

    /// The barrier after a notification.
    pub open spec fn after_notify(before: CoroLock) -> CoroLock {
        match before {
            CoroLock::Coroutine(_) => CoroLock::Empty,
            _ => CoroLock::Ready,
        }
    }

    /// Notifies the coroutine that waits, which is to be made ready, or else marks the barrier.
    pub fn notify(&mut self) -> (ready: Option<Handle>)
        ensures
            final(self).spec_lock() == Self::after_notify(old(self).spec_lock()),
            ready == (match old(self).spec_lock() {
                CoroLock::Coroutine(coro) => Some(coro),
                _ => None,
            }),
            ready is Some ==> final(self).spec_lock() is Empty,
            coro_barrier_used(
                old(self).spec_lock(),
                final(self).spec_lock(),
                CoroBarrierUse::Notify(ready),
            ),
    {
        let mut lock = CoroLock::Ready;
        std::mem::swap(&mut lock, &mut self.lock);
        match lock {
            CoroLock::Coroutine(coro) => {
                self.lock = CoroLock::Empty;
                Some(coro)
            },
            _ => None,
        }
    }

    /// What dropping the barrier does: a coroutine that waits there is dropped, too.
    pub fn close(&mut self) -> (dropped: Option<Handle>)
        ensures
            final(self).spec_lock() is Empty,
            dropped == (match old(self).spec_lock() {
                CoroLock::Coroutine(coro) => Some(coro),
                _ => None,
            }),
    {
        let mut lock = CoroLock::Empty;
        std::mem::swap(&mut lock, &mut self.lock);
        match lock {
            CoroLock::Coroutine(coro) => Some(coro),
            _ => None,
        }
    }

    /// However often the barrier was notified while nobody waited, one wait passes, and no more.
    pub proof fn notifications_do_not_add_up(before: CoroLock)
        requires
            !(before is Coroutine),
        ensures
            Self::after_notify(before) is Ready,
            Self::after_notify(Self::after_notify(before)) == Self::after_notify(before),
    {
    }
}

/// A call on a barrier, with its outcome.
pub enum BarrierUse {
    /// A wait.
    Wait(Result<Waiting, MonoBarrierError>),
    /// A thread that waits was woken up.
    Woken(Result<Waiting, MonoBarrierError>),
    /// A notification.
    Notify(Notified),
}

/// What is going on at a barrier before and after a call.
pub open spec fn barrier_used(before: BarrierState, after: BarrierState, call: BarrierUse) -> bool {
    match call {
        BarrierUse::Wait(Ok(Waiting::Done)) => before is Ready && after is Empty,
        BarrierUse::Wait(Ok(Waiting::Parked)) => before is Empty && after is Coroutine,
        BarrierUse::Wait(Ok(Waiting::Thread)) => before is Empty && after is Thread,
        BarrierUse::Wait(Err(_)) => (before is Thread || before is Coroutine) && after == before,
        BarrierUse::Woken(Ok(Waiting::Done)) => before is Ready && after is Empty,
        BarrierUse::Woken(Ok(Waiting::Thread)) => (before is Thread || before is Empty)
            && after is Thread,
        BarrierUse::Woken(Ok(Waiting::Parked)) => false,
        BarrierUse::Woken(Err(_)) => before is Coroutine && after == before,
        BarrierUse::Notify(Notified::Coroutine(coro)) => before == BarrierState::Coroutine(coro)
            && after == MonoBarrier::after_notify(before),
        BarrierUse::Notify(Notified::Thread) => before is Thread && after
            == MonoBarrier::after_notify(before),
        BarrierUse::Notify(Notified::Nobody) => (before is Empty || before is Ready) && after
            == MonoBarrier::after_notify(before),
    }
}

/// What was going on at a barrier at first and after each call.
pub open spec fn barrier_history(states: Seq<BarrierState>, calls: Seq<BarrierUse>) -> bool {
    &&& states.len() == calls.len() + 1
    &&& forall|i: int|
        0 <= i < calls.len() ==> barrier_used(states[i], states[i + 1], #[trigger] calls[i])
}

/// The number of waits that ended: those that were over at once, those of threads that were woken
/// up for good, and those of coroutines that were handed out.
pub open spec fn ended_waits(calls: Seq<BarrierUse>) -> nat
    decreases calls.len(),
{
    if calls.len() == 0 {
        0
    } else {
        ended_waits(calls.drop_last()) + match calls.last() {
            BarrierUse::Wait(Ok(Waiting::Done)) => 1nat,
            BarrierUse::Woken(Ok(Waiting::Done)) => 1nat,
            BarrierUse::Notify(Notified::Coroutine(_)) => 1nat,
            _ => 0nat,
        }
    }
}

/// The number of notifications.
pub open spec fn notifications(calls: Seq<BarrierUse>) -> nat
    decreases calls.len(),
{
    if calls.len() == 0 {
        0
    } else {
        notifications(calls.drop_last()) + if calls.last() is Notify {
            1nat
        } else {
            0nat
        }
    }
}

/// The number of coroutines that were parked.
pub open spec fn parked_coroutines(calls: Seq<BarrierUse>) -> nat
    decreases calls.len(),
{
    if calls.len() == 0 {
        0
    } else {
        parked_coroutines(calls.drop_last()) + if calls.last() == BarrierUse::Wait(
            Ok(Waiting::Parked),
        ) {
            1nat
        } else {
            0nat
        }
    }
}

/// The number of coroutines that were handed out.
pub open spec fn handed_out(calls: Seq<BarrierUse>) -> nat
    decreases calls.len(),
{
    if calls.len() == 0 {
        0
    } else {
        handed_out(calls.drop_last()) + match calls.last() {
            BarrierUse::Notify(Notified::Coroutine(_)) => 1nat,
            _ => 0nat,
        }
    }
}

/// Each notification ends one wait at most: at a new barrier, however it is used, there are never
/// more waits that ended than notifications. And every coroutine that was parked there was handed
/// out, but for the one that still waits.
pub proof fn one_notification_ends_one_wait(states: Seq<BarrierState>, calls: Seq<BarrierUse>)
    requires
        barrier_history(states, calls),
        states[0] is Empty,
    ensures
        ended_waits(calls) <= notifications(calls),
        states.last() is Ready ==> ended_waits(calls) < notifications(calls),
        parked_coroutines(calls) == handed_out(calls) + if states.last() is Coroutine {
            1nat
        } else {
            0nat
        },
    decreases calls.len(),
{
    if calls.len() > 0 {
        let n = calls.len() - 1;
        let earlier = calls.drop_last();
        let so_far = states.drop_last();
        assert forall|i: int| 0 <= i < earlier.len() implies barrier_used(
            so_far[i],
            so_far[i + 1],
            #[trigger] earlier[i],
        ) by {
            assert(calls[i] == earlier[i]);
        }
        one_notification_ends_one_wait(so_far, earlier);
        assert(barrier_used(states[n], states[n + 1], calls[n]));
    }
}

/// A notification that hands out a coroutine is used up: whoever waits next has to wait. So does
/// the one after a wait that was over at once.
pub proof fn used_notification_lets_nobody_pass(
    before: BarrierState,
    middle: BarrierState,
    after: BarrierState,
    first: BarrierUse,
    waiting: Result<Waiting, MonoBarrierError>,
)
    requires
        barrier_used(before, middle, first),
        first matches BarrierUse::Notify(notified) ==> notified is Coroutine,
        first matches BarrierUse::Wait(waited) ==> waited == Ok::<Waiting, MonoBarrierError>(
            Waiting::Done,
        ),
        first matches BarrierUse::Woken(waited) ==> waited == Ok::<Waiting, MonoBarrierError>(
            Waiting::Done,
        ),
        barrier_used(middle, after, BarrierUse::Wait(waiting)),
    ensures
        waiting == Ok::<Waiting, MonoBarrierError>(Waiting::Parked) || waiting == Ok::<
            Waiting,
            MonoBarrierError,
        >(Waiting::Thread),
        waiting == Ok::<Waiting, MonoBarrierError>(Waiting::Parked) ==> after is Coroutine,
{
}

/// A notification is not lost: a coroutine that waits is the one that is handed out; if a thread
/// waits, its wait is over when it is woken up; and if nobody waits, the next wait is over at once.
pub proof fn notification_ends_a_wait(
    before: BarrierState,
    middle: BarrierState,
    after: BarrierState,
    notified: Notified,
    waiting: Result<Waiting, MonoBarrierError>,
)
    requires
        barrier_used(before, middle, BarrierUse::Notify(notified)),
        barrier_used(middle, after, BarrierUse::Wait(waiting)) || barrier_used(
            middle,
            after,
            BarrierUse::Woken(waiting),
        ),
    ensures
        before matches BarrierState::Coroutine(coro) ==> notified == Notified::Coroutine(coro),
        before is Thread ==> notified is Thread,
        !(before is Coroutine) ==> waiting == Ok::<Waiting, MonoBarrierError>(Waiting::Done)
            && after is Empty,
{
}

/// A call on a barrier for coroutines, with its outcome.
pub enum CoroBarrierUse {
    /// Taking away the mark that somebody was here.
    TryPass(bool),
    /// A coroutine that was parked for the barrier came to it.
    Enter(Entered),
    /// A wait.
    Wait(Result<bool, CoroMonoBarrierError>),
    /// A notification.
    Notify(Option<Handle>),
}

/// What is going on at a barrier for coroutines before and after a call.
pub open spec fn coro_barrier_used(
    before: CoroLock,
    after: CoroLock,
    call: CoroBarrierUse,
) -> bool {
    match call {
        CoroBarrierUse::TryPass(true) => before is Ready && after is Empty,
        CoroBarrierUse::TryPass(false) => !(before is Ready) && after == before,
        CoroBarrierUse::Enter(Entered::Waits) => before is Empty && after is Coroutine,
        CoroBarrierUse::Enter(Entered::Passed(_)) => before is Ready && after is Empty,
        CoroBarrierUse::Enter(Entered::Occupied(_)) => before is Coroutine && after == before,
        CoroBarrierUse::Wait(Ok(true)) => before is Empty && after is Coroutine,
        CoroBarrierUse::Wait(Ok(false)) => before is Ready && after is Empty,
        CoroBarrierUse::Wait(Err(CoroMonoBarrierError::Occupied)) => before is Coroutine && after
            == before,
        CoroBarrierUse::Wait(Err(CoroMonoBarrierError::MissingProcessor)) => after == before,
        CoroBarrierUse::Notify(Some(coro)) => before == CoroLock::Coroutine(coro) && after
            == CoroMonoBarrier::after_notify(before),
        CoroBarrierUse::Notify(None) => !(before is Coroutine) && after
            == CoroMonoBarrier::after_notify(before),
    }
}

/// What was going on at a barrier for coroutines at first and after each call.
pub open spec fn coro_barrier_history(states: Seq<CoroLock>, calls: Seq<CoroBarrierUse>) -> bool {
    &&& states.len() == calls.len() + 1
    &&& forall|i: int|
        0 <= i < calls.len() ==> coro_barrier_used(states[i], states[i + 1], #[trigger] calls[i])
}

/// The number of waits of coroutines that ended.
pub open spec fn ended_coro_waits(calls: Seq<CoroBarrierUse>) -> nat
    decreases calls.len(),
{
    if calls.len() == 0 {
        0
    } else {
        ended_coro_waits(calls.drop_last()) + match calls.last() {
            CoroBarrierUse::TryPass(true) => 1nat,
            CoroBarrierUse::Enter(Entered::Passed(_)) => 1nat,
            CoroBarrierUse::Wait(Ok(false)) => 1nat,
            CoroBarrierUse::Notify(Some(_)) => 1nat,
            _ => 0nat,
        }
    }
}

/// The number of notifications.
pub open spec fn coro_notifications(calls: Seq<CoroBarrierUse>) -> nat
    decreases calls.len(),
{
    if calls.len() == 0 {
        0
    } else {
        coro_notifications(calls.drop_last()) + if calls.last() is Notify {
            1nat
        } else {
            0nat
        }
    }
}

/// Each notification ends one wait of a coroutine at most.
pub proof fn one_notification_ends_one_coro_wait(
    states: Seq<CoroLock>,
    calls: Seq<CoroBarrierUse>,
)
    requires
        coro_barrier_history(states, calls),
        states[0] is Empty,
    ensures
        ended_coro_waits(calls) <= coro_notifications(calls),
        states.last() is Ready ==> ended_coro_waits(calls) < coro_notifications(calls),
    decreases calls.len(),
{
    if calls.len() > 0 {
        let n = calls.len() - 1;
        let earlier = calls.drop_last();
        let so_far = states.drop_last();
        assert forall|i: int| 0 <= i < earlier.len() implies coro_barrier_used(
            so_far[i],
            so_far[i + 1],
            #[trigger] earlier[i],
        ) by {
            assert(calls[i] == earlier[i]);
        }
        one_notification_ends_one_coro_wait(so_far, earlier);
        assert(coro_barrier_used(states[n], states[n + 1], calls[n]));
    }
}

/// A notification is not lost, and is used once: a coroutine that waits is the one that is handed
/// out, and the next one has to wait; if nobody waits, the next wait is over at once.
pub proof fn notification_ends_a_coro_wait(
    before: CoroLock,
    middle: CoroLock,
    after: CoroLock,
    ready: Option<Handle>,
    parked: bool,
)
    requires
        coro_barrier_used(before, middle, CoroBarrierUse::Notify(ready)),
        coro_barrier_used(middle, after, CoroBarrierUse::Wait(Ok(parked))),
    ensures
        before matches CoroLock::Coroutine(coro) ==> ready == Some(coro) && parked
            && after is Coroutine,
        !(before is Coroutine) ==> ready is None && !parked && after is Empty,
{
}

} // verus!
