//! The cores of futures.

use vstd::prelude::*;

use crate::coroutine::{Handle, State};
use crate::runtime::processor::Processor;
use crate::sync::future::{ContinueWith, Core, Promise};
use crate::sync::spinlock::Spinlock;

verus! {

/// A core behind a lock.
pub struct CoreWrapper<T> {
    inner: Spinlock<T>,
}

impl<T> CoreWrapper<T> {
    /// The core, while it is not locked.
    pub closed spec fn spec_inner(&self) -> Option<T> {
        self.inner.spec_data()
    }

    /// Puts a core behind a lock.
    pub fn wrap(inner: T) -> (core: CoreWrapper<T>)
        ensures
            core.spec_inner() == Some(inner),
    {
        CoreWrapper { inner: Spinlock::new(inner) }
    }

    /// The core without its lock.
    pub fn into_inner(self) -> (inner: T)
        requires
            self.spec_inner() is Some,
        ensures
            Some(inner) == self.spec_inner(),
    {
        let mut core = self;
        core.inner.lock().into_inner()
    }
}

/// The result of a future, once it is settled and as long as it was not handed on, and what is
/// continued with it.
pub struct PlainCoreInner<To, Eo, N> {
    /// The result.
    pub result: Option<Result<To, Eo>>,
    /// What is continued with the result.
    pub next: Option<N>,
}

/// A core behind a lock that only hands its result on.
pub type PlainCore<To, Eo, N> = CoreWrapper<PlainCoreInner<To, Eo, N>>;

impl<To, Eo, N> CoreWrapper<PlainCoreInner<To, Eo, N>> {
    /// A core, which may be settled already.
    pub fn new(result: Option<Result<To, Eo>>) -> (core: PlainCore<To, Eo, N>)
        ensures
            core.spec_inner() == Some(PlainCoreInner { result, next: None::<N> }),
    {
        CoreWrapper::wrap(PlainCoreInner { result, next: None })
    }
}

impl<To, Eo, N: ContinueWith<To, Eo>> ContinueWith<To, Eo> for PlainCoreInner<To, Eo, N> {
    open spec fn can_continue(&self) -> bool {
        self.can_settle()
    }

    open spec fn continued(self, after: Self, val: Result<To, Eo>) -> bool {
        self.settled(after, val)
    }

    fn continue_with(&mut self, val: Result<To, Eo>) {
        self.settle(val)
    }
}

impl<To, Eo, N: ContinueWith<To, Eo>> Core<To, Eo> for PlainCoreInner<To, Eo, N> {
    type Next = N;

    open spec fn can_set_next(&self, next: N) -> bool {
        &&& self.next is None
        &&& self.result is Some ==> next.can_continue()
    }

    /// The next one is continued at once if there is a result.
    open spec fn next_set(self, after: Self, next: N) -> bool {
        &&& after.result is None
        &&& match self.result {
            Some(val) => after.next matches Some(m) && next.continued(m, val),
            None => after.next == Some(next),
        }
    }

    open spec fn can_settle(&self) -> bool {
        self.next matches Some(n) ==> n.can_continue()
    }

    /// The next one is continued with the result if there is one, else the result is kept.
    open spec fn settled(self, after: Self, val: Result<To, Eo>) -> bool {
        match self.next {
            Some(n) => {
                &&& after.result == self.result
                &&& after.next matches Some(m) && n.continued(m, val)
            },
            None => {
                &&& after.result == Some(val)
                &&& after.next is None
            },
        }
    }

    fn set_next(&mut self, core: N) {
        let mut core = core;
        match self.result.take() {
            Some(val) => core.continue_with(val),
            None => {},
        }
        self.next = Some(core);
    }

    fn settle(&mut self, val: Result<To, Eo>) {
        match &mut self.next {
            Some(next) => next.continue_with(val),
            None => {
                self.result = Some(val);
            },
        }
    }
}

impl<T: ContinueWith<Ti, Ei>, Ti, Ei> ContinueWith<Ti, Ei> for CoreWrapper<T> {
    open spec fn can_continue(&self) -> bool {
        self.spec_inner() matches Some(inner) && inner.can_continue()
    }

    open spec fn continued(self, after: Self, val: Result<Ti, Ei>) -> bool {
        &&& after.spec_inner() is Some
        &&& self.spec_inner()->0.continued(after.spec_inner()->0, val)
    }

    fn continue_with(&mut self, val: Result<Ti, Ei>) {
        let mut inner = self.inner.lock();
        inner.deref_mut().continue_with(val);
        self.inner.unlock(inner);
    }
}

impl<T: Core<To, Eo>, To, Eo> Core<To, Eo> for CoreWrapper<T> {
    type Next = T::Next;

    open spec fn can_set_next(&self, next: T::Next) -> bool {
        self.spec_inner() matches Some(inner) && inner.can_set_next(next)
    }

    open spec fn next_set(self, after: Self, next: T::Next) -> bool {
        &&& after.spec_inner() is Some
        &&& self.spec_inner()->0.next_set(after.spec_inner()->0, next)
    }

    open spec fn can_settle(&self) -> bool {
        self.spec_inner() matches Some(inner) && inner.can_settle()
    }

    open spec fn settled(self, after: Self, val: Result<To, Eo>) -> bool {
        &&& after.spec_inner() is Some
        &&& self.spec_inner()->0.settled(after.spec_inner()->0, val)
    }

    fn set_next(&mut self, core: T::Next) {
        let mut inner = self.inner.lock();
        inner.deref_mut().set_next(core);
        self.inner.unlock(inner);
    }

    fn settle(&mut self, val: Result<To, Eo>) {
        let mut inner = self.inner.lock();
        inner.deref_mut().settle(val);
        self.inner.unlock(inner);
    }
}

/// It does not matter whether a future is settled before or after it is told how to go on: either
/// way, it goes on with the result, once, and keeps nothing.
pub proof fn settled_before_or_after<To, Eo, N: ContinueWith<To, Eo>>(
    before: PlainCoreInner<To, Eo, N>,
    middle: PlainCoreInner<To, Eo, N>,
    after: PlainCoreInner<To, Eo, N>,
    next: N,
    val: Result<To, Eo>,
)
    requires
        before.result is None,
        before.next is None,
        (before.settled(middle, val) && middle.next_set(after, next)) || (before.next_set(
            middle,
            next,
        ) && middle.settled(after, val)),
    ensures
        after.result is None,
        after.next matches Some(m) && next.continued(m, val),
{
}

/// The core of a future that goes on with a value by calling a handler, and hands errors on.
pub struct ThenCoreInner<To, Eo, N, F> {
    /// The result, which the handler or an error settles.
    pub core: PlainCoreInner<To, Eo, N>,
    /// The handler, until it was called.
    pub handler: Option<F>,
}

/// Such a core behind a lock.
pub type ThenCore<To, Eo, N, F> = CoreWrapper<ThenCoreInner<To, Eo, N, F>>;

impl<To, Eo, N: ContinueWith<To, Eo>, F> ThenCoreInner<To, Eo, N, F> {
    /// A core with this handler.
    pub fn new(func: F) -> (core: Self)
        ensures
            core.core.result is None,
            core.core.next is None,
            core.handler == Some(func),
    {
        ThenCoreInner { core: PlainCoreInner { result: None, next: None }, handler: Some(func) }
    }
}

impl<To, Eo, N: ContinueWith<To, Eo>, F> Core<To, Eo> for ThenCoreInner<To, Eo, N, F> {
    type Next = N;

    open spec fn can_set_next(&self, next: N) -> bool {
        self.core.can_set_next(next)
    }

    open spec fn next_set(self, after: Self, next: N) -> bool {
        self.core.next_set(after.core, next) && after.handler == self.handler
    }

    open spec fn can_settle(&self) -> bool {
        self.core.can_settle()
    }

    open spec fn settled(self, after: Self, val: Result<To, Eo>) -> bool {
        self.core.settled(after.core, val) && after.handler == self.handler
    }

    fn set_next(&mut self, core: N) {
        self.core.set_next(core)
    }

    fn settle(&mut self, val: Result<To, Eo>) {
        self.core.settle(val)
    }
}

impl<Ti, To, Eo, N, F> ContinueWith<Ti, Eo> for ThenCoreInner<To, Eo, N, F> where
    N: ContinueWith<To, Eo>,
    F: FnOnce(Promise<PlainCoreInner<To, Eo, N>>, Ti) -> PlainCoreInner<To, Eo, N>,
 {
    /// The handler was not called yet and can be called with a promise for this core.
    open spec fn can_continue(&self) -> bool {
        &&& self.core.can_settle()
        &&& self.handler is Some
        &&& forall|promise: Promise<PlainCoreInner<To, Eo, N>>, val: Ti|
            promise.spec_core() == self.core ==> #[trigger] call_requires(
                self.handler->0,
                (promise, val),
            )
    }

    /// With a value the handler is called, with a promise for this core, which it settles or gives
    /// back. An error settles the core.
    open spec fn continued(self, after: Self, val: Result<Ti, Eo>) -> bool {
        match val {
            Ok(val) => {
                &&& after.handler is None
                &&& handler_called(self.handler->0, self.core, val, after.core)
            },
            Err(val) => {
                &&& after.handler == self.handler
                &&& self.core.settled(after.core, Err(val))
            },
        }
    }

    fn continue_with(&mut self, val: Result<Ti, Eo>) {
        match val {
            Ok(val) => {
                let handler = self.handler.take().unwrap();
                let mut core = PlainCoreInner { result: None, next: None };
                std::mem::swap(&mut core, &mut self.core);
                let promise = Promise::with_core(core);
                self.core = handler(promise, val);
            },
            Err(val) => self.core.settle(Err(val)),
        }
    }
}

/// The core of a future that goes on with an error by calling a handler, and hands values on.
pub struct CatchCoreInner<To, Eo, N, F> {
    /// The result, which the handler or a value settles.
    pub core: PlainCoreInner<To, Eo, N>,
    /// The handler, until it was called.
    pub handler: Option<F>,
}

/// Such a core behind a lock.
pub type CatchCore<To, Eo, N, F> = CoreWrapper<CatchCoreInner<To, Eo, N, F>>;

impl<To, Eo, N: ContinueWith<To, Eo>, F> CatchCoreInner<To, Eo, N, F> {
    /// A core with this handler.
    pub fn new(func: F) -> (core: Self)
        ensures
            core.core.result is None,
            core.core.next is None,
            core.handler == Some(func),
    {
        CatchCoreInner { core: PlainCoreInner { result: None, next: None }, handler: Some(func) }
    }
}

impl<To, Eo, N: ContinueWith<To, Eo>, F> Core<To, Eo> for CatchCoreInner<To, Eo, N, F> {
    type Next = N;

    open spec fn can_set_next(&self, next: N) -> bool {
        self.core.can_set_next(next)
    }

    open spec fn next_set(self, after: Self, next: N) -> bool {
        self.core.next_set(after.core, next) && after.handler == self.handler
    }

    open spec fn can_settle(&self) -> bool {
        self.core.can_settle()
    }

    open spec fn settled(self, after: Self, val: Result<To, Eo>) -> bool {
        self.core.settled(after.core, val) && after.handler == self.handler
    }

    fn set_next(&mut self, core: N) {
        self.core.set_next(core)
    }

    fn settle(&mut self, val: Result<To, Eo>) {
        self.core.settle(val)
    }
}

impl<Ei, To, Eo, N, F> ContinueWith<To, Ei> for CatchCoreInner<To, Eo, N, F> where
    N: ContinueWith<To, Eo>,
    F: FnOnce(Promise<PlainCoreInner<To, Eo, N>>, Ei) -> PlainCoreInner<To, Eo, N>,
 {
    /// The handler was not called yet and can be called with a promise for this core.
    open spec fn can_continue(&self) -> bool {
        &&& self.core.can_settle()
        &&& self.handler is Some
        &&& forall|promise: Promise<PlainCoreInner<To, Eo, N>>, val: Ei|
            promise.spec_core() == self.core ==> #[trigger] call_requires(
                self.handler->0,
                (promise, val),
            )
    }

    /// With an error the handler is called, with a promise for this core, which it settles or
    /// gives back. A value settles the core.
    open spec fn continued(self, after: Self, val: Result<To, Ei>) -> bool {
        match val {
            Err(val) => {
                &&& after.handler is None
                &&& handler_called(self.handler->0, self.core, val, after.core)
            },
            Ok(val) => {
                &&& after.handler == self.handler
                &&& self.core.settled(after.core, Ok(val))
            },
        }
    }

    fn continue_with(&mut self, val: Result<To, Ei>) {
        match val {
            Err(val) => {
                let handler = self.handler.take().unwrap();
                let mut core = PlainCoreInner { result: None, next: None };
                std::mem::swap(&mut core, &mut self.core);
                let promise = Promise::with_core(core);
                self.core = handler(promise, val);
            },
            Ok(val) => self.core.settle(Ok(val)),
        }
    }
}

/// The handler was called with a promise for a core, and what came back of the core.
pub open spec fn handler_called<To, Eo, N, V, F>(
    handler: F,
    core: PlainCoreInner<To, Eo, N>,
    val: V,
    after: PlainCoreInner<To, Eo, N>,
) -> bool where F: FnOnce(Promise<PlainCoreInner<To, Eo, N>>, V) -> PlainCoreInner<To, Eo, N> {
    exists|promise: Promise<PlainCoreInner<To, Eo, N>>|
        promise.spec_core() == core && #[trigger] call_ensures(handler, (promise, val), after)
}

/// The handler settles the promise that it gets with what `f` says of the value.
pub open spec fn settles_with<To, Eo, N, V, F>(
    handler: F,
    f: spec_fn(V) -> Result<To, Eo>,
) -> bool where
    N: ContinueWith<To, Eo>,
    F: FnOnce(Promise<PlainCoreInner<To, Eo, N>>, V) -> PlainCoreInner<To, Eo, N>,
 {
    forall|promise: Promise<PlainCoreInner<To, Eo, N>>, val: V, after: PlainCoreInner<To, Eo, N>|
        #[trigger] call_ensures(handler, (promise, val), after) ==> promise.spec_core().settled(
            after,
            f(val),
        )
}

/// A core that was made for a handler is settled with the result of the handler when the core
/// before it is settled with a value, and with the error when that is settled with an error. It
/// does not matter whether that was before or after they were linked.
pub proof fn handler_settles_the_next_core<Ti, To, Eo, N, F>(
    before: PlainCoreInner<Ti, Eo, ThenCoreInner<To, Eo, N, F>>,
    middle: PlainCoreInner<Ti, Eo, ThenCoreInner<To, Eo, N, F>>,
    after: PlainCoreInner<Ti, Eo, ThenCoreInner<To, Eo, N, F>>,
    next: ThenCoreInner<To, Eo, N, F>,
    f: spec_fn(Ti) -> Result<To, Eo>,
    val: Result<Ti, Eo>,
) where
    N: ContinueWith<To, Eo>,
    F: FnOnce(Promise<PlainCoreInner<To, Eo, N>>, Ti) -> PlainCoreInner<To, Eo, N>,

    requires
        before.result is None,
        before.next is None,
        next.core.result is None,
        next.core.next is None,
        next.handler is Some,
        settles_with::<To, Eo, N, Ti, F>(next.handler->0, f),
        (before.settled(middle, val) && middle.next_set(after, next)) || (before.next_set(
            middle,
            next,
        ) && middle.settled(after, val)),
    ensures
        after.next matches Some(m) && m.core.result == Some(
            match val {
                Ok(val) => f(val),
                Err(e) => Err(e),
            },
        ),
{
    let m = after.next->0;
    assert(ContinueWith::<Ti, Eo>::continued(next, m, val));
}

/// A core that was made to catch errors is settled with the result of the handler when the core
/// before it is settled with an error, and with the value when that is settled with a value.
pub proof fn handler_catches_the_error<To, Ei, Eo, N, F>(
    before: PlainCoreInner<To, Ei, CatchCoreInner<To, Eo, N, F>>,
    middle: PlainCoreInner<To, Ei, CatchCoreInner<To, Eo, N, F>>,
    after: PlainCoreInner<To, Ei, CatchCoreInner<To, Eo, N, F>>,
    next: CatchCoreInner<To, Eo, N, F>,
    f: spec_fn(Ei) -> Result<To, Eo>,
    val: Result<To, Ei>,
) where
    N: ContinueWith<To, Eo>,
    F: FnOnce(Promise<PlainCoreInner<To, Eo, N>>, Ei) -> PlainCoreInner<To, Eo, N>,

    requires
        before.result is None,
        before.next is None,
        next.core.result is None,
        next.core.next is None,
        next.handler is Some,
        settles_with::<To, Eo, N, Ei, F>(next.handler->0, f),
        (before.settled(middle, val) && middle.next_set(after, next)) || (before.next_set(
            middle,
            next,
        ) && middle.settled(after, val)),
    ensures
        after.next matches Some(m) && m.core.result == Some(
            match val {
                Ok(val) => Ok(val),
                Err(e) => f(e),
            },
        ),
{
    let m = after.next->0;
    assert(ContinueWith::<To, Ei>::continued(next, m, val));
}

/// Who waits for a result.
pub enum AwaitHandle<Th> {
    /// Nobody.
    Nobody,
    /// A thread.
    Thread(Th),
    /// A coroutine.
    Coroutine(Handle),
}

/// The core of one who waits for a result.
pub struct AwaitCoreInner<To, Eo, Th> {
    /// The result, until it was taken.
    pub result: Option<Result<To, Eo>>,
    /// Who waits for it.
    pub handle: AwaitHandle<Th>,
}

/// Such a core behind a lock.
pub type AwaitCore<To, Eo, Th> = CoreWrapper<AwaitCoreInner<To, Eo, Th>>;

impl<To, Eo, Th> CoreWrapper<PlainCoreInner<To, Eo, AwaitCoreInner<To, Eo, Th>>> {
    /// Waits with the one who waits for the result of the core.
    pub(crate) fn wait_for_next(&mut self, p: Option<&mut Processor>, thread: Th) -> (result:
        Option<Result<To, Eo>>)
        requires
            old(self).spec_inner() matches Some(core) && core.next is Some,
            p matches Some(p) ==> p.current_coro is Some,
        ensures
            final(self).spec_inner() is Some,
            ({
                let before = old(self).spec_inner()->0;
                let after = final(self).spec_inner()->0;
                &&& after.result == before.result
                &&& after.next is Some
                &&& after.next->0.result is None
                &&& result == before.next->0.result
                &&& match result {
                    Some(_) => {
                        &&& after.next->0.handle == before.next->0.handle
                        &&& p matches Some(p) ==> *final(p) == *p
                    },
                    None => match p {
                        Some(p) => {
                            &&& after.next->0.is_waiting(p.current_coro->0)
                            &&& final(p).same_but_current(*p)
                            &&& final(p).current_coro is None
                        },
                        None => after.next->0.handle == AwaitHandle::Thread(thread),
                    },
                }
            }),
    {
        let mut inner = self.inner.lock();
        let result = match &mut inner.deref_mut().next {
            Some(next) => next.wait_result(p, thread),
            None => None,
        };
        self.inner.unlock(inner);
        result
    }
}

impl<To, Eo, Th> AwaitCoreInner<To, Eo, Th> {
    /// The coroutine was parked and waits.
    pub open spec fn is_waiting(&self, coro: Handle) -> bool {
        self.handle matches AwaitHandle::Coroutine(parked) && parked.moved_to(coro, State::Parked)
    }

    /// A core without a result.
    pub fn new() -> (core: Self)
        ensures
            core.result is None,
            core.handle is Nobody,
    {
        AwaitCoreInner { result: None, handle: AwaitHandle::Nobody }
    }

    /// Takes the result if it is there. If not, the coroutine of the processor is parked, or,
    /// where there is none, the thread has to wait. It takes the result when it is woken up.
    pub fn wait_result(&mut self, p: Option<&mut Processor>, thread: Th) -> (result: Option<
        Result<To, Eo>,
    >)
        requires
            p matches Some(p) ==> p.current_coro is Some,
        ensures
            result == old(self).result,
            final(self).result is None,
            match result {
                Some(_) => {
                    &&& final(self).handle == old(self).handle
                    &&& p matches Some(p) ==> *final(p) == *p
                },
                None => match p {
                    Some(p) => {
                        &&& final(self).is_waiting(p.current_coro->0)
                        &&& final(p).same_but_current(*p)
                        &&& final(p).current_coro is None
                    },
                    None => final(self).handle == AwaitHandle::Thread(thread),
                },
            },
    {
        match self.result.take() {
            Some(result) => Some(result),
            None => {
                match p {
                    Some(p) => {
                        self.handle = AwaitHandle::Coroutine(p.park());
                    },
                    None => {
                        self.handle = AwaitHandle::Thread(thread);
                    },
                }
                None
            },
        }
    }

    /// Whoever waits for the result that has come is to be woken up.
    pub fn wake(&mut self) -> (waiting: AwaitHandle<Th>)
        ensures
            final(self).result == old(self).result,
            final(self).handle is Nobody,
            waiting == old(self).handle,
    {
        let mut handle = AwaitHandle::Nobody;
        std::mem::swap(&mut handle, &mut self.handle);
        handle
    }
}

impl<To, Eo, Th> ContinueWith<To, Eo> for AwaitCoreInner<To, Eo, Th> {
    open spec fn can_continue(&self) -> bool {
        true
    }

    /// The result is there, and whoever waits for it is to be woken up.
    open spec fn continued(self, after: Self, val: Result<To, Eo>) -> bool {
        after == (AwaitCoreInner { result: Some(val), ..self })
    }

    fn continue_with(&mut self, val: Result<To, Eo>) {
        self.result = Some(val);
    }
}

/// Whoever waits for a future gets the result with which it was settled, no matter what came first,
/// and nobody else is waiting for it then.
pub proof fn whoever_waits_gets_the_result<To, Eo, Th>(
    before: PlainCoreInner<To, Eo, AwaitCoreInner<To, Eo, Th>>,
    middle: PlainCoreInner<To, Eo, AwaitCoreInner<To, Eo, Th>>,
    after: PlainCoreInner<To, Eo, AwaitCoreInner<To, Eo, Th>>,
    next: AwaitCoreInner<To, Eo, Th>,
    val: Result<To, Eo>,
)
    requires
        before.result is None,
        before.next is None,
        (before.settled(middle, val) && middle.next_set(after, next)) || (before.next_set(
            middle,
            next,
        ) && middle.settled(after, val)),
    ensures
        after.result is None,
        after.next matches Some(waiting) && waiting.result == Some(val) && waiting.handle
            == next.handle,
{
}

} // verus!
