//! Futures that are settled later, and what continues with their results.

use vstd::prelude::*;

use crate::runtime::processor::Processor;
use crate::sync::future::cores::{
    AwaitCoreInner, AwaitHandle, CatchCoreInner, CoreWrapper, PlainCore, PlainCoreInner, ThenCoreInner,
};

pub mod cores;

verus! {

/// A `Core` is what a promise and a future share.
///
/// A core has two methods:
/// * `set_next`: hands over what must be continued with the result of the core after that has
///   settled.
/// * `settle`: sets the result. This is usually called by a promise to settle a future.
pub trait Core<To, Eo>: Sized {
    /// What is continued with the result.
    type Next;

    /// The core can have this next one.
    spec fn can_set_next(&self, next: Self::Next) -> bool;

    /// What becomes of the core when it gets a next one.
    spec fn next_set(self, after: Self, next: Self::Next) -> bool;

    /// The core can be settled.
    spec fn can_settle(&self) -> bool;

    /// What becomes of the core when it is settled.
    spec fn settled(self, after: Self, val: Result<To, Eo>) -> bool;

    /// Sets what is continued with the result.
    fn set_next(&mut self, core: Self::Next)
        requires
            old(self).can_set_next(core),
        ensures
            old(self).next_set(*final(self), core),
    ;

    /// Sets the result.
    fn settle(&mut self, val: Result<To, Eo>)
        requires
            old(self).can_settle(),
        ensures
            old(self).settled(*final(self), val),
    ;
}

/// The counterpart of `Core::set_next`.
///
/// When a core is settled it calls `continue_with` on the next one.
pub trait ContinueWith<Ti, Ei>: Sized {
    /// It can be continued.
    spec fn can_continue(&self) -> bool;

    /// What becomes of it when it is continued.
    spec fn continued(self, after: Self, val: Result<Ti, Ei>) -> bool;

    /// Goes on with a result.
    fn continue_with(&mut self, val: Result<Ti, Ei>)
        requires
            old(self).can_continue(),
        ensures
            old(self).continued(*final(self), val),
    ;
}

/// A future.
pub struct Future<C>(C);

impl<C> Future<C> {
    /// The core of the future.
    pub closed spec fn spec_core(&self) -> C {
        self.0
    }

    /// A future with this core.
    pub fn with_core(core: C) -> (future: Future<C>)
        ensures
            future.spec_core() == core,
    {
        Future(core)
    }

    /// The core of the future.
    pub fn into_core(self) -> (core: C)
        ensures
            core == self.spec_core(),
    {
        self.0
    }
}

impl<To, Eo, N: ContinueWith<To, Eo>> Future<CoreWrapper<PlainCoreInner<To, Eo, N>>> {
    /// A future that is settled already.
    pub fn with_value(result: Result<To, Eo>) -> (future: Self)
        ensures
            future.spec_core().spec_inner() == Some(
                PlainCoreInner { result: Some(result), next: None::<N> },
            ),
    {
        Future(CoreWrapper::<PlainCoreInner<To, Eo, N>>::new(Some(result)))
    }

    /// A future that is settled with a value.
    pub fn resolved(val: To) -> (future: Self)
        ensures
            future.spec_core().spec_inner() == Some(
                PlainCoreInner { result: Some(Ok::<To, Eo>(val)), next: None::<N> },
            ),
    {
        Self::with_value(Ok(val))
    }

    /// A future that is settled with an error.
    pub fn rejected(val: Eo) -> (future: Self)
        ensures
            future.spec_core().spec_inner() == Some(
                PlainCoreInner { result: Some(Err::<To, Eo>(val)), next: None::<N> },
            ),
    {
        Self::with_value(Err(val))
    }
}

impl<C> Future<C> {
    /// Continues with the result of the future.
    pub fn set_next<To, Eo>(&mut self, next: C::Next) where C: Core<To, Eo>
        requires
            old(self).spec_core().can_set_next(next),
        ensures
            old(self).spec_core().next_set(final(self).spec_core(), next),
    {
        self.0.set_next(next);
    }
}

impl<Ti, To, Eo, N, F> Future<PlainCore<Ti, Eo, ThenCoreInner<To, Eo, N, F>>> where
    N: ContinueWith<To, Eo>,
    F: FnOnce(Promise<PlainCoreInner<To, Eo, N>>, Ti) -> PlainCoreInner<To, Eo, N>,
 {
    /// Goes on with the value of the future by calling the function, which gets a promise for the
    /// core of what comes next. An error is handed on to that core. Both may happen at once.
    pub fn then(self, func: F) -> (future: Self)
        requires
            self.spec_core().spec_inner() matches Some(core) && core.next is None,
            forall|promise: Promise<PlainCoreInner<To, Eo, N>>, val: Ti|
                promise.spec_core().result is None && promise.spec_core().next is None
                    ==> #[trigger] call_requires(func, (promise, val)),
        ensures
            ({
                let next = ThenCoreInner {
                    core: PlainCoreInner { result: None::<Result<To, Eo>>, next: None::<N> },
                    handler: Some(func),
                };
                self.spec_core().next_set(future.spec_core(), next)
            }),
    {
        let mut future = self;
        future.0.set_next(ThenCoreInner::new(func));
        future
    }
}

impl<To, Ei, Eo, N, F> Future<PlainCore<To, Ei, CatchCoreInner<To, Eo, N, F>>> where
    N: ContinueWith<To, Eo>,
    F: FnOnce(Promise<PlainCoreInner<To, Eo, N>>, Ei) -> PlainCoreInner<To, Eo, N>,
 {
    /// Goes on with the error of the future by calling the function, which gets a promise for the
    /// core of what comes next. A value is handed on to that core. Both may happen at once.
    pub fn catch(self, func: F) -> (future: Self)
        requires
            self.spec_core().spec_inner() matches Some(core) && core.next is None,
            forall|promise: Promise<PlainCoreInner<To, Eo, N>>, val: Ei|
                promise.spec_core().result is None && promise.spec_core().next is None
                    ==> #[trigger] call_requires(func, (promise, val)),
        ensures
            ({
                let next = CatchCoreInner {
                    core: PlainCoreInner { result: None::<Result<To, Eo>>, next: None::<N> },
                    handler: Some(func),
                };
                self.spec_core().next_set(future.spec_core(), next)
            }),
    {
        let mut future = self;
        future.0.set_next(CatchCoreInner::new(func));
        future
    }
}

impl<To, Eo, Th> Future<PlainCore<To, Eo, AwaitCoreInner<To, Eo, Th>>> {
    /// Takes the result if the future is settled. If not, the coroutine of the processor is
    /// parked, or, where there is none, the thread has to wait, until the future is settled.
    pub fn wait_result(&mut self, p: Option<&mut Processor>, thread: Th) -> (result: Option<
        Result<To, Eo>,
    >)
        requires
            old(self).spec_core().spec_inner() matches Some(core) && core.next is None,
            p matches Some(p) ==> p.current_coro is Some,
        ensures
            result == old(self).spec_core().spec_inner()->0.result,
            final(self).spec_core().spec_inner() is Some,
            ({
                let core = final(self).spec_core().spec_inner()->0;
                &&& core.result is None
                &&& core.next is Some
                &&& core.next->0.result is None
                &&& match result {
                    Some(_) => {
                        &&& core.next->0.handle is Nobody
                        &&& p matches Some(p) ==> *final(p) == *p
                    },
                    None => match p {
                        Some(p) => {
                            &&& core.next->0.is_waiting(p.current_coro->0)
                            &&& final(p).same_but_current(*p)
                            &&& final(p).current_coro is None
                        },
                        None => core.next->0.handle == AwaitHandle::Thread(thread),
                    },
                }
            }),
    {
        self.0.set_next(AwaitCoreInner::new());
        self.0.wait_for_next(p, thread)
    }
}

/// What a promise and its future share: a core that is not settled yet. Whoever has it settles it
/// through a promise and goes on with it through a future.
pub fn make<To, Eo, N>() -> (core: PlainCore<To, Eo, N>)
    ensures
        core.spec_inner() == Some(
            PlainCoreInner { result: None::<Result<To, Eo>>, next: None::<N> },
        ),
{
    CoreWrapper::<PlainCoreInner<To, Eo, N>>::new(None)
}

/// What settles a future.
pub struct Promise<C>(C);

impl<C> Promise<C> {
    /// The core of the promise.
    pub closed spec fn spec_core(&self) -> C {
        self.0
    }

    /// A promise with this core.
    pub fn with_core(core: C) -> (promise: Promise<C>)
        ensures
            promise.spec_core() == core,
    {
        Promise(core)
    }

    /// Settles the core with a value.
    pub fn resolve<To, Eo>(self, val: To) -> (core: C) where C: Core<To, Eo>
        requires
            self.spec_core().can_settle(),
        ensures
            self.spec_core().settled(core, Ok(val)),
    {
        let mut core = self.0;
        core.settle(Ok(val));
        core
    }

    /// Settles the core with an error.
    pub fn reject<To, Eo>(self, val: Eo) -> (core: C) where C: Core<To, Eo>
        requires
            self.spec_core().can_settle(),
        ensures
            self.spec_core().settled(core, Err(val)),
    {
        let mut core = self.0;
        core.settle(Err(val));
        core
    }
}

} // verus!
