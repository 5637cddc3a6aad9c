//! Promises: what is to be done with the result of a task.

use vstd::prelude::*;

verus! {

/// A task that has ended, with a value or with an error.
pub struct Promise<T, E> {
    result: Result<T, E>,
}

impl<T, E> Promise<T, E> {
    /// The result of the task.
    pub closed spec fn spec_result(&self) -> Result<T, E> {
        self.result
    }

    /// A task that has ended with this result.
    pub fn joined(result: Result<T, E>) -> (promise: Promise<T, E>)
        ensures
            promise.spec_result() == result,
    {
        Promise { result }
    }

    /// Executes a task.
    pub fn spawn<F: FnOnce() -> Result<T, E>>(f: F) -> (promise: Promise<T, E>)
        requires
            call_requires(f, ()),
        ensures
            call_ensures(f, (), promise.spec_result()),
    {
        Promise { result: f() }
    }

    /// The result of the task.
    pub fn sync(self) -> (result: Result<T, E>)
        ensures
            result == self.spec_result(),
    {
        self.result
    }

    /// Executes one of the functions, depending on the result.
    pub fn then<TT, EE, FT: FnOnce(T) -> Result<TT, EE>, FE: FnOnce(E) -> Result<TT, EE>>(
        self,
        ft: FT,
        fe: FE,
    ) -> (promise: Promise<TT, EE>)
        requires
            match self.spec_result() {
                Ok(t) => call_requires(ft, (t,)),
                Err(e) => call_requires(fe, (e,)),
            },
        ensures
            match self.spec_result() {
                Ok(t) => call_ensures(ft, (t,), promise.spec_result()),
                Err(e) => call_ensures(fe, (e,), promise.spec_result()),
            },
    {
        match self.result {
            Ok(t) => Promise { result: ft(t) },
            Err(e) => Promise { result: fe(e) },
        }
    }

    /// Runs the function with the result.
    pub fn chain<TT, EE, F: FnOnce(Result<T, E>) -> Result<TT, EE>>(self, f: F) -> (promise:
        Promise<TT, EE>)
        requires
            call_requires(f, (self.spec_result(),)),
        ensures
            call_ensures(f, (self.spec_result(),), promise.spec_result()),
    {
        Promise { result: f(self.result) }
    }

    /// Executes the function if the result is `Ok`, otherwise just hands the error on.
    pub fn success<TT, F: FnOnce(T) -> Result<TT, E>>(self, f: F) -> (promise: Promise<TT, E>)
        requires
            self.spec_result() matches Ok(t) ==> call_requires(f, (t,)),
        ensures
            match self.spec_result() {
                Ok(t) => call_ensures(f, (t,), promise.spec_result()),
                Err(e) => promise.spec_result() == Err::<TT, E>(e),
            },
    {
        match self.result {
            Ok(t) => Promise { result: f(t) },
            Err(e) => Promise { result: Err(e) },
        }
    }

    /// Executes the function if the result is `Err`, otherwise just hands the value on.
    pub fn fail<F: FnOnce(E) -> Result<T, E>>(self, f: F) -> (promise: Promise<T, E>)
        requires
            self.spec_result() matches Err(e) ==> call_requires(f, (e,)),
        ensures
            match self.spec_result() {
                Ok(t) => promise.spec_result() == Ok::<T, E>(t),
                Err(e) => call_ensures(f, (e,), promise.spec_result()),
            },
    {
        match self.result {
            Ok(t) => Promise { result: Ok(t) },
            Err(e) => Promise { result: f(e) },
        }
    }

    /// Executes the function with the result.
    pub fn finally<F: FnOnce(Result<T, E>)>(self, f: F)
        requires
            call_requires(f, (self.spec_result(),)),
        ensures
            call_ensures(f, (self.spec_result(),), ()),
    {
        f(self.result)
    }

    /// Executes the function with the result, in the coroutine of the caller.
    pub fn finally_sync<F: FnOnce(Result<T, E>)>(self, f: F)
        requires
            call_requires(f, (self.spec_result(),)),
        ensures
            call_ensures(f, (self.spec_result(),), ()),
    {
        f(self.sync())
    }
}

} // verus!
