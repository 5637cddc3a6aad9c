//! Spinlocks.

use vstd::prelude::*;

verus! {

/// A spinlock. The data is in it while it is not locked.
pub struct Spinlock<T> {
    data: Option<T>,
}

/// Stands for a locked spinlock and holds its data.
pub struct SpinlockGuard<T> {
    data: T,
}

impl<T> SpinlockGuard<T> {
    /// The data.
    pub closed spec fn spec_data(&self) -> T {
        self.data
    }

    /// The data.
    pub fn deref(&self) -> (data: &T)
        ensures
            *data == self.spec_data(),
    {
        &self.data
    }

    /// The data, to be changed.
    pub fn deref_mut(&mut self) -> (data: &mut T)
        ensures
            *data == old(self).spec_data(),
            *final(data) == final(self).spec_data(),
    {
        &mut self.data
    }
}

impl<T> SpinlockGuard<T> {
    /// Takes the data and leaves the spinlock locked for good.
    pub fn into_inner(self) -> (data: T)
        ensures
            data == self.spec_data(),
    {
        self.data
    }
}

impl<T> Spinlock<T> {
    /// The data, while there is no guard.
    pub closed spec fn spec_data(&self) -> Option<T> {
        self.data
    }

    /// A spinlock that is not locked.
    pub fn new(data: T) -> (lock: Spinlock<T>)
        ensures
            lock.spec_data() == Some(data),
    {
        Spinlock { data: Some(data) }
    }

    /// Locks it if it is not locked.
    pub fn try_lock(&mut self) -> (guard: Option<SpinlockGuard<T>>)
        ensures
            final(self).spec_data() is None,
            guard is Some <==> old(self).spec_data() is Some,
            guard matches Some(guard) ==> Some(guard.spec_data()) == old(self).spec_data(),
    {
        match self.data.take() {
            Some(data) => Some(SpinlockGuard { data }),
            None => None,
        }
    }

    /// Locks it. One that is locked cannot be locked, whoever wants it has to try again.
    pub fn lock(&mut self) -> (guard: SpinlockGuard<T>)
        requires
            old(self).spec_data() is Some,
        ensures
            final(self).spec_data() is None,
            Some(guard.spec_data()) == old(self).spec_data(),
    {
        SpinlockGuard { data: self.data.take().unwrap() }
    }

    /// What dropping the guard does: the data goes back, and it is not locked any more.
    pub fn unlock(&mut self, guard: SpinlockGuard<T>)
        requires
            old(self).spec_data() is None,
        ensures
            final(self).spec_data() == Some(guard.spec_data()),
    {
        self.data = Some(guard.data);
    }
}

} // verus!
