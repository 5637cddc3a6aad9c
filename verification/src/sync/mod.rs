//! What coroutines use to wait for each other.

pub mod condvar;
pub mod future;
pub mod mono_barrier;
pub mod mpsc;
pub mod mutex;
pub mod semaphore;
pub mod spinlock;
