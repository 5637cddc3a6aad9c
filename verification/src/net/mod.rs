//! Asynchronous network library: how operations on sockets wait for the scheduler.

use vstd::prelude::*;

use crate::runtime::timer::Span;
use crate::scheduler::ready::{Ready, ReadyType};
use crate::sync::spinlock::Spinlock;

pub mod echo;
pub mod http;

verus! {

/// Has a coroutine that did not wait give way at the end of an operation.
pub struct SyncGuard(bool);

impl SyncGuard {
    /// The coroutine is to give way.
    pub closed spec fn is_armed(&self) -> bool {
        self.0
    }

    /// The coroutine is to give way.
    pub fn new() -> (guard: SyncGuard)
        ensures
            guard.is_armed(),
    {
        SyncGuard(true)
    }

    /// The coroutine need not give way.
    pub fn disarm(&mut self)
        ensures
            !final(self).is_armed(),
    {
        self.0 = false;
    }

    /// What dropping the guard does: tells whether the coroutine has to give way.
    pub fn finish(self) -> (give_way: bool)
        ensures
            give_way == self.is_armed(),
    {
        self.0
    }
}

/// An operation on a socket.
#[derive(Debug, Clone, Copy, PartialEq, Eq, Structural)]
pub enum Operation {
    /// Reads bytes.
    Read,
    /// Writes bytes.
    Write,
    /// Writes out what is buffered.
    Flush,
    /// Accepts a connection.
    Accept,
    /// Accepts a connection from the same machine, by a path.
    AcceptLocal,
    /// Receives a datagram.
    RecvFrom,
    /// Sends a datagram.
    SendTo,
}

impl Operation {
    /// What the operation waits for.
    pub open spec fn spec_ready_type(self) -> ReadyType {
        match self {
            Operation::Read | Operation::Accept | Operation::AcceptLocal | Operation::RecvFrom =>
                ReadyType::Readable,
            Operation::Write | Operation::Flush | Operation::SendTo => ReadyType::Writable,
        }
    }

    /// What the operation waits for.
    pub fn ready_type(self) -> (ready_type: ReadyType)
        ensures
            ready_type == self.spec_ready_type(),
    {
        match self {
            Operation::Read => ReadyType::Readable,
            Operation::Accept => ReadyType::Readable,
            Operation::AcceptLocal => ReadyType::Readable,
            Operation::RecvFrom => ReadyType::Readable,
            Operation::Write => ReadyType::Writable,
            Operation::Flush => ReadyType::Writable,
            Operation::SendTo => ReadyType::Writable,
        }
    }

    /// The operation also waits while the socket is not connected yet.
    pub open spec fn spec_waits_for_connection(self) -> bool {
        match self {
            Operation::Read | Operation::Write | Operation::Flush => true,
            Operation::Accept | Operation::AcceptLocal | Operation::RecvFrom | Operation::SendTo =>
                false,
        }
    }

    /// Whether the operation also waits while the socket is not connected yet.
    pub fn waits_for_connection(self) -> (waits: bool)
        ensures
            waits == self.spec_waits_for_connection(),
    {
        match self {
            Operation::Read => true,
            Operation::Write => true,
            Operation::Flush => true,
            Operation::Accept => false,
            Operation::AcceptLocal => false,
            Operation::RecvFrom => false,
            Operation::SendTo => false,
        }
    }
}

/// How an attempt at an operation ended.
pub enum Attempt<T, E> {
    /// It is done.
    Done(T),
    /// It cannot be done yet.
    WouldBlock,
    /// The socket is not connected.
    NotConnected(E),
    /// It failed for another reason.
    Failed(E),
}

/// Why an operation failed.
pub enum IoError<E> {
    /// Its time ran out.
    TimedOut,
    /// The system says so.
    System(E),
}

/// How an operation goes on.
pub enum Step<T, E> {
    /// It is over.
    Return(Result<T, IoError<E>>),
    /// Wait for this, without a limit or for so many milliseconds.
    Wait { ready_type: ReadyType, timeout: Option<u64> },
    /// Try it again.
    Try,
}

/// What the scheduler knows of a socket: its token, its ready states, and how long operations
/// wait.
pub struct GenericEvented {
    token: usize,
    ready_states: usize,
    read_timeout: Spinlock<Option<Span>>,
    write_timeout: Spinlock<Option<Span>>,
}

impl GenericEvented {
    /// The token under which the socket is registered.
    pub closed spec fn spec_token(&self) -> usize {
        self.token
    }

    /// The number of the ready states of the socket.
    pub closed spec fn spec_ready_states(&self) -> usize {
        self.ready_states
    }

    /// How long a read waits, while nobody holds the lock.
    pub closed spec fn spec_read_timeout(&self) -> Option<Option<Span>> {
        self.read_timeout.spec_data()
    }

    /// How long a write waits, while nobody holds the lock.
    pub closed spec fn spec_write_timeout(&self) -> Option<Option<Span>> {
        self.write_timeout.spec_data()
    }

    /// Nobody holds the locks.
    pub open spec fn wf(&self) -> bool {
        self.spec_read_timeout() is Some && self.spec_write_timeout() is Some
    }

    /// A socket that was registered.
    pub fn new(token: usize, ready_states: usize) -> (evented: GenericEvented)
        ensures
            evented.wf(),
            evented.spec_token() == token,
            evented.spec_ready_states() == ready_states,
            evented.spec_read_timeout() == Some(None::<Span>),
            evented.spec_write_timeout() == Some(None::<Span>),
    {
        GenericEvented {
            token,
            ready_states,
            read_timeout: Spinlock::new(None),
            write_timeout: Spinlock::new(None),
        }
    }

    /// The token under which the socket is registered.
    pub fn token(&self) -> (token: usize)
        ensures
            token == self.spec_token(),
    {
        self.token
    }

    /// The number of the ready states of the socket.
    pub fn ready_states(&self) -> (key: usize)
        ensures
            key == self.spec_ready_states(),
    {
        self.ready_states
    }

    /// Everything but the timeouts is as in `other`.
    pub open spec fn same_socket(&self, other: GenericEvented) -> bool {
        &&& self.spec_token() == other.spec_token()
        &&& self.spec_ready_states() == other.spec_ready_states()
    }

    /// Sets how long a read waits.
    pub fn set_read_timeout(&mut self, dur: Option<Span>)
        requires
            old(self).wf(),
        ensures
            final(self).wf(),
            final(self).same_socket(*old(self)),
            final(self).spec_read_timeout() == Some(dur),
            final(self).spec_write_timeout() == old(self).spec_write_timeout(),
    {
        let mut guard = self.read_timeout.lock();
        *guard.deref_mut() = dur;
        self.read_timeout.unlock(guard);
    }

    /// How long a read waits.
    pub fn read_timeout(&mut self) -> (dur: Option<Span>)
        requires
            old(self).wf(),
        ensures
            final(self).wf(),
            final(self).same_socket(*old(self)),
            final(self).spec_read_timeout() == old(self).spec_read_timeout(),
            final(self).spec_write_timeout() == old(self).spec_write_timeout(),
            Some(dur) == old(self).spec_read_timeout(),
    {
        let guard = self.read_timeout.lock();
        let dur = *guard.deref();
        self.read_timeout.unlock(guard);
        dur
    }

    /// Sets how long a write waits.
    pub fn set_write_timeout(&mut self, dur: Option<Span>)
        requires
            old(self).wf(),
        ensures
            final(self).wf(),
            final(self).same_socket(*old(self)),
            final(self).spec_write_timeout() == Some(dur),
            final(self).spec_read_timeout() == old(self).spec_read_timeout(),
    {
        let mut guard = self.write_timeout.lock();
        *guard.deref_mut() = dur;
        self.write_timeout.unlock(guard);
    }

    /// How long a write waits.
    pub fn write_timeout(&mut self) -> (dur: Option<Span>)
        requires
            old(self).wf(),
        ensures
            final(self).wf(),
            final(self).same_socket(*old(self)),
            final(self).spec_read_timeout() == old(self).spec_read_timeout(),
            final(self).spec_write_timeout() == old(self).spec_write_timeout(),
            Some(dur) == old(self).spec_write_timeout(),
    {
        let guard = self.write_timeout.lock();
        let dur = *guard.deref();
        self.write_timeout.unlock(guard);
        dur
    }

    /// How many milliseconds the operation waits at most: what waits to read, as long as a read,
    /// and what waits to write, as long as a write. The accept of a local connection waits without
    /// a limit.
    pub open spec fn spec_timeout(&self, op: Operation) -> Option<u64> {
        let span = if op == Operation::AcceptLocal {
            None
        } else {
            match op.spec_ready_type() {
                ReadyType::Readable => self.spec_read_timeout()->0,
                ReadyType::Writable => self.spec_write_timeout()->0,
            }
        };
        match span {
            Some(span) => Some(span.spec_as_ms() as u64),
            None => None,
        }
    }

    /// How an operation goes on after an attempt.
    pub open spec fn next_step<T, E>(&self, op: Operation, attempt: Attempt<T, E>) -> Step<T, E> {
        match attempt {
            Attempt::Done(t) => Step::Return(Ok(t)),
            Attempt::Failed(e) => Step::Return(Err(IoError::System(e))),
            Attempt::NotConnected(e) if !op.spec_waits_for_connection() => Step::Return(
                Err(IoError::System(e)),
            ),
            _ => Step::Wait {
                ready_type: op.spec_ready_type(),
                timeout: self.spec_timeout(op),
            },
        }
    }

    /// Whether the coroutine has to give way at the end of its operation, after this step.
    pub open spec fn has_to_give_way<T, E>(before: bool, step: Step<T, E>) -> bool {
        before && step is Return
    }

    /// Goes on with an operation after an attempt. If it has to wait, it need not give way at
    /// its end.
    pub fn step<T, E>(
        &mut self,
        op: Operation,
        attempt: Attempt<T, E>,
        sync_guard: &mut SyncGuard,
    ) -> (step: Step<T, E>)
        requires
            old(self).wf(),
        ensures
            final(self).wf(),
            final(self).same_socket(*old(self)),
            final(self).spec_read_timeout() == old(self).spec_read_timeout(),
            final(self).spec_write_timeout() == old(self).spec_write_timeout(),
            step == old(self).next_step(op, attempt),
            final(sync_guard).is_armed() == Self::has_to_give_way(old(sync_guard).is_armed(), step),
    {
        match attempt {
            Attempt::Done(t) => {
                return Step::Return(Ok(t));
            },
            Attempt::WouldBlock => {},
            Attempt::NotConnected(e) => {
                if !op.waits_for_connection() {
                    return Step::Return(Err(IoError::System(e)));
                }
            },
            Attempt::Failed(e) => {
                return Step::Return(Err(IoError::System(e)));
            },
        }
        sync_guard.disarm();
        let ready_type = op.ready_type();
        let span = if op == Operation::AcceptLocal {
            None
        } else {
            match ready_type {
                ReadyType::Readable => self.read_timeout(),
                ReadyType::Writable => self.write_timeout(),
            }
        };
        let timeout = match span {
            Some(span) => Some(span.as_ms()),
            None => None,
        };
        Step::Wait { ready_type, timeout }
    }

    /// How an operation goes on after its wait ended: it fails if the time ran out, and is tried
    /// again if not.
    pub open spec fn after_wait<T, E>(timed_out: bool) -> Step<T, E> {
        if timed_out {
            Step::Return(Err(IoError::TimedOut))
        } else {
            Step::Try
        }
    }

    /// Goes on with an operation after its wait ended.
    pub fn wait_ended<T, E>(&self, timed_out: bool) -> (step: Step<T, E>)
        ensures
            step == Self::after_wait::<T, E>(timed_out),
    {
        if timed_out {
            Step::Return(Err(IoError::TimedOut))
        } else {
            Step::Try
        }
    }

    /// A read or a write never fails because it would block or because the socket is not connected
    /// yet: it waits, and fails with a timeout if and only if the time of that wait ran out.
    pub proof fn blocked_operation_waits<T, E>(
        &self,
        op: Operation,
        attempt: Attempt<T, E>,
        timed_out: bool,
    )
        requires
            op.spec_waits_for_connection(),
            attempt is WouldBlock || attempt is NotConnected,
        ensures
            self.next_step(op, attempt) == (Step::<T, E>::Wait {
                ready_type: op.spec_ready_type(),
                timeout: self.spec_timeout(op),
            }),
            timed_out ==> Self::after_wait::<T, E>(timed_out) == Step::<T, E>::Return(
                Err(IoError::TimedOut),
            ),
            !timed_out ==> Self::after_wait::<T, E>(timed_out) is Try,
    {
    }
}

/// The events for which a socket that listens, or the reading end of a pipe, is registered.
pub fn listener_interest() -> (interest: Ready)
    ensures
        interest.bits == 1,
{
    Ready::readable()
}

/// The events for which the writing end of a pipe is registered.
pub fn pipe_writer_interest() -> (interest: Ready)
    ensures
        interest.bits == 2,
{
    Ready::writable()
}

/// The events for which a socket that is read and written is registered.
pub fn stream_interest() -> (interest: Ready)
    ensures
        interest.bits == 3,
        interest.spec_contains(Ready { bits: 1 }),
        interest.spec_contains(Ready { bits: 2 }),
{
    proof {
        assert(1usize | 2usize == 3usize) by (bit_vector);
        assert(3usize & 1usize == 1usize) by (bit_vector);
        assert(3usize & 2usize == 2usize) by (bit_vector);
    }
    Ready { bits: Ready::readable().bits | Ready::writable().bits }
}

/// The function failed for the address.
pub open spec fn failed<A, T, E, F: Fn(&A) -> Result<T, E>>(addr: A, f: F) -> bool {
    exists|e: E| call_ensures(f, (&addr,), Err::<T, E>(e))
}

/// The function failed for all of the first `n` addresses, the last time with this error.
pub open spec fn all_failed<A, T, E, F: Fn(&A) -> Result<T, E>>(
    addrs: Seq<A>,
    n: int,
    f: F,
    last: Option<E>,
) -> bool {
    &&& forall|i: int| 0 <= i < n ==> failed::<A, T, E, F>(#[trigger] addrs[i], f)
    &&& n == 0 ==> last is None
    &&& n > 0 ==> last is Some && call_ensures(f, (&addrs[n - 1],), Err::<T, E>(last->0))
}

/// Calls the function with one address after the other until it succeeds. If it never does, the
/// last error comes back, or none if there was no address.
pub fn each_addr<A, T, E, F: Fn(&A) -> Result<T, E>>(addrs: &Vec<A>, f: F) -> (result: Result<
    T,
    Option<E>,
>)
    requires
        forall|i: int| 0 <= i < addrs@.len() ==> call_requires(f, (&#[trigger] addrs@[i],)),
    ensures
        match result {
            Ok(t) => exists|n: int, last: Option<E>|
                {
                    &&& 0 <= n < addrs@.len()
                    &&& #[trigger] all_failed::<A, T, E, F>(addrs@, n, f, last)
                    &&& call_ensures(f, (&addrs@[n],), Ok::<T, E>(t))
                },
            Err(last) => all_failed::<A, T, E, F>(addrs@, addrs@.len() as int, f, last),
        },
{
    let mut last_err: Option<E> = None;
    let mut i: usize = 0;
    while i < addrs.len()
        invariant
            i <= addrs@.len(),
            forall|i: int| 0 <= i < addrs@.len() ==> call_requires(f, (&#[trigger] addrs@[i],)),
            all_failed::<A, T, E, F>(addrs@, i as int, f, last_err),
        decreases addrs@.len() - i,
    {
        match f(&addrs[i]) {
            Ok(t) => {
                return Ok(t);
            },
            Err(e) => {
                last_err = Some(e);
            },
        }
        i = i + 1;
    }
    Err(last_err)
}

/// An operation that would block waits for the event after which it can go on, for as long as the
/// socket lets it: what reads, accepts or receives waits until the socket can be read, for the full
/// milliseconds of the read timeout, and what writes, flushes or sends until it can be written, for
/// those of the write timeout. Only the accept of a local connection has no limit.
pub proof fn blocked_operation_waits_for_its_event<T, E>(socket: GenericEvented, op: Operation)
    requires
        socket.wf(),
    ensures
        socket.next_step::<T, E>(op, Attempt::WouldBlock) matches Step::Wait { ready_type, timeout }
            && {
            let reads = op == Operation::Read || op == Operation::Accept || op
                == Operation::AcceptLocal || op == Operation::RecvFrom;
            let span = if reads {
                socket.spec_read_timeout()->0
            } else {
                socket.spec_write_timeout()->0
            };
            &&& reads ==> ready_type == ReadyType::Readable
            &&& !reads ==> ready_type == ReadyType::Writable
            &&& op == Operation::AcceptLocal || span is None ==> timeout is None
            &&& op != Operation::AcceptLocal ==> (span matches Some(span) ==> {
                &&& timeout matches Some(ms) && ms * 1_000_000 <= span.secs * 1_000_000_000
                    + span.nanos
                &&& timeout->0 < u64::MAX ==> span.secs * 1_000_000_000 + span.nanos < (timeout->0
                    + 1) * 1_000_000
            })
        },
{
    if let Some(span) = socket.spec_read_timeout()->0 {
        span.only_full_milliseconds_count();
    }
    if let Some(span) = socket.spec_write_timeout()->0 {
        span.only_full_milliseconds_count();
    }
}

/// What an attempt gave is what the operation gives: the value if it is done, and the error of the
/// system if it failed. Whoever accepts or exchanges datagrams also fails if the socket is not
/// connected; a stream waits for the connection as if it would block.
pub proof fn outcome_of_the_attempt_is_kept<T, E>(
    socket: GenericEvented,
    op: Operation,
    t: T,
    e: E,
)
    ensures
        socket.next_step(op, Attempt::<T, E>::Done(t)) == Step::<T, E>::Return(Ok(t)),
        socket.next_step(op, Attempt::<T, E>::Failed(e)) == Step::<T, E>::Return(
            Err(IoError::System(e)),
        ),
        op == Operation::Accept || op == Operation::AcceptLocal || op == Operation::RecvFrom || op
            == Operation::SendTo ==> socket.next_step(op, Attempt::<T, E>::NotConnected(e)) == Step::<
            T,
            E,
        >::Return(Err(IoError::System(e))),
        op == Operation::Read || op == Operation::Write || op == Operation::Flush
            ==> socket.next_step(op, Attempt::<T, E>::NotConnected(e)) == socket.next_step(
            op,
            Attempt::<T, E>::WouldBlock,
        ),
{
}

/// Only a wait whose time ran out ends the operation, and with the error that says so; after any
/// other wait it is tried again.
pub proof fn only_a_timeout_ends_the_operation<T, E>(timed_out: bool)
    ensures
        timed_out ==> (GenericEvented::after_wait::<T, E>(timed_out) matches Step::Return(Err(e))
            && e is TimedOut),
        !timed_out ==> GenericEvented::after_wait::<T, E>(timed_out) is Try,
{
}

/// When no address is left the error is the one of the last address, not of an earlier one; before
/// that, every address was tried and failed. Without any address there is no error.
pub proof fn last_error_counts<A, T, E, F: Fn(&A) -> Result<T, E>>(
    addrs: Seq<A>,
    f: F,
    last: Option<E>,
    i: int,
)
    requires
        all_failed::<A, T, E, F>(addrs, addrs.len() as int, f, last),
    ensures
        0 <= i < addrs.len() ==> exists|e: E| call_ensures(f, (&addrs[i],), Err::<T, E>(e)),
        addrs.len() > 0 ==> (last matches Some(e) && call_ensures(
            f,
            (&addrs[addrs.len() - 1],),
            Err::<T, E>(e),
        )),
        addrs.len() == 0 ==> last is None,
{
    if 0 <= i < addrs.len() {
        assert(failed::<A, T, E, F>(addrs[i], f));
    }
}

/// A coroutine has to give way at the end of an operation that was done, or failed, at once. It need
/// not after one that had to wait, whatever became of it then, as it gave way while it waited.
pub proof fn only_who_did_not_wait_gives_way<T, E>(
    socket: GenericEvented,
    op: Operation,
    first: Attempt<T, E>,
    last: Attempt<T, E>,
)
    requires
        last is Done || last is Failed,
    ensures
        first is Done || first is Failed ==> GenericEvented::has_to_give_way(
            true,
            socket.next_step(op, first),
        ),
        first is WouldBlock ==> !GenericEvented::has_to_give_way(
            GenericEvented::has_to_give_way(true, socket.next_step(op, first)),
            socket.next_step(op, last),
        ),
{
}

} // verus!
