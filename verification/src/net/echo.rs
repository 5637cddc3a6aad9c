//! A connection that sends back what it receives: when it reads, and when it writes.

use vstd::prelude::*;

use crate::net::Attempt;

verus! {

/// The bit of the event that the connection can be read.
pub const READABLE: usize = 1;

/// The bit of the event that the connection can be written.
pub const WRITABLE: usize = 2;

/// The bit of the event that the other end has hung up.
pub const HUP: usize = 8;

/// The number of bytes that are read at once.
pub const BUFFER: usize = 2048;

/// What becomes of the registration of a connection.
#[derive(Debug, Clone, Copy, PartialEq, Eq, Structural)]
pub enum Registration {
    /// It is registered for these events again.
    Again(usize),
    /// It is not registered any more, and is dropped.
    Dropped,
}

/// A connection: either it has read something that it has to write, or it has room to read.
pub struct EchoConn {
    /// What was read and has to be written.
    pub buf: Option<Vec<u8>>,
    /// There is room to read.
    pub mut_buf: bool,
    /// The events for which it is registered.
    pub interest: usize,
}

impl EchoConn {
    /// A connection that has room to read.
    pub fn new() -> (conn: EchoConn)
        ensures
            conn.buf is None,
            conn.mut_buf,
            conn.interest == HUP,
    {
        EchoConn { buf: None, mut_buf: true, interest: HUP }
    }

    /// The connection could be written, and an attempt was made to write everything.
    pub fn writable<E>(&mut self, attempt: Attempt<usize, E>) -> (registration: Registration)
        requires
            old(self).buf is Some,
        ensures
            wrote(*old(self), *final(self), attempt, registration),
    {
        let buf = self.buf.take();
        match attempt {
            Attempt::WouldBlock => {
                self.buf = buf;
                self.interest = self.interest | WRITABLE;
            },
            Attempt::Done(_) => {
                self.mut_buf = true;
                self.interest = (self.interest | READABLE) & !WRITABLE;
            },
            _ => {},
        }
        Registration::Again(self.interest)
    }

    /// The connection could be read, and an attempt was made. Nothing to read means that it has
    /// ended.
    pub fn readable<E>(&mut self, attempt: Attempt<Vec<u8>, E>) -> (registration: Registration)
        requires
            old(self).mut_buf,
        ensures
            tried_to_read(*old(self), *final(self), attempt, registration),
    {
        self.mut_buf = false;
        match attempt {
            Attempt::WouldBlock => {
                self.mut_buf = true;
            },
            Attempt::Done(bytes) => {
                if bytes.len() == 0 {
                    return Registration::Dropped;
                }
                self.buf = Some(bytes);
                self.interest = (self.interest & !READABLE) | WRITABLE;
            },
            _ => {
                self.interest = self.interest & !READABLE;
            },
        }
        Registration::Again(self.interest)
    }
}

/// After something was read the connection waits to write it, and after that it waits to read
/// again, never for both.
pub proof fn reads_and_writes_in_turn(interest: usize)
    ensures
        ((interest & !READABLE) | WRITABLE) & READABLE == 0,
        ((interest & !READABLE) | WRITABLE) & WRITABLE == WRITABLE,
        ((interest | READABLE) & !WRITABLE) & READABLE == READABLE,
        ((interest | READABLE) & !WRITABLE) & WRITABLE == 0,
{
    assert(((interest & !1usize) | 2usize) & 1usize == 0usize) by (bit_vector);
    assert(((interest & !1usize) | 2usize) & 2usize == 2usize) by (bit_vector);
    assert(((interest | 1usize) & !2usize) & 1usize == 1usize) by (bit_vector);
    assert(((interest | 1usize) & !2usize) & 2usize == 0usize) by (bit_vector);
}

/// What becomes of a connection after an attempt to write.
pub open spec fn wrote<E>(
    before: EchoConn,
    after: EchoConn,
    attempt: Attempt<usize, E>,
    registration: Registration,
) -> bool {
    &&& registration == Registration::Again(after.interest)
    &&& match attempt {
        Attempt::WouldBlock => {
            &&& after.buf == before.buf
            &&& after.mut_buf == before.mut_buf
            &&& after.interest == before.interest | WRITABLE
        },
        Attempt::Done(_) => {
            &&& after.buf is None
            &&& after.mut_buf
            &&& after.interest == (before.interest | READABLE) & !WRITABLE
        },
        _ => {
            &&& after.buf is None
            &&& after.mut_buf == before.mut_buf
            &&& after.interest == before.interest
        },
    }
}

/// What becomes of a connection after an attempt to read.
pub open spec fn tried_to_read<E>(
    before: EchoConn,
    after: EchoConn,
    attempt: Attempt<Vec<u8>, E>,
    registration: Registration,
) -> bool {
    match attempt {
        Attempt::WouldBlock => {
            &&& after == before
            &&& registration == Registration::Again(before.interest)
        },
        Attempt::Done(bytes) => if bytes@.len() == 0 {
            &&& registration == Registration::Dropped
            &&& after.buf == before.buf
            &&& !after.mut_buf
            &&& after.interest == before.interest
        } else {
            &&& after.buf == Some(bytes)
            &&& !after.mut_buf
            &&& after.interest == (before.interest & !READABLE) | WRITABLE
            &&& registration == Registration::Again(after.interest)
        },
        _ => {
            &&& after.buf == before.buf
            &&& !after.mut_buf
            &&& after.interest == before.interest & !READABLE
            &&& registration == Registration::Again(after.interest)
        },
    }
}

/// What the connection has received is what it sends back: it is kept, with the event that it can
/// be written awaited and not the one that it can be read, until it was written, however often that
/// would block. Then there is room to read again, and that is what is awaited. All along the
/// connection is told when the other end hangs up.
pub proof fn what_was_read_is_written<E>(
    before: EchoConn,
    full: EchoConn,
    blocked: EchoConn,
    after: EchoConn,
    bytes: Vec<u8>,
    written: usize,
    registrations: (Registration, Registration, Registration),
)
    requires
        bytes@.len() > 0,
        tried_to_read::<E>(before, full, Attempt::Done(bytes), registrations.0),
        wrote::<E>(full, blocked, Attempt::WouldBlock, registrations.1),
        wrote::<E>(blocked, after, Attempt::Done(written), registrations.2),
    ensures
        full.buf == Some(bytes) && !full.mut_buf,
        blocked.buf == Some(bytes) && !blocked.mut_buf,
        after.buf is None && after.mut_buf,
        registrations.0 matches Registration::Again(events) && events & 1 == 0 && events & 2 == 2
            && (before.interest & 8 == 8 ==> events & 8 == 8),
        registrations.1 matches Registration::Again(events) && events & 1 == 0 && events & 2 == 2
            && (before.interest & 8 == 8 ==> events & 8 == 8),
        registrations.2 matches Registration::Again(events) && events & 1 == 1 && events & 2 == 0
            && (before.interest & 8 == 8 ==> events & 8 == 8),
{
    let i = before.interest;
    assert(((i & !1usize) | 2usize) & 1usize == 0usize) by (bit_vector);
    assert(((i & !1usize) | 2usize) & 2usize == 2usize) by (bit_vector);
    assert(i & 8usize == 8usize ==> ((i & !1usize) | 2usize) & 8usize == 8usize) by (bit_vector);
    let f = full.interest;
    assert(f & 1usize == 0usize ==> (f | 2usize) & 1usize == 0usize) by (bit_vector);
    assert((f | 2usize) & 2usize == 2usize) by (bit_vector);
    assert(f & 8usize == 8usize ==> (f | 2usize) & 8usize == 8usize) by (bit_vector);
    let b = blocked.interest;
    reads_and_writes_in_turn(b);
    assert(b & 8usize == 8usize ==> ((b | 1usize) & !2usize) & 8usize == 8usize) by (bit_vector);
}

/// A connection is given up if and only if its other end has ended it: a read that gives nothing.
pub proof fn only_an_ended_connection_is_dropped<E>(
    before: EchoConn,
    after: EchoConn,
    attempt: Attempt<Vec<u8>, E>,
    registration: Registration,
)
    requires
        tried_to_read(before, after, attempt, registration),
    ensures
        registration == Registration::Dropped <==> (attempt matches Attempt::Done(bytes) && bytes@
            == Seq::<u8>::empty()),
        attempt is WouldBlock ==> after == before,
{
    if let Attempt::Done(bytes) = attempt {
        if bytes@.len() == 0 {
            assert(bytes@ =~= Seq::<u8>::empty());
        }
    }
}

/// A write that fails gives up what was to be written, and a read that fails gives up reading; else
/// the connection and what it is registered for stay as they are. A connection that is dropped does
/// not read any more.
pub proof fn failure_gives_up_only_what_failed<E>(
    before: EchoConn,
    after_write: EchoConn,
    after_read: EchoConn,
    write: Attempt<usize, E>,
    read: Attempt<Vec<u8>, E>,
    registrations: (Registration, Registration),
)
    requires
        wrote(before, after_write, write, registrations.0),
        tried_to_read(before, after_read, read, registrations.1),
    ensures
        write is Failed || write is NotConnected ==> {
            &&& after_write.buf is None
            &&& after_write.mut_buf == before.mut_buf
            &&& registrations.0 == Registration::Again(before.interest)
            &&& after_write.interest == before.interest
        },
        read is Failed || read is NotConnected ==> {
            &&& after_read.buf == before.buf
            &&& !after_read.mut_buf
            &&& registrations.1 matches Registration::Again(events) && events & 1 == 0 && (events
                | 1) == (before.interest | 1)
            &&& after_read.interest & 1 == 0
        },
        registrations.1 is Dropped ==> {
            &&& after_read.buf == before.buf
            &&& !after_read.mut_buf
            &&& after_read.interest == before.interest
        },
{
    let i = before.interest;
    assert((i & !1usize) & 1usize == 0usize) by (bit_vector);
    assert((i & !1usize) | 1usize == i | 1usize) by (bit_vector);
}

} // verus!
