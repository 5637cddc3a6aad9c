//! Multi-producer, single-consumer FIFO queue communication primitives.

use std::collections::VecDeque;

use vstd::prelude::*;

use crate::coroutine::{Handle, HandleList, State};
use crate::fifo;
use crate::fifo::Passing;
use crate::runtime::processor::Processor;

verus! {

/// The value could not be sent, as there is no receiver any more.
#[derive(Debug, PartialEq, Eq)]
pub struct SendError<T>(pub T);

/// Why a value could not be sent at once.
#[derive(Debug, PartialEq, Eq)]
pub enum TrySendError<T> {
    /// The channel is full.
    Full(T),
    /// There is no receiver any more.
    Disconnected(T),
}

/// Why nothing could be received at once.
#[derive(Debug, Clone, Copy, PartialEq, Eq, Structural)]
pub enum TryRecvError {
    /// Nothing was sent yet.
    Empty,
    /// Nothing more can be sent, as there is no sender any more.
    Disconnected,
}

/// Nothing more can be received, as there is no sender any more.
#[derive(Debug, Clone, Copy, PartialEq, Eq, Structural)]
pub struct RecvError;

/// How a receive goes on.
#[derive(Debug, PartialEq, Eq)]
pub enum Recv<T> {
    /// This was received.
    Received(T),
    /// The coroutine is parked, and has to ask again when it is made ready.
    Parked,
}

/// How a send on a bounded channel goes on.
pub enum Send<T> {
    /// It is done, and this coroutine, if any, is to be made ready.
    Sent(Option<Handle>),
    /// The coroutine is parked, and has to send the value again when it is made ready.
    Parked(T),
}

/// The coroutine of a processor was parked and is at the back of a list.
pub open spec fn parked_at_back(
    before: Seq<Handle>,
    after: Seq<Handle>,
    p_before: Processor,
    p_after: Processor,
) -> bool {
    &&& after.len() == before.len() + 1
    &&& after.drop_last() == before
    &&& after.last().moved_to(p_before.current_coro->0, State::Parked)
    &&& p_after.same_but_current(p_before)
    &&& p_after.current_coro is None
}

/// The first one of a list, if there is one, was taken out.
pub open spec fn first_taken(
    before: Seq<Handle>,
    after: Seq<Handle>,
    first: Option<Handle>,
) -> bool {
    if before.len() > 0 {
        first == Some(before[0]) && after == before.drop_first()
    } else {
        first is None && after == before
    }
}

/// What the two ends of an unbounded channel share.
pub struct Channel<T> {
    queue: VecDeque<T>,
    senders: usize,
    receiver: bool,
    wait_list: HandleList,
}

impl<T> View for Channel<T> {
    type V = Seq<T>;

    /// What was sent and not yet received, in the order in which it was sent.
    closed spec fn view(&self) -> Seq<T> {
        self.queue@
    }
}

impl<T> Channel<T> {
    /// The number of senders.
    pub closed spec fn spec_senders(&self) -> usize {
        self.senders
    }

    /// There is a receiver.
    pub closed spec fn has_receiver(&self) -> bool {
        self.receiver
    }

    /// The coroutines that wait to receive.
    pub closed spec fn waiting(&self) -> Seq<Handle> {
        self.wait_list@
    }

    /// The ends are as in `other`.
    pub open spec fn same_ends(&self, other: Channel<T>) -> bool {
        &&& self.spec_senders() == other.spec_senders()
        &&& self.has_receiver() == other.has_receiver()
    }

    /// A value was sent, and the first one of those who wait to receive was taken out.
    pub open spec fn sent(&self, after: Channel<T>, t: T, ready: Option<Handle>) -> bool {
        &&& self.has_receiver()
        &&& fifo::passes(self@, after@, Passing::In(t))
        &&& first_taken(self.waiting(), after.waiting(), ready)
    }

    /// A value was received.
    pub open spec fn received(&self, after: Channel<T>, t: T) -> bool {
        &&& fifo::passes(self@, after@, Passing::Out(t))
        &&& after.waiting() == self.waiting()
    }

    /// What a call of `send` does: the value is sent if there is a receiver, else it comes back.
    pub open spec fn send_called(
        &self,
        after: Channel<T>,
        t: T,
        sent: Result<Option<Handle>, SendError<T>>,
    ) -> bool {
        match sent {
            Ok(ready) => {
                &&& self.sent(after, t, ready)
                &&& self.waiting().len() > 0 ==> ready == Some(self.waiting()[0])
            },
            Err(SendError(rejected)) => {
                &&& !self.has_receiver()
                &&& rejected == t
                &&& after == *self
            },
        }
    }

    /// What a call of `try_recv` does: a value is received if there is one, and else nothing
    /// happens.
    pub open spec fn try_recv_called(
        &self,
        after: Channel<T>,
        received: Result<T, TryRecvError>,
    ) -> bool {
        match received {
            Ok(t) => self.received(after, t),
            Err(e) => {
                &&& self@.len() == 0
                &&& after@ == self@
                &&& e == (if self.spec_senders() > 0 {
                    TryRecvError::Empty
                } else {
                    TryRecvError::Disconnected
                })
            },
        }
    }

    /// What a call of `recv` does: a value is received if there is one; if there is none, and more
    /// can come, the coroutine is parked.
    pub open spec fn recv_called(
        &self,
        after: Channel<T>,
        p_before: Processor,
        p_after: Processor,
        received: Result<Recv<T>, RecvError>,
    ) -> bool {
        match received {
            Ok(Recv::Received(t)) => {
                &&& self.received(after, t)
                &&& p_after == p_before
            },
            Ok(Recv::Parked) => {
                &&& self@.len() == 0 && self.spec_senders() > 0
                &&& after@ == self@
                &&& parked_at_back(self.waiting(), after.waiting(), p_before, p_after)
            },
            Err(_) => {
                &&& self@.len() == 0 && self.spec_senders() == 0
                &&& after@ == self@
                &&& after.waiting() == self.waiting()
                &&& p_after == p_before
            },
        }
    }

    /// Sends a value. If somebody waits for it, the coroutine is to be made ready.
    pub fn send(&mut self, t: T) -> (sent: Result<Option<Handle>, SendError<T>>)
        ensures
            final(self).same_ends(*old(self)),
            old(self).send_called(*final(self), t, sent),
    {
        if !self.receiver {
            return Err(SendError(t));
        }
        self.queue.push_back(t);
        Ok(self.wait_list.pop_front())
    }

    /// Receives a value if there is one.
    pub fn try_recv(&mut self) -> (received: Result<T, TryRecvError>)
        ensures
            final(self).same_ends(*old(self)),
            final(self).waiting() == old(self).waiting(),
            old(self).try_recv_called(*final(self), received),
    {
        match self.queue.pop_front() {
            Some(t) => Ok(t),
            None => {
                if self.senders > 0 {
                    Err(TryRecvError::Empty)
                } else {
                    Err(TryRecvError::Disconnected)
                }
            },
        }
    }

    /// Receives a value. If there is none, and there are senders, the coroutine of the processor
    /// is parked.
    pub fn recv(&mut self, p: &mut Processor) -> (received: Result<Recv<T>, RecvError>)
        requires
            old(self)@.len() == 0 && old(self).spec_senders() > 0 ==> old(p).current_coro is Some,
        ensures
            final(self).same_ends(*old(self)),
            old(self).recv_called(*final(self), *old(p), *final(p), received),
    {
        match self.try_recv() {
            Ok(t) => Ok(Recv::Received(t)),
            Err(TryRecvError::Disconnected) => Err(RecvError),
            Err(TryRecvError::Empty) => {
                let coro = p.park();
                self.wait_list.push_back(coro);
                proof {
                    assert(self.waiting().drop_last() =~= old(self).waiting());
                }
                Ok(Recv::Parked)
            },
        }
    }

    /// There is one more sender.
    pub fn clone_sender(&mut self)
        requires
            old(self).spec_senders() < usize::MAX,
        ensures
            final(self).spec_senders() == old(self).spec_senders() + 1,
            final(self).has_receiver() == old(self).has_receiver(),
            final(self)@ == old(self)@,
            final(self).waiting() == old(self).waiting(),
    {
        self.senders = self.senders + 1;
    }

    /// There is one sender less.
    pub fn drop_sender(&mut self)
        requires
            old(self).spec_senders() > 0,
        ensures
            final(self).spec_senders() == old(self).spec_senders() - 1,
            final(self).has_receiver() == old(self).has_receiver(),
            final(self)@ == old(self)@,
            final(self).waiting() == old(self).waiting(),
    {
        self.senders = self.senders - 1;
    }

    /// There is no receiver any more, and what was sent is lost.
    pub fn drop_receiver(&mut self)
        ensures
            final(self).spec_senders() == old(self).spec_senders(),
            !final(self).has_receiver(),
            final(self)@ == Seq::<T>::empty(),
            final(self).waiting() == old(self).waiting(),
    {
        self.receiver = false;
        self.queue.clear();
    }
}

/// Creates an unbounded channel with one sender and a receiver.
pub fn channel<T>() -> (channel: Channel<T>)
    ensures
        channel@ == Seq::<T>::empty(),
        channel.spec_senders() == 1,
        channel.has_receiver(),
        channel.waiting() == Seq::<Handle>::empty(),
{
    Channel { queue: VecDeque::new(), senders: 1, receiver: true, wait_list: HandleList::new() }
}

/// What the two ends of a bounded channel share.
pub struct SyncChannel<T> {
    queue: VecDeque<T>,
    bound: usize,
    senders: usize,
    receiver: bool,
    send_wait_list: HandleList,
    recv_wait_list: HandleList,
}

impl<T> View for SyncChannel<T> {
    type V = Seq<T>;

    /// What was sent and not yet received, in the order in which it was sent.
    closed spec fn view(&self) -> Seq<T> {
        self.queue@
    }
}

impl<T> SyncChannel<T> {
    /// The most values that can be sent and not yet received.
    pub closed spec fn spec_bound(&self) -> usize {
        self.bound
    }

    /// The number of senders.
    pub closed spec fn spec_senders(&self) -> usize {
        self.senders
    }

    /// There is a receiver.
    pub closed spec fn has_receiver(&self) -> bool {
        self.receiver
    }

    /// The coroutines that wait to send.
    pub closed spec fn senders_waiting(&self) -> Seq<Handle> {
        self.send_wait_list@
    }

    /// The coroutines that wait to receive.
    pub closed spec fn receivers_waiting(&self) -> Seq<Handle> {
        self.recv_wait_list@
    }

    /// There are never more values than the bound says.
    pub open spec fn wf(&self) -> bool {
        self@.len() <= self.spec_bound()
    }

    /// The bound and the ends are as in `other`.
    pub open spec fn same_ends(&self, other: SyncChannel<T>) -> bool {
        &&& self.spec_bound() == other.spec_bound()
        &&& self.spec_senders() == other.spec_senders()
        &&& self.has_receiver() == other.has_receiver()
    }

    /// A value was sent, and the first one of those who wait to receive was taken out.
    pub open spec fn sent(&self, after: SyncChannel<T>, t: T, ready: Option<Handle>) -> bool {
        &&& self.has_receiver()
        &&& self@.len() < self.spec_bound()
        &&& fifo::passes(self@, after@, Passing::In(t))
        &&& first_taken(self.receivers_waiting(), after.receivers_waiting(), ready)
        &&& after.senders_waiting() == self.senders_waiting()
    }

    /// A value was received, and the first one of those who wait to send was taken out.
    pub open spec fn received(&self, after: SyncChannel<T>, t: T, ready: Option<Handle>) -> bool {
        &&& fifo::passes(self@, after@, Passing::Out(t))
        &&& first_taken(self.senders_waiting(), after.senders_waiting(), ready)
        &&& after.receivers_waiting() == self.receivers_waiting()
    }

    /// What a call of `try_send` does: the value is sent if there is a receiver and room for it,
    /// else it comes back.
    pub open spec fn try_send_called(
        &self,
        after: SyncChannel<T>,
        t: T,
        sent: Result<Option<Handle>, TrySendError<T>>,
    ) -> bool {
        match sent {
            Ok(ready) => {
                &&& self.sent(after, t, ready)
                &&& self.receivers_waiting().len() > 0 ==> ready == Some(
                    self.receivers_waiting()[0],
                )
            },
            Err(TrySendError::Disconnected(rejected)) => {
                &&& !self.has_receiver()
                &&& rejected == t
                &&& after == *self
            },
            Err(TrySendError::Full(rejected)) => {
                &&& self.has_receiver()
                &&& self@.len() == self.spec_bound()
                &&& rejected == t
                &&& after == *self
            },
        }
    }

    /// What a call of `try_recv` does: a value is received if there is one, and else nothing
    /// happens.
    pub open spec fn try_recv_called(
        &self,
        after: SyncChannel<T>,
        received: Result<(T, Option<Handle>), TryRecvError>,
    ) -> bool {
        match received {
            Ok((t, ready)) => {
                &&& self.received(after, t, ready)
                &&& self.senders_waiting().len() > 0 ==> ready == Some(self.senders_waiting()[0])
            },
            Err(e) => {
                &&& self@.len() == 0
                &&& after@ == self@
                &&& after.senders_waiting() == self.senders_waiting()
                &&& e == (if self.spec_senders() > 0 {
                    TryRecvError::Empty
                } else {
                    TryRecvError::Disconnected
                })
            },
        }
    }

    /// What a call of `send` does: the value is sent if there is room for it; if there is none, and
    /// there is a receiver, the coroutine is parked.
    pub open spec fn send_called(
        &self,
        after: SyncChannel<T>,
        p_before: Processor,
        p_after: Processor,
        t: T,
        sent: Result<Send<T>, SendError<T>>,
    ) -> bool {
        match sent {
            Ok(Send::Sent(ready)) => {
                &&& self.sent(after, t, ready)
                &&& p_after == p_before
            },
            Ok(Send::Parked(rejected)) => {
                &&& self.has_receiver()
                &&& self@.len() == self.spec_bound()
                &&& rejected == t
                &&& after@ == self@
                &&& after.receivers_waiting() == self.receivers_waiting()
                &&& parked_at_back(
                    self.senders_waiting(),
                    after.senders_waiting(),
                    p_before,
                    p_after,
                )
            },
            Err(SendError(rejected)) => {
                &&& !self.has_receiver()
                &&& rejected == t
                &&& after == *self
                &&& p_after == p_before
            },
        }
    }

    /// What a call of `recv` does: a value is received if there is one; if there is none, and more
    /// can come, the coroutine is parked.
    pub open spec fn recv_called(
        &self,
        after: SyncChannel<T>,
        p_before: Processor,
        p_after: Processor,
        received: Result<Recv<(T, Option<Handle>)>, RecvError>,
    ) -> bool {
        match received {
            Ok(Recv::Received((t, ready))) => {
                &&& self.received(after, t, ready)
                &&& p_after == p_before
            },
            Ok(Recv::Parked) => {
                &&& self@.len() == 0 && self.spec_senders() > 0
                &&& after@ == self@
                &&& after.senders_waiting() == self.senders_waiting()
                &&& parked_at_back(
                    self.receivers_waiting(),
                    after.receivers_waiting(),
                    p_before,
                    p_after,
                )
            },
            Err(_) => {
                &&& self@.len() == 0 && self.spec_senders() == 0
                &&& after@ == self@
                &&& after.senders_waiting() == self.senders_waiting()
                &&& after.receivers_waiting() == self.receivers_waiting()
                &&& p_after == p_before
            },
        }
    }

    /// Sends a value if there is room. If somebody waits for it, the coroutine is to be made
    /// ready.
    pub fn try_send(&mut self, t: T) -> (sent: Result<Option<Handle>, TrySendError<T>>)
        requires
            old(self).wf(),
        ensures
            final(self).wf(),
            final(self).same_ends(*old(self)),
            old(self).try_send_called(*final(self), t, sent),
    {
        if !self.receiver {
            return Err(TrySendError::Disconnected(t));
        }
        if self.queue.len() >= self.bound {
            return Err(TrySendError::Full(t));
        }
        self.queue.push_back(t);
        Ok(self.recv_wait_list.pop_front())
    }

    /// Sends a value. If there is no room the coroutine of the processor is parked.
    pub fn send(&mut self, t: T, p: &mut Processor) -> (sent: Result<Send<T>, SendError<T>>)
        requires
            old(self).wf(),
            old(self).has_receiver() && old(self)@.len() == old(self).spec_bound() ==> old(
                p,
            ).current_coro is Some,
        ensures
            final(self).wf(),
            final(self).same_ends(*old(self)),
            old(self).send_called(*final(self), *old(p), *final(p), t, sent),
    {
        match self.try_send(t) {
            Ok(ready) => Ok(Send::Sent(ready)),
            Err(TrySendError::Disconnected(t)) => Err(SendError(t)),
            Err(TrySendError::Full(t)) => {
                let coro = p.park();
                self.send_wait_list.push_back(coro);
                proof {
                    assert(self.senders_waiting().drop_last() =~= old(self).senders_waiting());
                }
                Ok(Send::Parked(t))
            },
        }
    }

    /// Receives a value if there is one. If somebody waits for the room, the coroutine is to be
    /// made ready.
    pub fn try_recv(&mut self) -> (received: Result<(T, Option<Handle>), TryRecvError>)
        requires
            old(self).wf(),
        ensures
            final(self).wf(),
            final(self).same_ends(*old(self)),
            final(self).receivers_waiting() == old(self).receivers_waiting(),
            old(self).try_recv_called(*final(self), received),
    {
        match self.queue.pop_front() {
            Some(t) => Ok((t, self.send_wait_list.pop_front())),
            None => {
                if self.senders > 0 {
                    Err(TryRecvError::Empty)
                } else {
                    Err(TryRecvError::Disconnected)
                }
            },
        }
    }

    /// Receives a value. If there is none, and there are senders, the coroutine of the processor
    /// is parked. If somebody waits for the room, the coroutine is to be made ready.
    pub fn recv(&mut self, p: &mut Processor) -> (received: Result<
        Recv<(T, Option<Handle>)>,
        RecvError,
    >)
        requires
            old(self).wf(),
            old(self)@.len() == 0 && old(self).spec_senders() > 0 ==> old(p).current_coro is Some,
        ensures
            final(self).wf(),
            final(self).same_ends(*old(self)),
            old(self).recv_called(*final(self), *old(p), *final(p), received),
    {
        match self.try_recv() {
            Ok(t) => Ok(Recv::Received(t)),
            Err(TryRecvError::Disconnected) => Err(RecvError),
            Err(TryRecvError::Empty) => {
                let coro = p.park();
                self.recv_wait_list.push_back(coro);
                proof {
                    assert(self.receivers_waiting().drop_last() =~= old(self).receivers_waiting());
                }
                Ok(Recv::Parked)
            },
        }
    }

    /// There is one more sender.
    pub fn clone_sender(&mut self)
        requires
            old(self).spec_senders() < usize::MAX,
        ensures
            final(self).spec_bound() == old(self).spec_bound(),
            final(self).spec_senders() == old(self).spec_senders() + 1,
            final(self).has_receiver() == old(self).has_receiver(),
            final(self)@ == old(self)@,
            final(self).senders_waiting() == old(self).senders_waiting(),
            final(self).receivers_waiting() == old(self).receivers_waiting(),
    {
        self.senders = self.senders + 1;
    }

    /// There is one sender less.
    pub fn drop_sender(&mut self)
        requires
            old(self).spec_senders() > 0,
        ensures
            final(self).spec_bound() == old(self).spec_bound(),
            final(self).spec_senders() == old(self).spec_senders() - 1,
            final(self).has_receiver() == old(self).has_receiver(),
            final(self)@ == old(self)@,
            final(self).senders_waiting() == old(self).senders_waiting(),
            final(self).receivers_waiting() == old(self).receivers_waiting(),
    {
        self.senders = self.senders - 1;
    }

    /// There is no receiver any more, and what was sent is lost.
    pub fn drop_receiver(&mut self)
        ensures
            final(self).spec_bound() == old(self).spec_bound(),
            final(self).spec_senders() == old(self).spec_senders(),
            !final(self).has_receiver(),
            final(self)@ == Seq::<T>::empty(),
            final(self).senders_waiting() == old(self).senders_waiting(),
            final(self).receivers_waiting() == old(self).receivers_waiting(),
    {
        self.receiver = false;
        self.queue.clear();
    }
}

/// Creates a bounded channel with one sender and a receiver.
pub fn sync_channel<T>(bound: usize) -> (channel: SyncChannel<T>)
    ensures
        channel.wf(),
        channel@ == Seq::<T>::empty(),
        channel.spec_bound() == bound,
        channel.spec_senders() == 1,
        channel.has_receiver(),
        channel.senders_waiting() == Seq::<Handle>::empty(),
        channel.receivers_waiting() == Seq::<Handle>::empty(),
{
    SyncChannel {
        queue: VecDeque::new(),
        bound,
        senders: 1,
        receiver: true,
        send_wait_list: HandleList::new(),
        recv_wait_list: HandleList::new(),
    }
}

/// Through either kind of channel, what is received is what was sent, in the same order, and what
/// was not received yet is still there: nothing is lost, doubled or overtaken. A send or receive
/// that is refused or has to wait leaves what is there as it is.
pub proof fn received_in_the_order_sent<T>(contents: Seq<Seq<T>>, passings: Seq<Passing<T>>)
    requires
        fifo::history(contents, passings),
        contents[0] == Seq::<T>::empty(),
    ensures
        fifo::put_in(passings) == fifo::taken_out(passings) + contents.last(),
{
    fifo::taken_out_in_the_order_put_in(contents, passings);
    assert(contents[0] + fifo::put_in(passings) =~= fifo::put_in(passings));
}

/// What happens to a list of coroutines that wait.
pub enum Waiting {
    /// The coroutine of a processor, seen before and after, was parked.
    Parked(Processor, Processor),
    /// The first one, if there was one, was handed out.
    HandedOut(Option<Handle>),
}

/// What a list of coroutines that wait was at first and after each change.
pub open spec fn wait_history(lists: Seq<Seq<Handle>>, changes: Seq<Waiting>) -> bool {
    &&& lists.len() == changes.len() + 1
    &&& forall|i: int|
        0 <= i < changes.len() ==> match #[trigger] changes[i] {
            Waiting::Parked(p_before, p_after) => parked_at_back(
                lists[i],
                lists[i + 1],
                p_before,
                p_after,
            ),
            Waiting::HandedOut(first) => first_taken(lists[i], lists[i + 1], first),
        }
}

/// The numbers of the coroutines that were parked, in this order.
pub open spec fn parked_ids(changes: Seq<Waiting>) -> Seq<usize>
    decreases changes.len(),
{
    if changes.len() == 0 {
        Seq::empty()
    } else {
        let before = parked_ids(changes.drop_last());
        match changes.last() {
            Waiting::Parked(p, _) => before.push(p.current_coro->0.spec_id()),
            Waiting::HandedOut(_) => before,
        }
    }
}

/// The numbers of the coroutines that were handed out, in this order.
pub open spec fn handed_out_ids(changes: Seq<Waiting>) -> Seq<usize>
    decreases changes.len(),
{
    if changes.len() == 0 {
        Seq::empty()
    } else {
        let before = handed_out_ids(changes.drop_last());
        match changes.last() {
            Waiting::HandedOut(Some(hdl)) => before.push(hdl.spec_id()),
            _ => before,
        }
    }
}

/// The numbers of coroutines.
pub open spec fn ids_of(handles: Seq<Handle>) -> Seq<usize> {
    handles.map_values(|hdl: Handle| hdl.spec_id())
}

/// Those who wait on a channel are made ready in the order in which they were parked: whoever was
/// handed out, followed by those who still wait, are those who were there at first, followed by
/// those who were parked. And as long as anyone waits, somebody is handed out.
pub proof fn handed_out_in_the_order_parked(lists: Seq<Seq<Handle>>, changes: Seq<Waiting>)
    requires
        wait_history(lists, changes),
    ensures
        handed_out_ids(changes) + ids_of(lists.last()) == ids_of(lists[0]) + parked_ids(changes),
        forall|i: int|
            0 <= i < changes.len() && lists[i].len() > 0 ==> (
            #[trigger] changes[i] matches Waiting::HandedOut(first) ==> first is Some),
    decreases changes.len(),
{
    if changes.len() > 0 {
        let n = changes.len() - 1;
        let earlier = changes.drop_last();
        let so_far = lists.drop_last();
        assert forall|i: int| 0 <= i < earlier.len() implies match #[trigger] earlier[i] {
            Waiting::Parked(p_before, p_after) => parked_at_back(
                so_far[i],
                so_far[i + 1],
                p_before,
                p_after,
            ),
            Waiting::HandedOut(first) => first_taken(so_far[i], so_far[i + 1], first),
        } by {
            assert(changes[i] == earlier[i]);
        }
        handed_out_in_the_order_parked(so_far, earlier);
        let before = lists[n];
        let after = lists.last();
        assert(so_far.last() == before && after == lists[n + 1]);
        let last = changes[n];
        match last {
            Waiting::Parked(p_before, p_after) => {
                assert(parked_at_back(before, after, p_before, p_after));
                let id = p_before.current_coro->0.spec_id();
                assert(after =~= before.push(after.last()));
                assert(ids_of(after) =~= ids_of(before).push(id));
                assert(handed_out_ids(earlier) + ids_of(after) =~= (handed_out_ids(earlier)
                    + ids_of(before)).push(id));
                assert((ids_of(lists[0]) + parked_ids(earlier)).push(id) =~= ids_of(lists[0])
                    + parked_ids(earlier).push(id));
            },
            Waiting::HandedOut(first) => {
                assert(first_taken(before, after, first));
                if before.len() > 0 {
                    let id = before[0].spec_id();
                    assert(seq![id] + ids_of(after) =~= ids_of(before));
                    assert(handed_out_ids(earlier).push(id) + ids_of(after) =~= handed_out_ids(
                        earlier,
                    ) + ids_of(before));
                }
            },
        }
        assert forall|i: int| 0 <= i < changes.len() && lists[i].len() > 0 implies (
        #[trigger] changes[i] matches Waiting::HandedOut(first) ==> first is Some) by {
            if i < n {
                assert(earlier[i] == changes[i]);
                assert(so_far[i] == lists[i]);
            }
        }
    }
}

/// A value that is sent goes behind all others. If anyone waits to receive, however many, the one
/// that came first is made ready, and only that one; whoever waits to send waits on.
pub proof fn send_wakes_the_first_receiver<T>(
    before: SyncChannel<T>,
    after: SyncChannel<T>,
    t: T,
    ready: Option<Handle>,
)
    requires
        before.wf(),
        before.sent(after, t, ready),
    ensures
        after@ == before@ + seq![t],
        after@.len() <= before.spec_bound(),
        after.senders_waiting() == before.senders_waiting(),
        before.receivers_waiting().len() > 0 ==> {
            &&& ready == Some(before.receivers_waiting()[0])
            &&& after.receivers_waiting().len() == before.receivers_waiting().len() - 1
            &&& before.receivers_waiting() == seq![ready->0] + after.receivers_waiting()
        },
        before.receivers_waiting().len() == 0 ==> {
            &&& ready is None
            &&& after.receivers_waiting().len() == 0
        },
{
    assert(after@ =~= before@ + seq![t]);
    if before.receivers_waiting().len() > 0 {
        assert(seq![ready->0] + after.receivers_waiting() =~= before.receivers_waiting());
    }
}

/// What is received was sent before all the rest. If anyone waits for the room, however many, the
/// one that came first is made ready, and only that one, and there is room for it; whoever waits
/// to receive waits on.
pub proof fn receive_wakes_the_first_sender<T>(
    before: SyncChannel<T>,
    after: SyncChannel<T>,
    t: T,
    ready: Option<Handle>,
)
    requires
        before.wf(),
        before.received(after, t, ready),
    ensures
        before@ == seq![t] + after@,
        after@.len() < before.spec_bound(),
        after.receivers_waiting() == before.receivers_waiting(),
        before.senders_waiting().len() > 0 ==> {
            &&& ready == Some(before.senders_waiting()[0])
            &&& after.senders_waiting().len() == before.senders_waiting().len() - 1
            &&& before.senders_waiting() == seq![ready->0] + after.senders_waiting()
        },
        before.senders_waiting().len() == 0 ==> {
            &&& ready is None
            &&& after.senders_waiting().len() == 0
        },
{
    assert(seq![t] + after@ =~= before@);
    if before.senders_waiting().len() > 0 {
        assert(seq![ready->0] + after.senders_waiting() =~= before.senders_waiting());
    }
}

/// On an unbounded channel, a value that is sent goes behind all others, and what is received was
/// sent before all the rest. If anyone waits to receive, however many, each value that is sent
/// makes exactly the one ready that came first; receiving makes nobody ready.
pub proof fn send_and_receive_in_turn<T>(
    before: Channel<T>,
    middle: Channel<T>,
    after: Channel<T>,
    sent: T,
    ready: Option<Handle>,
    received: T,
)
    requires
        before.sent(middle, sent, ready),
        middle.received(after, received),
    ensures
        before@ + seq![sent] == seq![received] + after@,
        before@.len() == 0 ==> received == sent && after@.len() == 0,
        before.waiting().len() > 0 ==> ready == Some(before.waiting()[0]) && before.waiting()
            == seq![ready->0] + after.waiting(),
        before.waiting().len() == 0 ==> ready is None && after.waiting().len() == 0,
{
    assert(before@ + seq![sent] =~= middle@);
    assert(seq![received] + after@ =~= middle@);
    if before.waiting().len() > 0 {
        assert(seq![ready->0] + after.waiting() =~= before.waiting());
    }
    if before@.len() == 0 {
        assert(middle@[0] == sent);
    }
}

/// As long as there is a receiver, an unbounded channel takes every value, and what was sent can be
/// received, even after all senders are gone; only when nothing is left, that is reported, and
/// whether more can come. Without a receiver every value comes back.
pub proof fn unbounded_channel_refuses_nothing<T>(
    before: Channel<T>,
    after_send: Channel<T>,
    t: T,
    sent: Result<Option<Handle>, SendError<T>>,
    after_recv: Channel<T>,
    received: Result<T, TryRecvError>,
)
    requires
        before.send_called(after_send, t, sent),
        before.try_recv_called(after_recv, received),
    ensures
        before.has_receiver() ==> sent is Ok && after_send@ == before@ + seq![t],
        !before.has_receiver() ==> sent == Err::<Option<Handle>, SendError<T>>(SendError(t))
            && after_send == before,
        before@.len() > 0 ==> received == Ok::<T, TryRecvError>(before@[0]) && before@ == seq![
            before@[0],
        ] + after_recv@,
        before@.len() == 0 && before.spec_senders() > 0 ==> received == Err::<T, TryRecvError>(
            TryRecvError::Empty,
        ),
        before@.len() == 0 && before.spec_senders() == 0 ==> received == Err::<T, TryRecvError>(
            TryRecvError::Disconnected,
        ),
{
    if sent is Ok {
        assert(after_send@ =~= before@ + seq![t]);
    }
    if before@.len() > 0 {
        assert(seq![before@[0]] + after_recv@ =~= before@);
    }
}

/// As long as there is a receiver, a bounded channel takes a value if and only if it holds fewer
/// than its bound says; the value comes back if it does not. What was sent can be received, even
/// after all senders are gone; only when nothing is left, that is reported, and whether more can
/// come.
pub proof fn bounded_channel_is_full_at_its_bound<T>(
    before: SyncChannel<T>,
    after_send: SyncChannel<T>,
    t: T,
    sent: Result<Option<Handle>, TrySendError<T>>,
    after_recv: SyncChannel<T>,
    received: Result<(T, Option<Handle>), TryRecvError>,
)
    requires
        before.wf(),
        before.try_send_called(after_send, t, sent),
        before.try_recv_called(after_recv, received),
    ensures
        before.has_receiver() && before@.len() < before.spec_bound() ==> sent is Ok && after_send@
            == before@ + seq![t],
        before.has_receiver() && before@.len() == before.spec_bound() ==> sent == Err::<
            Option<Handle>,
            TrySendError<T>,
        >(TrySendError::Full(t)) && after_send == before,
        !before.has_receiver() ==> sent == Err::<Option<Handle>, TrySendError<T>>(
            TrySendError::Disconnected(t),
        ) && after_send == before,
        before@.len() > 0 ==> {
            &&& received matches Ok(pair) && pair.0 == before@[0]
            &&& before@ == seq![before@[0]] + after_recv@
        },
        before@.len() == 0 && before.spec_senders() > 0 ==> (received matches Err(e) && e
            == TryRecvError::Empty),
        before@.len() == 0 && before.spec_senders() == 0 ==> (received matches Err(e) && e
            == TryRecvError::Disconnected),
{
    if sent is Ok {
        assert(after_send@ =~= before@ + seq![t]);
    }
    if before@.len() > 0 {
        assert(seq![before@[0]] + after_recv@ =~= before@);
    }
}

/// Nobody waits to receive while there is something to receive, nor when nothing can come any more.
/// Whoever waits is the last one in the list, and the next value that is sent wakes up the first.
pub proof fn receiver_waits_only_for_what_can_come<T>(
    before: Channel<T>,
    waiting: Channel<T>,
    p_before: Processor,
    p_after: Processor,
    received: Result<Recv<T>, RecvError>,
    after: Channel<T>,
    t: T,
    ready: Option<Handle>,
)
    requires
        before.recv_called(waiting, p_before, p_after, received),
        waiting.sent(after, t, ready),
    ensures
        before@.len() > 0 ==> (received matches Ok(Recv::Received(first)) && first == before@[0]
            && p_after == p_before),
        before@.len() == 0 && before.spec_senders() == 0 ==> received is Err,
        before@.len() == 0 && before.spec_senders() > 0 ==> {
            &&& received matches Ok(recv) && recv is Parked
            &&& p_after.current_coro is None
            &&& waiting.waiting().last().spec_id() == p_before.current_coro->0.spec_id()
            &&& ready is Some
            &&& before.waiting().len() == 0 ==> ready->0.spec_id()
                == p_before.current_coro->0.spec_id()
            &&& before.waiting().len() > 0 ==> ready == Some(before.waiting()[0])
            &&& after@ == seq![t]
        },
{
    if before@.len() == 0 && before.spec_senders() > 0 {
        assert(waiting.waiting().len() > 0);
        if before.waiting().len() > 0 {
            assert(waiting.waiting()[0] == waiting.waiting().drop_last()[0]);
        }
        assert(after@ =~= seq![t]);
    }
}

/// Nobody waits to send while there is room, nor when there is no receiver. Whoever waits keeps its
/// value and is the last one in the list; the next value that is received wakes up the first, and
/// there is room for it then.
pub proof fn sender_waits_only_for_room<T>(
    before: SyncChannel<T>,
    waiting: SyncChannel<T>,
    p_before: Processor,
    p_after: Processor,
    t: T,
    sent: Result<Send<T>, SendError<T>>,
    after: SyncChannel<T>,
    got: T,
    ready: Option<Handle>,
)
    requires
        before.wf(),
        waiting.same_ends(before),
        waiting.wf(),
        before.send_called(waiting, p_before, p_after, t, sent),
        waiting.received(after, got, ready),
    ensures
        !before.has_receiver() ==> sent == Err::<Send<T>, SendError<T>>(SendError(t)),
        before.has_receiver() && before@.len() < before.spec_bound() ==> {
            &&& sent matches Ok(send) && send is Sent
            &&& waiting@ == before@ + seq![t]
            &&& p_after == p_before
        },
        before.has_receiver() && before@.len() == before.spec_bound() ==> {
            &&& sent matches Ok(Send::Parked(kept)) && kept == t
            &&& waiting@ == before@
            &&& p_after.current_coro is None
            &&& waiting.senders_waiting().last().spec_id() == p_before.current_coro->0.spec_id()
            &&& ready is Some
            &&& before.senders_waiting().len() == 0 ==> ready->0.spec_id()
                == p_before.current_coro->0.spec_id()
            &&& before.senders_waiting().len() > 0 ==> ready == Some(before.senders_waiting()[0])
            &&& after@.len() < before.spec_bound()
        },
{
    if sent matches Ok(Send::Sent(_)) {
        assert(waiting@ =~= before@ + seq![t]);
    }
    if before.has_receiver() && before@.len() == before.spec_bound() {
        assert(waiting.senders_waiting().len() > 0);
        if before.senders_waiting().len() > 0 {
            assert(waiting.senders_waiting()[0] == waiting.senders_waiting().drop_last()[0]);
        }
    }
}

/// Nobody waits to receive from a bounded channel while there is something to receive, nor when
/// nothing can come any more. Whoever waits is the last one in the list, and the next value that is
/// sent wakes up the first.
pub proof fn bounded_receiver_waits_only_for_what_can_come<T>(
    before: SyncChannel<T>,
    waiting: SyncChannel<T>,
    p_before: Processor,
    p_after: Processor,
    received: Result<Recv<(T, Option<Handle>)>, RecvError>,
    after: SyncChannel<T>,
    t: T,
    ready: Option<Handle>,
)
    requires
        before.recv_called(waiting, p_before, p_after, received),
        waiting.sent(after, t, ready),
    ensures
        before@.len() > 0 ==> (received matches Ok(Recv::Received(pair)) && pair.0 == before@[0]
            && p_after == p_before),
        before@.len() == 0 && before.spec_senders() == 0 ==> received is Err,
        before@.len() == 0 && before.spec_senders() > 0 ==> {
            &&& received matches Ok(recv) && recv is Parked
            &&& p_after.current_coro is None
            &&& waiting.receivers_waiting().last().spec_id() == p_before.current_coro->0.spec_id()
            &&& ready is Some
            &&& before.receivers_waiting().len() == 0 ==> ready->0.spec_id()
                == p_before.current_coro->0.spec_id()
            &&& before.receivers_waiting().len() > 0 ==> ready == Some(
                before.receivers_waiting()[0],
            )
            &&& after@ == seq![t]
        },
{
    if before@.len() == 0 && before.spec_senders() > 0 {
        assert(waiting.receivers_waiting().len() > 0);
        if before.receivers_waiting().len() > 0 {
            assert(waiting.receivers_waiting()[0] == waiting.receivers_waiting().drop_last()[0]);
        }
        assert(after@ =~= seq![t]);
    }
}

/// Whoever is parked is taken off its processor, which else has what it had.
pub proof fn only_the_running_coroutine_is_parked(
    before: Seq<Handle>,
    after: Seq<Handle>,
    p_before: Processor,
    p_after: Processor,
)
    requires
        parked_at_back(before, after, p_before, p_after),
    ensures
        p_after.current_coro is None,
        p_after.queue == p_before.queue,
        p_after.run_next == p_before.run_next,
        p_after.stack_pool == p_before.stack_pool,
        after.last().spec_state() == State::Parked,
        after == before + seq![after.last()],
{
    assert(after =~= before + seq![after.last()]);
}

/// A call that is refused changes nothing and stops nobody; one that has to wait leaves what was
/// sent, and those who wait at the other end, as they are.
pub proof fn refused_call_changes_nothing<T>(
    channel: Channel<T>,
    after_recv: Channel<T>,
    bounded: SyncChannel<T>,
    after_send: SyncChannel<T>,
    after_bounded_recv: SyncChannel<T>,
    p: Processor,
    p_after: (Processor, Processor, Processor),
    t: T,
    received: Result<Recv<T>, RecvError>,
    sent: Result<Send<T>, SendError<T>>,
    bounded_received: Result<Recv<(T, Option<Handle>)>, RecvError>,
)
    requires
        channel.recv_called(after_recv, p, p_after.0, received),
        bounded.send_called(after_send, p, p_after.1, t, sent),
        bounded.recv_called(after_bounded_recv, p, p_after.2, bounded_received),
    ensures
        received is Err ==> {
            &&& after_recv@ == channel@
            &&& after_recv.waiting() == channel.waiting()
            &&& p_after.0 == p
        },
        sent is Err ==> after_send == bounded && p_after.1 == p,
        sent matches Ok(Send::Parked(_)) ==> {
            &&& after_send@ == bounded@
            &&& after_send.receivers_waiting() == bounded.receivers_waiting()
        },
        bounded_received is Err ==> {
            &&& after_bounded_recv@ == bounded@
            &&& after_bounded_recv.senders_waiting() == bounded.senders_waiting()
            &&& after_bounded_recv.receivers_waiting() == bounded.receivers_waiting()
            &&& p_after.2 == p
        },
        bounded_received matches Ok(Recv::Parked) ==> {
            &&& after_bounded_recv@ == bounded@
            &&& after_bounded_recv.senders_waiting() == bounded.senders_waiting()
        },
{
}

} // verus!
