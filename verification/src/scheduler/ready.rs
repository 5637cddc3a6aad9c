//! What an I/O object is ready for, and who waits until it is.

use vstd::multiset::Multiset;
use vstd::prelude::*;

use crate::coroutine::{Handle, HandleList};
use crate::runtime::processor::Processor;
use crate::runtime::timer::{LocalTime, Timer};
use crate::scheduler::TimerWaitType;
use crate::sync::condvar;
use crate::sync::condvar::{Condvar, Waiter, WaiterState};

verus! {

/// What one can wait for.
#[derive(Debug, Clone, Copy, PartialEq, Eq, Structural)]
pub enum ReadyType {
    /// The object can be read.
    Readable,
    /// The object can be written.
    Writable,
}

/// A set of events, one bit for each.
#[derive(Debug, Clone, Copy, PartialEq, Eq, Structural)]
pub struct Ready {
    pub bits: usize,
}

impl Ready {
    /// The object can be read.
    pub fn readable() -> (ready: Ready)
        ensures
            ready.bits == 1,
    {
        Ready { bits: 1 }
    }

    /// The object can be written.
    pub fn writable() -> (ready: Ready)
        ensures
            ready.bits == 2,
    {
        Ready { bits: 2 }
    }

    /// All events of `other` are among these.
    pub open spec fn spec_contains(self, other: Ready) -> bool {
        self.bits & other.bits == other.bits
    }

    /// Whether all events of `other` are among these.
    pub fn contains(&self, other: Ready) -> (b: bool)
        ensures
            b == self.spec_contains(other),
    {
        self.bits & other.bits == other.bits
    }
}

impl From<ReadyType> for Ready {
    fn from(ready_type: ReadyType) -> (ready: Ready) {
        proof {
            assert(1usize << 0 == 1) by (bit_vector);
            assert(1usize << 1 == 2) by (bit_vector);
        }
        match ready_type {
            ReadyType::Readable => Ready { bits: 1 << 0 },
            ReadyType::Writable => Ready { bits: 1 << 1 },
        }
    }
}

impl vstd::std_specs::convert::FromSpecImpl<ReadyType> for Ready {
    open spec fn obeys_from_spec() -> bool {
        true
    }

    /// The event that the type stands for.
    open spec fn from_spec(ready_type: ReadyType) -> Ready {
        match ready_type {
            ReadyType::Readable => Ready { bits: 1 },
            ReadyType::Writable => Ready { bits: 2 },
        }
    }
}

/// Those who wait until an I/O object can be read, and until it can be written.
pub struct ReadyStates {
    /// Those who wait until it can be read.
    pub readable: Condvar,
    /// Those who wait until it can be written.
    pub writable: Condvar,
}

impl ReadyStates {
    /// Both are in order.
    pub open spec fn wf(&self) -> bool {
        self.readable.wf() && self.writable.wf()
    }

    /// There is no waiter.
    pub open spec fn nobody_waits(&self) -> bool {
        forall|ready_type: ReadyType| (#[trigger] self.condvar(ready_type)).waiters@ == Map::<
            usize,
            Waiter,
        >::empty()
    }

    /// Those who wait for this.
    pub open spec fn condvar(&self, ready_type: ReadyType) -> Condvar {
        match ready_type {
            ReadyType::Readable => self.readable,
            ReadyType::Writable => self.writable,
        }
    }

    /// The states with other ones waiting for this.
    pub open spec fn with_condvar(&self, ready_type: ReadyType, condvar: Condvar) -> ReadyStates {
        match ready_type {
            ReadyType::Readable => ReadyStates { readable: condvar, ..*self },
            ReadyType::Writable => ReadyStates { writable: condvar, ..*self },
        }
    }

    /// Nobody waits.
    pub fn new() -> (states: ReadyStates)
        ensures
            states.wf(),
            states.nobody_waits(),
            forall|t: ReadyType| (#[trigger] states.condvar(t)).token == 0,
            forall|t: ReadyType| (#[trigger] states.condvar(t)).notified == 0,
    {
        ReadyStates { readable: Condvar::new(), writable: Condvar::new() }
    }

    /// Those who wait for this, to be changed.
    pub fn condvar_mut(&mut self, ready_type: ReadyType) -> (condvar: &mut Condvar)
        ensures
            *condvar == old(self).condvar(ready_type),
            *final(self) == old(self).with_condvar(ready_type, *final(condvar)),
    {
        match ready_type {
            ReadyType::Readable => &mut self.readable,
            ReadyType::Writable => &mut self.writable,
        }
    }

    /// The running coroutine waits for this, unless it was notified already. The number is that
    /// of its waiter.
    pub fn wait(&mut self, ready_type: ReadyType, p: &mut Processor) -> (waiter: Option<usize>)
        requires
            old(self).wf(),
            old(p).current_coro is Some,
        ensures
            final(self).wf(),
            final(p).same_but_current(*old(p)),
            *final(self) == old(self).with_condvar(ready_type, final(self).condvar(ready_type)),
            condvar::waited(
                old(self).condvar(ready_type),
                final(self).condvar(ready_type),
                *old(p),
                *final(p),
                waiter,
            ),
    {
        self.condvar_mut(ready_type).wait(p)
    }

    /// The running coroutine waits for this, but not longer than `delay` milliseconds from now
    /// on. The number is that of its waiter.
    pub fn wait_timeout(
        &mut self,
        ready_type: ReadyType,
        delay: u64,
        key: usize,
        timer: &mut Timer<TimerWaitType>,
        p: &mut Processor,
    ) -> (waiter: Option<usize>)
        requires
            old(self).wf(),
            old(timer).wf(),
            old(timer).spec_next_number() < u64::MAX,
            old(p).current_coro is Some,
        ensures
            final(self).wf(),
            final(timer).wf(),
            final(p).same_but_current(*old(p)),
            *final(self) == old(self).with_condvar(ready_type, final(self).condvar(ready_type)),
            exists|now: LocalTime|
                now.on_clock() && #[trigger] condvar::waited_timeout(
                    old(self).condvar(ready_type),
                    final(self).condvar(ready_type),
                    *old(timer),
                    *final(timer),
                    *old(p),
                    *final(p),
                    ready_type,
                    key,
                    now,
                    delay,
                    waiter,
                ),
    {
        self.condvar_mut(ready_type).wait_timeout(ready_type, delay, key, timer, p)
    }

    /// The running coroutine waits for this, but not longer than `delay` milliseconds after
    /// `now`. The number is that of its waiter.
    pub fn wait_timeout_from(
        &mut self,
        ready_type: ReadyType,
        now: LocalTime,
        delay: u64,
        key: usize,
        timer: &mut Timer<TimerWaitType>,
        p: &mut Processor,
    ) -> (waiter: Option<usize>)
        requires
            old(self).wf(),
            old(timer).wf(),
            old(timer).spec_next_number() < u64::MAX,
            old(p).current_coro is Some,
            now.on_clock(),
        ensures
            final(self).wf(),
            final(timer).wf(),
            final(p).same_but_current(*old(p)),
            *final(self) == old(self).with_condvar(ready_type, final(self).condvar(ready_type)),
            condvar::waited_timeout(
                old(self).condvar(ready_type),
                final(self).condvar(ready_type),
                *old(timer),
                *final(timer),
                *old(p),
                *final(p),
                ready_type,
                key,
                now,
                delay,
                waiter,
            ),
    {
        self.condvar_mut(ready_type).wait_timeout_from(ready_type, now, delay, key, timer, p)
    }

    /// The last step of a wait with a timeout. If it was notified, its timeout is cancelled.
    /// Tells whether the time ran out.
    pub fn end_wait_timeout(
        &mut self,
        ready_type: ReadyType,
        id: usize,
        timer: &mut Timer<TimerWaitType>,
    ) -> (timed_out: bool)
        requires
            old(self).wf(),
            old(timer).wf(),
            old(self).condvar(ready_type).waiters@.dom().contains(id),
            ({
                let state = old(self).condvar(ready_type).waiters@[id].state;
                state == WaiterState::Succeeded || state == WaiterState::Timeout
            }),
        ensures
            final(self).wf(),
            final(timer).wf(),
            final(timer).spec_next_number() == old(timer).spec_next_number(),
            *final(self) == old(self).with_condvar(ready_type, final(self).condvar(ready_type)),
            ({
                let before = old(self).condvar(ready_type);
                let after = final(self).condvar(ready_type);
                let waiter = before.waiters@[id];
                &&& after.token == before.token
                &&& after.notified == before.notified
                &&& after.list == before.list.removed(before.waiters@, id)
                &&& after.waiters@ == before.list.waiters_removed(before.waiters@, id).remove(id)
                &&& timed_out == (waiter.state == WaiterState::Timeout)
                &&& final(timer)@ == (if !timed_out && waiter.timeout is Some && old(timer).pending(
                    waiter.timeout->0,
                ) {
                    Timer::without(old(timer)@, waiter.timeout->0)
                } else {
                    old(timer)@
                })
            }),
    {
        let condvar = self.condvar_mut(ready_type);
        let (result, timeout) = condvar.end_wait_timeout(id);
        match result {
            Ok(_) => {
                if let Some(timeout) = timeout {
                    let _ = timer.clear(&timeout);
                }
                false
            },
            Err(_) => true,
        }
    }

    /// Whether there is no waiter.
    pub fn is_unused(&self) -> (unused: bool)
        ensures
            unused == self.nobody_waits(),
    {
        let unused = self.readable.waiters.is_empty() && self.writable.waiters.is_empty();
        proof {
            assert(self.condvar(ReadyType::Readable) == self.readable);
            assert(self.condvar(ReadyType::Writable) == self.writable);
        }
        unused
    }

    /// The coroutines of all waiters.
    pub open spec fn waiting(&self) -> Multiset<Handle> {
        condvar::waiting_in(self.readable.waiters@).add(
            condvar::waiting_in(self.writable.waiters@),
        )
    }

    /// Moves the coroutines of all waiters to the back of a vector. None of them is notified.
    pub fn into_handles(self, pending: &mut Vec<Handle>)
        ensures
            final(pending)@.to_multiset() == old(pending)@.to_multiset().add(self.waiting()),
    {
        let ReadyStates { readable, writable } = self;
        readable.into_handles(pending);
        writable.into_handles(pending);
        proof {
            assert(pending@.to_multiset() =~= old(pending)@.to_multiset().add(self.waiting()));
        }
    }

    /// Notifies one that waits for each of the events.
    pub fn notify(&mut self, event_set: Ready, handles: &mut HandleList)
        requires
            old(self).wf(),
        ensures
            final(self).wf(),
            notified_events(*old(self), *final(self), event_set, old(handles)@, final(handles)@),
            event_set.bits & 1 != 1 ==> final(self).readable == old(self).readable,
            event_set.bits & 1 == 1 ==> wakes_the_first(old(self).readable, final(self).readable),
            event_set.bits & 2 != 2 ==> final(self).writable == old(self).writable,
            event_set.bits & 2 == 2 ==> wakes_the_first(old(self).writable, final(self).writable),
            final(handles)@ == old(handles)@ + first_waiting(old(self).readable, event_set.bits & 1)
                + first_waiting(old(self).writable, event_set.bits & 2),
    {
        if event_set.contains(Ready::readable()) {
            self.readable.notify_one(handles);
        }
        let ghost middle = handles@;
        if event_set.contains(Ready::writable()) {
            self.writable.notify_one(handles);
        }
        proof {
            assert(notified_in_turn(
                *old(self),
                *self,
                event_set,
                old(handles)@,
                middle,
                handles@,
            ));
            event_wakes_the_longest_waiting(
                *old(self),
                *self,
                event_set,
                old(handles)@,
                handles@,
            );
        }
    }
}

/// For each of the events one that waits for it was notified.
pub open spec fn notified_events(
    before: ReadyStates,
    after: ReadyStates,
    event_set: Ready,
    handles_before: Seq<Handle>,
    handles_after: Seq<Handle>,
) -> bool {
    exists|middle: Seq<Handle>| #[trigger]
        notified_in_turn(before, after, event_set, handles_before, middle, handles_after)
}

/// First one that waits to read was notified, then one that waits to write.
pub open spec fn notified_in_turn(
    before: ReadyStates,
    after: ReadyStates,
    event_set: Ready,
    handles_before: Seq<Handle>,
    middle: Seq<Handle>,
    handles_after: Seq<Handle>,
) -> bool {
    &&& if event_set.spec_contains(Ready { bits: 1 }) {
        condvar::notified_one(before.readable, after.readable, handles_before, middle)
    } else {
        after.readable == before.readable && middle == handles_before
    }
    &&& if event_set.spec_contains(Ready { bits: 2 }) {
        condvar::notified_one(before.writable, after.writable, middle, handles_after)
    } else {
        after.writable == before.writable && handles_after == middle
    }
}

/// The coroutine of the one that has waited longest, if there is such a coroutine and there is an
/// event for it.
pub open spec fn first_waiting(condvar: Condvar, event: usize) -> Seq<Handle> {
    if event == 0 {
        Seq::empty()
    } else {
        match condvar.list.head {
            Some(first) => match condvar.waiters@[first].handle {
                Some(hdl) => seq![hdl],
                None => Seq::empty(),
            },
            None => Seq::empty(),
        }
    }
}

/// The one that has waited longest, if anyone waits, does not wait any more, and nobody else was
/// told anything.
pub open spec fn wakes_the_first(before: Condvar, after: Condvar) -> bool {
    &&& after.list.head == (match before.list.head {
        Some(first) => before.waiters@[first].next,
        None => None,
    })
    &&& before.list.head matches Some(first) ==> {
        &&& after.waiters@.dom().contains(first)
        &&& after.waiters@[first].handle is None
        &&& after.waiters@[first].state != WaiterState::Empty
        &&& before.order() == seq![first] + after.order()
    }
    &&& forall|id: usize| #[trigger]
        before.waiters@.dom().contains(id) && before.list.head != Some(id) ==> {
            &&& after.waiters@.dom().contains(id)
            &&& after.waiters@[id].handle == before.waiters@[id].handle
            &&& after.waiters@[id].state == before.waiters@[id].state
        }
}

/// Whatever else a set of events holds, if it says that the object can be read, the one that has
/// waited longest to read is woken up, and if it says that the object can be written, the one that
/// has waited longest to write. Their coroutines go to the back of the handles, the reader first.
/// Without the event nobody who waits for it notices anything.
pub proof fn event_wakes_the_longest_waiting(
    before: ReadyStates,
    after: ReadyStates,
    event_set: Ready,
    handles_before: Seq<Handle>,
    handles_after: Seq<Handle>,
)
    requires
        before.wf(),
        notified_events(before, after, event_set, handles_before, handles_after),
    ensures
        event_set.bits & 1 == 1 ==> wakes_the_first(before.readable, after.readable),
        event_set.bits & 1 != 1 ==> after.readable == before.readable,
        event_set.bits & 2 == 2 ==> wakes_the_first(before.writable, after.writable),
        event_set.bits & 2 != 2 ==> after.writable == before.writable,
        handles_after == handles_before + first_waiting(before.readable, event_set.bits & 1)
            + first_waiting(before.writable, event_set.bits & 2),
{
    let middle = choose|middle: Seq<Handle>| #[trigger]
        notified_in_turn(before, after, event_set, handles_before, middle, handles_after);
    let bits = event_set.bits;
    assert(bits & 1 == 0 || bits & 1 == 1) by (bit_vector);
    assert(bits & 2 == 0 || bits & 2 == 2) by (bit_vector);
    if bits & 1 == 1 {
        condvar::notification_wakes_the_longest_waiting(
            before.readable,
            after.readable,
            handles_before,
            middle,
        );
    }
    assert(middle =~= handles_before + first_waiting(before.readable, bits & 1));
    if bits & 2 == 2 {
        condvar::notification_wakes_the_longest_waiting(
            before.writable,
            after.writable,
            middle,
            handles_after,
        );
    }
    assert(handles_after =~= middle + first_waiting(before.writable, bits & 2));
}

/// When a writer and no reader is to be woken up, the handles grow by exactly the writer that has
/// waited longest, and when a reader and no writer is, by the reader; with both events by both.
pub proof fn only_the_first_of_each_is_woken(
    before: ReadyStates,
    after: ReadyStates,
    event_set: Ready,
    handles_before: Seq<Handle>,
    handles_after: Seq<Handle>,
    reader: Handle,
    writer: Handle,
)
    requires
        before.wf(),
        notified_events(before, after, event_set, handles_before, handles_after),
        before.readable.list.head matches Some(first) && before.readable.waiters@[first].handle
            == Some(reader),
        before.writable.list.head matches Some(first) && before.writable.waiters@[first].handle
            == Some(writer),
    ensures
        event_set.bits == 0 ==> handles_after == handles_before,
        event_set.bits == 1 ==> handles_after == handles_before.push(reader),
        event_set.bits == 2 ==> handles_after == handles_before.push(writer),
        event_set.bits == 3 ==> handles_after == handles_before.push(reader).push(writer),
{
    event_wakes_the_longest_waiting(before, after, event_set, handles_before, handles_after);
    assert(0usize & 1 == 0 && 0usize & 2 == 0) by (bit_vector);
    assert(1usize & 1 == 1 && 1usize & 2 == 0) by (bit_vector);
    assert(2usize & 1 == 0 && 2usize & 2 == 2) by (bit_vector);
    assert(3usize & 1 == 1 && 3usize & 2 == 2) by (bit_vector);
}

/// Events lose nobody: the coroutines that wait on an object and those that were woken up are the
/// same ones before and after.
pub proof fn events_lose_no_coroutine(
    before: ReadyStates,
    after: ReadyStates,
    event_set: Ready,
    handles_before: Seq<Handle>,
    handles_after: Seq<Handle>,
)
    requires
        before.wf(),
        notified_events(before, after, event_set, handles_before, handles_after),
    ensures
        after.waiting().add(handles_after.to_multiset()) == before.waiting().add(
            handles_before.to_multiset(),
        ),
{
    let middle = choose|middle: Seq<Handle>| #[trigger]
        notified_in_turn(before, after, event_set, handles_before, middle, handles_after);
    let readers = condvar::waiting_in(before.readable.waiters@);
    let readers_left = condvar::waiting_in(after.readable.waiters@);
    let writers = condvar::waiting_in(before.writable.waiters@);
    let writers_left = condvar::waiting_in(after.writable.waiters@);
    if event_set.spec_contains(Ready { bits: 1 }) {
        condvar::notification_loses_no_coroutine(
            before.readable,
            after.readable,
            handles_before,
            middle,
        );
    }
    if event_set.spec_contains(Ready { bits: 2 }) {
        condvar::notification_loses_no_coroutine(
            before.writable,
            after.writable,
            middle,
            handles_after,
        );
    }
    assert(readers_left.add(middle.to_multiset()) == readers.add(handles_before.to_multiset()));
    assert(writers_left.add(handles_after.to_multiset()) == writers.add(middle.to_multiset()));
    assert(readers_left.add(writers_left).add(handles_after.to_multiset()) =~= readers_left.add(
        writers_left.add(handles_after.to_multiset()),
    ));
    assert(readers_left.add(writers.add(middle.to_multiset())) =~= readers_left.add(
        middle.to_multiset(),
    ).add(writers));
    assert(readers.add(handles_before.to_multiset()).add(writers) =~= readers.add(writers).add(
        handles_before.to_multiset(),
    ));
}

/// A set contains two events together if and only if it contains each of them. Every set contains
/// no events at all, and only the set of no events is contained in every other one.
pub proof fn events_are_contained_one_by_one(set: Ready, first: Ready, second: Ready)
    ensures
        set.spec_contains(Ready { bits: first.bits | second.bits }) <==> set.spec_contains(first)
            && set.spec_contains(second),
        set.spec_contains(set),
        set.spec_contains(Ready { bits: 0 }),
        (Ready { bits: 0 }).spec_contains(set) ==> set.bits == 0,
{
    let s = set.bits;
    let a = first.bits;
    let b = second.bits;
    assert(s & (a | b) == (a | b) <==> (s & a == a && s & b == b)) by (bit_vector);
    assert(s & s == s) by (bit_vector);
    assert(s & 0 == 0) by (bit_vector);
    assert(0 & s == 0) by (bit_vector);
}

/// The event that stands for what one waits for wakes up the one that has waited longest for just
/// that, and nobody who waits for the other.
pub proof fn event_is_for_those_who_wait_for_it(
    before: ReadyStates,
    after: ReadyStates,
    ready_type: ReadyType,
    other: ReadyType,
    handles_before: Seq<Handle>,
    handles_after: Seq<Handle>,
)
    requires
        before.wf(),
        other != ready_type,
        notified_events(
            before,
            after,
            vstd::std_specs::convert::FromSpec::from_spec(ready_type),
            handles_before,
            handles_after,
        ),
    ensures
        after.condvar(other) == before.condvar(other),
        match before.condvar(ready_type).list.head {
            Some(first) => {
                &&& after.condvar(ready_type).waiters@[first].state != WaiterState::Empty
                &&& after.condvar(ready_type).waiters@[first].handle is None
                &&& before.condvar(ready_type).waiters@[first].handle matches Some(hdl)
                    ==> handles_after == handles_before.push(hdl)
                &&& before.condvar(ready_type).waiters@[first].handle is None ==> handles_after
                    == handles_before
            },
            None => handles_after == handles_before,
        },
{
    let event_set: Ready = vstd::std_specs::convert::FromSpec::from_spec(ready_type);
    event_wakes_the_longest_waiting(before, after, event_set, handles_before, handles_after);
    assert(1usize & 1 == 1 && 1usize & 2 == 0) by (bit_vector);
    assert(2usize & 1 == 0 && 2usize & 2 == 2) by (bit_vector);
    match ready_type {
        ReadyType::Readable => {
            assert(event_set.bits == 1);
        },
        ReadyType::Writable => {
            assert(event_set.bits == 2);
        },
    }
}

} // verus!
