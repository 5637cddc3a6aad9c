//! Condition variables on which coroutines wait for I/O.

use vstd::multiset::Multiset;
use vstd::prelude::*;

use crate::coroutine::{Handle, HandleList, State};
use crate::fifo;
use crate::fifo::Passing;
use crate::runtime::processor::Processor;
use crate::runtime::timer::{local_now, LocalTime, Timeout, Timer};
use crate::scheduler::ready::ReadyType;
use crate::scheduler::TimerWaitType;
use crate::slots::Slots;

verus! {

/// What has become of a waiter.
#[derive(Clone, Copy, Debug, Eq, PartialEq, Structural)]
pub enum WaiterState {
    /// Nothing yet.
    Empty,
    /// It was notified.
    Succeeded,
    /// Its time ran out.
    Timeout,
    /// It failed.
    Error,
}

/// One that waits: its neighbours in the list, the coroutine, and what has become of it.
pub struct Waiter {
    /// The waiter before this one.
    pub prev: Option<usize>,
    /// The waiter behind this one.
    pub next: Option<usize>,
    /// The coroutine that waits.
    pub handle: Option<Handle>,
    /// What has become of it.
    pub state: WaiterState,
    /// The timeout that ends the wait.
    pub timeout: Option<Timeout>,
}

impl Waiter {
    /// A waiter without a coroutine, in no list.
    pub fn new() -> (waiter: Waiter)
        ensures
            waiter == (Waiter {
                prev: None,
                next: None,
                handle: None,
                state: WaiterState::Empty,
                timeout: None,
            }),
    {
        Waiter { prev: None, next: None, handle: None, state: WaiterState::Empty, timeout: None }
    }

    /// The waiter after a notification: the first one counts, and the coroutine is gone.
    pub open spec fn notified(self, t: WaiterState) -> Waiter {
        Waiter {
            state: if self.state == WaiterState::Empty {
                t
            } else {
                self.state
            },
            handle: None,
            ..self
        }
    }

    /// Notifies the waiter. The coroutine comes back, to be made ready, if it has not yet.
    pub fn notify(&mut self, t: WaiterState) -> (hdl: Option<Handle>)
        requires
            t != WaiterState::Empty,
        ensures
            *final(self) == old(self).notified(t),
            hdl == old(self).handle,
    {
        if self.state == WaiterState::Empty {
            self.state = t;
        }
        self.handle.take()
    }

    /// What has become of the waiter.
    pub fn state(&self) -> (state: WaiterState)
        ensures
            state == self.state,
    {
        self.state
    }

    /// Leaves the coroutine with the waiter, unless there was a notification already: then it
    /// comes back.
    pub fn try_wait(&mut self, coro: Handle) -> (rejected: Option<Handle>)
        ensures
            old(self).state == WaiterState::Empty ==> rejected is None && *final(self) == (Waiter {
                handle: Some(coro),
                ..*old(self)
            }),
            old(self).state != WaiterState::Empty ==> rejected == Some(coro) && *final(self)
                == *old(self),
    {
        match self.state {
            WaiterState::Empty => {
                self.handle = Some(coro);
                None
            },
            _ => Some(coro),
        }
    }

    /// Sets the timeout that ends the wait.
    pub fn set_timeout(&mut self, timeout: Timeout)
        ensures
            *final(self) == (Waiter { timeout: Some(timeout), ..*old(self) }),
    {
        self.timeout = Some(timeout);
    }

    /// Takes the timeout out.
    pub fn take_timeout(&mut self) -> (timeout: Option<Timeout>)
        ensures
            timeout == old(self).timeout,
            *final(self) == (Waiter { timeout: None, ..*old(self) }),
    {
        self.timeout.take()
    }
}

/// However often a waiter is notified, the first notification is the one that counts, and only
/// the first one hands out the coroutine.
pub proof fn first_notification_counts(waiter: Waiter, first: WaiterState, second: WaiterState)
    requires
        waiter.state == WaiterState::Empty,
        first != WaiterState::Empty,
        second != WaiterState::Empty,
    ensures
        waiter.notified(first).notified(second).state == first,
        waiter.notified(first).handle is None,
{
}

/// The waiters by their numbers.
pub type WaiterMap = Map<usize, Waiter>;

/// The one behind place `i`.
pub open spec fn follower(ids: Seq<usize>, i: int) -> Option<usize> {
    if i + 1 < ids.len() {
        Some(ids[i + 1])
    } else {
        None
    }
}

/// The waiters from `start` along their links, up to the last one.
pub open spec fn chain(waiters: WaiterMap, start: Option<usize>, ids: Seq<usize>) -> bool {
    &&& start == follower(ids, -1)
    &&& forall|i: int|
        0 <= i < ids.len() ==> waiters.dom().contains(ids[i]) && (#[trigger] waiters[ids[i]]).next
            == follower(ids, i)
}

/// The waiters from `start` along their links, in their order.
pub open spec fn order_from(waiters: WaiterMap, start: Option<usize>) -> Seq<usize> {
    choose|ids: Seq<usize>| chain(waiters, start, ids)
}

/// The links of all waiters fit together: whoever is behind one has that one before it.
#[verifier::opaque]
pub open spec fn linked(waiters: WaiterMap) -> bool {
    &&& forall|id: usize|
        waiters.dom().contains(id) ==> ((#[trigger] waiters[id].next) matches Some(n)
            ==> waiters.dom().contains(n) && waiters[n].prev == Some(id))
    &&& forall|id: usize|
        waiters.dom().contains(id) ==> ((#[trigger] waiters[id].prev) matches Some(p)
            ==> waiters.dom().contains(p) && waiters[p].next == Some(id))
}

/// The links of one waiter fit together with those of its neighbours.
spec fn linked_around(waiters: WaiterMap, id: usize) -> bool {
    &&& waiters[id].next matches Some(n) ==> waiters.dom().contains(n) && waiters[n].prev == Some(
        id,
    )
    &&& waiters[id].prev matches Some(p) ==> waiters.dom().contains(p) && waiters[p].next == Some(
        id,
    )
}

/// The numbers grow along the links.
pub open spec fn ranked(waiters: WaiterMap, rank: Map<usize, int>) -> bool {
    forall|id: usize| #[trigger]
        waiters.dom().contains(id) ==> (waiters[id].next matches Some(n) ==> rank[id] < rank[n])
}

/// No waiter comes behind itself.
pub open spec fn acyclic(waiters: WaiterMap) -> bool {
    exists|rank: Map<usize, int>| ranked(waiters, rank)
}

/// A list of waiters: the first one and the last one.
pub struct WaiterList {
    /// The first waiter.
    pub head: Option<usize>,
    /// The last waiter.
    pub tail: Option<usize>,
}

impl WaiterList {
    /// The ends of the list are waiters with nothing before and behind them, and no other waiter
    /// begins or ends anything: those outside the list are linked to nobody.
    pub open spec fn wf(&self, waiters: WaiterMap) -> bool {
        &&& linked(waiters)
        &&& acyclic(waiters)
        &&& waiters.dom().finite()
        &&& self.head is Some <==> self.tail is Some
        &&& self.head matches Some(h) ==> {
            &&& waiters.dom().contains(h)
            &&& waiters[h].prev is None
            &&& waiters[h].next is None ==> self.tail == Some(h)
        }
        &&& self.tail matches Some(t) ==> {
            &&& waiters.dom().contains(t)
            &&& waiters[t].next is None
            &&& waiters[t].prev is None ==> self.head == Some(t)
        }
        &&& self.no_loose_ends(waiters)
    }

    /// Only the head begins a row of waiters, and only the tail ends one.
    #[verifier::opaque]
    pub open spec fn no_loose_ends(&self, waiters: WaiterMap) -> bool {
        forall|id: usize| #[trigger]
            waiters.dom().contains(id) ==> {
                &&& waiters[id].prev is None && waiters[id].next is Some ==> self.head == Some(id)
                &&& waiters[id].next is None && waiters[id].prev is Some ==> self.tail == Some(id)
            }
    }

    /// The waiter is in the list.
    pub open spec fn holds(&self, waiters: WaiterMap, id: usize) -> bool {
        self.head == Some(id) || waiters[id].prev is Some
    }

    /// The waiters of the list from the first one on.
    pub open spec fn order(&self, waiters: WaiterMap) -> Seq<usize> {
        order_from(waiters, self.head)
    }

    /// The list after a waiter was put at its back.
    pub open spec fn pushed(&self, id: usize) -> WaiterList {
        WaiterList {
            head: if self.tail is None {
                Some(id)
            } else {
                self.head
            },
            tail: Some(id),
        }
    }

    /// The waiters after one was put at the back of the list.
    pub open spec fn waiters_pushed(&self, waiters: WaiterMap, id: usize) -> WaiterMap {
        match self.tail {
            None => waiters,
            Some(t) => waiters.insert(t, Waiter { next: Some(id), ..waiters[t] }).insert(
                id,
                Waiter { prev: Some(t), ..waiters[id] },
            ),
        }
    }

    /// Puts a waiter at the back.
    fn push_back(&mut self, waiters: &mut Slots<Waiter>, id: usize)
        requires
            old(self).wf(old(waiters)@),
            old(waiters)@.dom().contains(id),
            old(waiters)@[id].prev is None,
            old(waiters)@[id].next is None,
            old(self).head != Some(id),
            old(self).tail != Some(id),
        ensures
            final(self).wf(final(waiters)@),
            *final(self) == old(self).pushed(id),
            final(waiters)@ == old(self).waiters_pushed(old(waiters)@, id),
    {
        match self.tail {
            None => {
                self.head = Some(id);
                self.tail = Some(id);
                proof {
                    reveal(WaiterList::no_loose_ends);
                }
            },
            Some(tail) => {
                self.tail = Some(id);
                waiters.get_mut(tail).next = Some(id);
                waiters.get_mut(id).prev = Some(tail);
                proof {
                    reveal(WaiterList::no_loose_ends);
                    reveal(linked);
                    let rank = choose|rank: Map<usize, int>| ranked(old(waiters)@, rank);
                    assert(ranked(waiters@, rank.insert(id, rank[tail] + 1)));
                }
            },
        }
    }

    /// The list after its first waiter was taken out.
    pub open spec fn popped(&self, waiters: WaiterMap) -> WaiterList {
        match self.head {
            None => *self,
            Some(h) => WaiterList {
                head: waiters[h].next,
                tail: if waiters[h].next is None {
                    None
                } else {
                    self.tail
                },
            },
        }
    }

    /// The waiters after the first one of the list was taken out.
    pub open spec fn waiters_popped(&self, waiters: WaiterMap) -> WaiterMap {
        match self.head {
            None => waiters,
            Some(h) => match waiters[h].next {
                None => waiters,
                Some(n) => waiters.insert(h, Waiter { next: None, ..waiters[h] }).insert(
                    n,
                    Waiter { prev: None, ..waiters[n] },
                ),
            },
        }
    }

    /// Takes the waiter at the front out.
    fn pop_front(&mut self, waiters: &mut Slots<Waiter>) -> (first: Option<usize>)
        requires
            old(self).wf(old(waiters)@),
        ensures
            final(self).wf(final(waiters)@),
            first == old(self).head,
            *final(self) == old(self).popped(old(waiters)@),
            final(waiters)@ == old(self).waiters_popped(old(waiters)@),
    {
        match self.head.take() {
            None => None,
            Some(head) => {
                proof {
                    reveal(WaiterList::no_loose_ends);
                    reveal(linked);
                }
                let next = waiters.get_mut(head).next.take();
                match next {
                    None => {
                        self.tail = None;
                        proof {
                            assert(waiters@ =~= old(waiters)@);
                        }
                    },
                    Some(next) => {
                        waiters.get_mut(next).prev = None;
                        self.head = Some(next);
                        proof {
                            let rank = choose|rank: Map<usize, int>| ranked(old(waiters)@, rank);
                            assert(ranked(waiters@, rank));
                        }
                    },
                }
                Some(head)
            },
        }
    }

    /// The list after a waiter was taken out. One that is not in the list leaves it alone.
    pub open spec fn removed(&self, waiters: WaiterMap, id: usize) -> WaiterList {
        WaiterList {
            head: if self.head == Some(id) {
                waiters[id].next
            } else {
                self.head
            },
            tail: if self.tail == Some(id) {
                waiters[id].prev
            } else {
                self.tail
            },
        }
    }

    /// The waiters after one was taken out of the list.
    pub open spec fn waiters_removed(&self, waiters: WaiterMap, id: usize) -> WaiterMap {
        let w = waiters[id];
        let alone = waiters.insert(id, Waiter { prev: None, next: None, ..w });
        let before = match w.prev {
            Some(p) => alone.insert(p, Waiter { next: w.next, ..alone[p] }),
            None => alone,
        };
        match w.next {
            Some(n) => before.insert(n, Waiter { prev: w.prev, ..before[n] }),
            None => before,
        }
    }

    /// Takes a waiter out.
    fn remove(&mut self, waiters: &mut Slots<Waiter>, id: usize)
        requires
            old(self).wf(old(waiters)@),
            old(waiters)@.dom().contains(id),
        ensures
            final(self).wf(final(waiters)@),
            *final(self) == old(self).removed(old(waiters)@, id),
            final(waiters)@ == old(self).waiters_removed(old(waiters)@, id),
            final(waiters)@[id].prev is None,
            final(waiters)@[id].next is None,
            final(self).head != Some(id),
            final(self).tail != Some(id),
    {
        let ghost before = waiters@;
        proof {
            self.lemma_removed(before, id);
        }
        let prev = waiters.get_mut(id).prev.take();
        let next = waiters.get_mut(id).next.take();
        if let Some(prev) = prev {
            waiters.get_mut(prev).next = next;
        } else if self.head == Some(id) {
            self.head = next;
        }
        if let Some(next) = next {
            waiters.get_mut(next).prev = prev;
        } else if self.tail == Some(id) {
            self.tail = prev;
        }
        proof {
            assert(waiters@ =~= old(self).waiters_removed(before, id));
        }
    }

    /// Taking a waiter out keeps the list in order.
    proof fn lemma_removed(&self, waiters: WaiterMap, id: usize)
        requires
            self.wf(waiters),
            waiters.dom().contains(id),
        ensures
            self.removed(waiters, id).wf(self.waiters_removed(waiters, id)),
            self.waiters_removed(waiters, id)[id].prev is None,
            self.waiters_removed(waiters, id)[id].next is None,
            self.removed(waiters, id).head != Some(id),
            self.removed(waiters, id).tail != Some(id),
            waiters[id].prev matches Some(p) ==> waiters.dom().contains(p) && p != id
                && self.head != Some(id),
            waiters[id].next matches Some(n) ==> waiters.dom().contains(n) && n != id
                && self.tail != Some(id),
    {
        let after = self.waiters_removed(waiters, id);
        let list = self.removed(waiters, id);
        let prev = waiters[id].prev;
        let next = waiters[id].next;
        let rank = choose|rank: Map<usize, int>| ranked(waiters, rank);
        assert(linked_around(waiters, id)) by {
            reveal(linked);
        }
        if let Some(p) = prev {
            assert(waiters.dom().contains(p) && waiters[p].next == Some(id));
            assert(p != id);
        }
        if let Some(n) = next {
            assert(waiters.dom().contains(n) && waiters[n].prev == Some(id));
            assert(n != id);
        }
        assert(prev is Some && next is Some ==> prev != next);
        assert(after.dom() =~= waiters.dom());
        assert forall|other: usize| #[trigger] after.dom().contains(other) implies {
            &&& after[other].next == (if other == id {
                None
            } else if prev == Some(other) {
                next
            } else {
                waiters[other].next
            })
            &&& after[other].prev == (if other == id {
                None
            } else if next == Some(other) {
                prev
            } else {
                waiters[other].prev
            })
        } by {}
        assert(linked(after)) by {
            reveal(linked);
            assert forall|other: usize| #[trigger] after.dom().contains(other) implies (
            after[other].next matches Some(n) ==> after.dom().contains(n) && after[n].prev == Some(
                other,
            )) by {
                assert(waiters.dom().contains(other));
                if let Some(n) = after[other].next {
                    assert(waiters.dom().contains(n));
                    assert(after.dom().contains(n));
                }
            }
            assert forall|other: usize| #[trigger] after.dom().contains(other) implies (
            after[other].prev matches Some(p) ==> after.dom().contains(p) && after[p].next == Some(
                other,
            )) by {
                assert(waiters.dom().contains(other));
                if let Some(p) = after[other].prev {
                    assert(waiters.dom().contains(p));
                    assert(after.dom().contains(p));
                }
            }
        }
        assert(ranked(after, rank)) by {
            assert forall|other: usize| #[trigger] after.dom().contains(other) implies (
            after[other].next matches Some(n) ==> rank[other] < rank[n]) by {
                assert(waiters.dom().contains(other));
            }
        }
        assert(list.no_loose_ends(after)) by {
            reveal(WaiterList::no_loose_ends);
            assert(waiters.dom().contains(id));
            assert forall|other: usize| #[trigger] after.dom().contains(other) implies {
                &&& after[other].prev is None && after[other].next is Some ==> list.head == Some(
                    other,
                )
                &&& after[other].next is None && after[other].prev is Some ==> list.tail == Some(
                    other,
                )
            } by {
                assert(waiters.dom().contains(other));
            }
        }
        assert(list.head is Some <==> list.tail is Some) by {
            reveal(WaiterList::no_loose_ends);
            assert(waiters.dom().contains(id));
        }
        if let Some(h) = list.head {
            reveal(WaiterList::no_loose_ends);
            assert(waiters.dom().contains(h));
            assert(after.dom().contains(h));
        }
        if let Some(t) = list.tail {
            reveal(WaiterList::no_loose_ends);
            assert(waiters.dom().contains(t));
            assert(after.dom().contains(t));
        }
    }
}

/// There is only one chain from a waiter.
proof fn lemma_chain_unique(waiters: WaiterMap, start: Option<usize>, a: Seq<usize>, b: Seq<usize>)
    requires
        chain(waiters, start, a),
        chain(waiters, start, b),
    ensures
        a == b,
    decreases a.len(),
{
    if a.len() > 0 {
        let next = waiters[a[0]].next;
        assert(b[0] == a[0]);
        lemma_chain_suffix(waiters, start, a);
        lemma_chain_suffix(waiters, start, b);
        lemma_chain_unique(waiters, next, a.drop_first(), b.drop_first());
        assert(a =~= seq![a[0]] + a.drop_first());
        assert(b =~= seq![b[0]] + b.drop_first());
    } else {
        assert(b.len() == 0);
        assert(a =~= b);
    }
}

/// What is behind the first waiter of a chain is a chain.
proof fn lemma_chain_suffix(waiters: WaiterMap, start: Option<usize>, ids: Seq<usize>)
    requires
        chain(waiters, start, ids),
        ids.len() > 0,
    ensures
        chain(waiters, waiters[ids[0]].next, ids.drop_first()),
{
    let rest = ids.drop_first();
    assert(waiters[ids[0]].next == follower(ids, 0));
    assert forall|i: int| 0 <= i < rest.len() implies waiters.dom().contains(rest[i]) && (
    #[trigger] waiters[rest[i]]).next == follower(rest, i) by {
        assert(waiters[ids[i + 1]].next == follower(ids, i + 1));
    }
}

/// The waiters of a sequence are linked one behind the other.
spec fn path(waiters: WaiterMap, ids: Seq<usize>) -> bool {
    &&& forall|i: int| 0 <= i < ids.len() ==> waiters.dom().contains(#[trigger] ids[i])
    &&& forall|i: int|
        0 <= i < ids.len() - 1 ==> (#[trigger] waiters[ids[i]]).next == follower(ids, i)
}

/// A path from a waiter with nothing before it comes nowhere twice.
proof fn lemma_path_distinct(waiters: WaiterMap, ids: Seq<usize>, i: int, j: int)
    requires
        linked(waiters),
        path(waiters, ids),
        0 <= i < j < ids.len(),
        waiters[ids[0]].prev is None,
    ensures
        ids[i] != ids[j],
    decreases i,
{
    reveal(linked);
    if ids[i] == ids[j] {
        assert(waiters.dom().contains(ids[j - 1]));
        assert(waiters[ids[j - 1]].next == follower(ids, j - 1));
        assert(waiters[ids[j]].prev == Some(ids[j - 1]));
        if i > 0 {
            assert(waiters.dom().contains(ids[i - 1]));
            assert(waiters[ids[i - 1]].next == follower(ids, i - 1));
            assert(waiters[ids[i]].prev == Some(ids[i - 1]));
            lemma_path_distinct(waiters, ids, i - 1, j - 1);
        }
    }
}

/// A path can be followed to its end.
proof fn lemma_path_ends(waiters: WaiterMap, ids: Seq<usize>) -> (all: Seq<usize>)
    requires
        linked(waiters),
        waiters.dom().finite(),
        path(waiters, ids),
        ids.len() > 0,
        waiters[ids[0]].prev is None,
    ensures
        chain(waiters, Some(ids[0]), all),
    decreases waiters.dom().len() + 1 - ids.len(),
{
    let last = ids.last();
    assert(waiters.dom().contains(last));
    assert(ids.len() <= waiters.dom().len()) by {
        assert forall|i: int, j: int| 0 <= i < ids.len() && 0 <= j < ids.len() && i != j implies ids[i]
            != ids[j] by {
            if i < j {
                lemma_path_distinct(waiters, ids, i, j);
            } else {
                lemma_path_distinct(waiters, ids, j, i);
            }
        }
        ids.unique_seq_to_set();
        assert(ids.to_set().subset_of(waiters.dom()));
        vstd::set_lib::lemma_len_subset(ids.to_set(), waiters.dom());
    }
    match waiters[last].next {
        None => {
            assert forall|i: int| 0 <= i < ids.len() implies waiters.dom().contains(ids[i]) && (
            #[trigger] waiters[ids[i]]).next == follower(ids, i) by {
                assert(waiters.dom().contains(ids[i]));
            }
            ids
        },
        Some(next) => {
            reveal(linked);
            let more = ids.push(next);
            assert forall|i: int| 0 <= i < more.len() - 1 implies (
            #[trigger] waiters[more[i]]).next == follower(more, i) by {
                assert(waiters.dom().contains(ids[i]));
                assert(more[i] == ids[i]);
                if i < ids.len() - 1 {
                    assert(waiters[ids[i]].next == follower(ids, i));
                }
            }
            assert forall|i: int| 0 <= i < more.len() implies waiters.dom().contains(
                #[trigger] more[i],
            ) by {
                if i < ids.len() {
                    assert(more[i] == ids[i]);
                }
            }
            lemma_path_ends(waiters, more)
        },
    }
}

/// The order of the waiters from one with nothing before it exists: it comes nowhere twice.
pub proof fn lemma_order(waiters: WaiterMap, start: Option<usize>)
    requires
        linked(waiters),
        waiters.dom().finite(),
        start matches Some(h) ==> waiters.dom().contains(h) && waiters[h].prev is None,
    ensures
        chain(waiters, start, order_from(waiters, start)),
        order_from(waiters, start).no_duplicates(),
        forall|i: int|
            0 < i < order_from(waiters, start).len() ==> (#[trigger] waiters[order_from(
                waiters,
                start,
            )[i]]).prev == Some(order_from(waiters, start)[i - 1]),
{
    match start {
        None => {
            assert(chain(waiters, start, Seq::<usize>::empty()));
        },
        Some(h) => {
            let all = lemma_path_ends(waiters, seq![h]);
        },
    }
    let ids = order_from(waiters, start);
    assert(chain(waiters, start, ids));
    assert forall|i: int| 0 <= i < ids.len() implies waiters.dom().contains(
        #[trigger] ids[i],
    ) by {
        assert(waiters[ids[i]].next == follower(ids, i));
    }
    assert(path(waiters, ids));
    assert forall|i: int, j: int| 0 <= i < ids.len() && 0 <= j < ids.len() && i != j implies ids[i]
        != ids[j] by {
        if i < j {
            lemma_path_distinct(waiters, ids, i, j);
        } else {
            lemma_path_distinct(waiters, ids, j, i);
        }
    }
    assert forall|i: int| 0 < i < ids.len() implies (#[trigger] waiters[ids[i]]).prev == Some(
        ids[i - 1],
    ) by {
        reveal(linked);
        assert(waiters[ids[i - 1]].next == follower(ids, i - 1));
        assert(waiters.dom().contains(ids[i - 1]));
    }
}

/// A chain is the order of its waiters.
proof fn lemma_order_is(waiters: WaiterMap, start: Option<usize>, ids: Seq<usize>)
    requires
        chain(waiters, start, ids),
    ensures
        order_from(waiters, start) == ids,
{
    lemma_chain_unique(waiters, start, order_from(waiters, start), ids);
}

impl WaiterList {
    /// The last waiter of the list is its tail.
    proof fn lemma_tail_is_last(&self, waiters: WaiterMap)
        requires
            self.wf(waiters),
        ensures
            ({
                let ids = self.order(waiters);
                &&& ids.len() == 0 <==> self.tail is None
                &&& ids.len() > 0 ==> self.tail == Some(ids.last())
            }),
    {
        reveal(WaiterList::no_loose_ends);
        let ids = self.order(waiters);
        lemma_order(waiters, self.head);
        if ids.len() > 0 {
            let last = ids.len() - 1;
            assert(waiters[ids[last]].next == follower(ids, last));
            assert(waiters.dom().contains(ids.last()));
            if last > 0 {
                assert(waiters[ids[last]].prev == Some(ids[last - 1]));
            }
        }
    }

    /// A waiter that is put at the back comes last.
    pub proof fn pushed_waiter_comes_last(&self, waiters: WaiterMap, id: usize)
        requires
            self.wf(waiters),
            waiters.dom().contains(id),
            waiters[id].prev is None,
            waiters[id].next is None,
            self.head != Some(id),
            self.tail != Some(id),
        ensures
            self.pushed(id).order(self.waiters_pushed(waiters, id)) == self.order(waiters).push(id),
    {
        let ids = self.order(waiters);
        lemma_order(waiters, self.head);
        self.lemma_tail_is_last(waiters);
        let after = self.waiters_pushed(waiters, id);
        assert forall|i: int| 0 <= i < ids.len() implies #[trigger] ids[i] != id by {
            assert(waiters[ids[i]].next == follower(ids, i));
            if i > 0 {
                assert(waiters[ids[i]].prev == Some(ids[i - 1]));
            }
        }
        match self.tail {
            None => {
                assert(ids.push(id) =~= seq![id]);
                lemma_order_is(after, Some(id), seq![id]);
            },
            Some(t) => {
                assert(t != id);
                let more = ids.push(id);
                assert forall|i: int| 0 <= i < more.len() implies after.dom().contains(more[i]) && (
                #[trigger] after[more[i]]).next == follower(more, i) by {
                    if i < ids.len() {
                        assert(waiters[ids[i]].next == follower(ids, i));
                        assert(ids[i] != id);
                    }
                }
                lemma_order_is(after, self.head, more);
            },
        }
    }

    /// The waiter that is taken from the front is the first one, and the others keep their
    /// order.
    pub proof fn popped_waiter_was_first(&self, waiters: WaiterMap)
        requires
            self.wf(waiters),
        ensures
            ({
                let ids = self.order(waiters);
                &&& self.head == follower(ids, -1)
                &&& ids.no_duplicates()
                &&& ids.len() > 0 ==> self.popped(waiters).order(self.waiters_popped(waiters))
                    == ids.drop_first()
                &&& ids.len() == 0 ==> self.popped(waiters).order(self.waiters_popped(waiters))
                    == ids
            }),
    {
        let ids = self.order(waiters);
        lemma_order(waiters, self.head);
        if ids.len() > 0 {
            let after = self.waiters_popped(waiters);
            let rest = ids.drop_first();
            assert(waiters[ids[0]].next == follower(ids, 0));
            assert forall|i: int| 0 <= i < rest.len() implies after.dom().contains(rest[i]) && (
            #[trigger] after[rest[i]]).next == follower(rest, i) by {
                assert(waiters[ids[i + 1]].next == follower(ids, i + 1));
                assert(ids[i + 1] != ids[0]);
            }
            lemma_order_is(after, waiters[ids[0]].next, rest);
        }
    }

    /// A waiter that is taken out of the list is missing from it, and the others keep their
    /// order.
    pub proof fn removed_waiter_is_missing(&self, waiters: WaiterMap, k: int)
        requires
            self.wf(waiters),
            0 <= k < self.order(waiters).len(),
        ensures
            ({
                let ids = self.order(waiters);
                self.removed(waiters, ids[k]).order(self.waiters_removed(waiters, ids[k]))
                    == ids.remove(k)
            }),
    {
        let ids = self.order(waiters);
        let id = ids[k];
        lemma_order(waiters, self.head);
        assert(waiters[ids[k]].next == follower(ids, k));
        if k > 0 {
            assert(waiters[ids[k]].prev == Some(ids[k - 1]));
            assert(ids[0] != ids[k]);
        }
        self.lemma_chain_without(waiters, ids, k);
        lemma_order_is(
            self.waiters_removed(waiters, id),
            self.removed(waiters, id).head,
            ids.remove(k),
        );
    }

    /// Without one of its waiters a chain is still a chain.
    #[verifier::spinoff_prover]
    proof fn lemma_chain_without(&self, waiters: WaiterMap, ids: Seq<usize>, k: int)
        requires
            chain(waiters, self.head, ids),
            ids.no_duplicates(),
            0 <= k < ids.len(),
            waiters[ids[k]].prev == (if k > 0 {
                Some(ids[k - 1])
            } else {
                None
            }),
        ensures
            chain(
                self.waiters_removed(waiters, ids[k]),
                self.removed(waiters, ids[k]).head,
                ids.remove(k),
            ),
    {
        let id = ids[k];
        let after = self.waiters_removed(waiters, id);
        let rest = ids.remove(k);
        assert(waiters[ids[k]].next == follower(ids, k));
        assert forall|i: int| 0 <= i < rest.len() implies after.dom().contains(rest[i]) && (
        #[trigger] after[rest[i]]).next == follower(rest, i) by {
            if i < k {
                assert(rest[i] == ids[i]);
                assert(waiters[ids[i]].next == follower(ids, i));
                assert(ids[i] != id);
                if i != k - 1 {
                    assert(ids[i] != ids[k - 1]);
                }
            } else {
                assert(rest[i] == ids[i + 1]);
                assert(waiters[ids[i + 1]].next == follower(ids, i + 1));
                assert(ids[i + 1] != id);
                if k > 0 {
                    assert(ids[i + 1] != ids[k - 1]);
                }
            }
        }
    }

    /// Taking out a waiter that is not in the list, as it was taken out before, leaves the list
    /// and all waiters as they are.
    pub proof fn removing_a_popped_waiter_changes_nothing(&self, waiters: WaiterMap, id: usize)
        requires
            self.wf(waiters),
            waiters.dom().contains(id),
            !self.holds(waiters, id),
        ensures
            self.removed(waiters, id) == *self,
            self.waiters_removed(waiters, id) == waiters,
            self.removed(waiters, id).order(self.waiters_removed(waiters, id)) == self.order(
                waiters,
            ),
    {
        reveal(WaiterList::no_loose_ends);
        assert(self.waiters_removed(waiters, id) =~= waiters);
    }

    /// Whoever was taken from the front is not in the list any more.
    pub proof fn popped_waiter_is_not_in_the_list(&self, waiters: WaiterMap, id: usize)
        requires
            self.wf(waiters),
            self.head == Some(id),
        ensures
            !self.popped(waiters).holds(self.waiters_popped(waiters), id),
    {
        let rank = choose|rank: Map<usize, int>| ranked(waiters, rank);
        assert(waiters.dom().contains(id));
    }
}

/// The coroutines that wait with the given waiters.
pub open spec fn handles_of(waiters: WaiterMap, ids: Seq<usize>) -> Seq<Handle>
    decreases ids.len(),
{
    if ids.len() == 0 {
        Seq::empty()
    } else {
        let before = handles_of(waiters, ids.drop_last());
        match waiters[ids.last()].handle {
            Some(hdl) => before.push(hdl),
            None => before,
        }
    }
}

/// Just this coroutine, if there is one.
pub open spec fn just(hdl: Option<Handle>) -> Multiset<Handle> {
    match hdl {
        Some(hdl) => Multiset::singleton(hdl),
        None => Multiset::empty(),
    }
}

/// The coroutines of the waiters whose numbers are below `n`.
pub open spec fn waiting_below(waiters: WaiterMap, n: nat) -> Multiset<Handle>
    decreases n,
{
    if n == 0 {
        Multiset::empty()
    } else {
        let id = (n - 1) as usize;
        let before = waiting_below(waiters, (n - 1) as nat);
        if waiters.dom().contains(id) && waiters[id].handle is Some {
            before.insert(waiters[id].handle->0)
        } else {
            before
        }
    }
}

/// The coroutines of all waiters.
pub open spec fn waiting_in(waiters: WaiterMap) -> Multiset<Handle> {
    waiting_below(waiters, (usize::MAX + 1) as nat)
}

/// Where there are no more waiters there are no more coroutines.
proof fn lemma_waiting_below(waiters: WaiterMap, end: nat, n: nat)
    requires
        end <= n <= usize::MAX + 1,
        forall|id: usize| #[trigger] waiters.dom().contains(id) ==> id < end,
    ensures
        waiting_below(waiters, n) == waiting_below(waiters, end),
    decreases n,
{
    if n > end {
        lemma_waiting_below(waiters, end, (n - 1) as nat);
        assert(!waiters.dom().contains((n - 1) as usize));
    }
}

/// Where there are no waiters there are no coroutines.
pub proof fn lemma_nobody_waits(waiters: WaiterMap)
    requires
        waiters == Map::<usize, Waiter>::empty(),
    ensures
        waiting_in(waiters) == Multiset::<Handle>::empty(),
{
    lemma_waiting_below(waiters, 0, (usize::MAX + 1) as nat);
}

/// How often a coroutine waits, when one waiter changes.
proof fn lemma_one_changed(before: WaiterMap, after: WaiterMap, id: usize, n: nat, hdl: Handle)
    requires
        n <= usize::MAX + 1,
        after == before.insert(id, after[id]),
        before.dom().contains(id),
    ensures
        id < n ==> waiting_below(after, n).count(hdl) + just(before[id].handle).count(hdl)
            == waiting_below(before, n).count(hdl) + just(after[id].handle).count(hdl),
        id >= n ==> waiting_below(after, n).count(hdl) == waiting_below(before, n).count(hdl),
    decreases n,
{
    if n > 0 {
        lemma_one_changed(before, after, id, (n - 1) as nat, hdl);
        let last = (n - 1) as usize;
        if last != id {
            assert(after.dom().contains(last) == before.dom().contains(last));
            assert(before.dom().contains(last) ==> after[last] == before[last]);
        }
    }
}

/// When one waiter changes, only its coroutine comes or goes.
pub proof fn lemma_waiter_changed(before: WaiterMap, after: WaiterMap, id: usize)
    requires
        before.dom().contains(id),
        after == before.insert(id, after[id]),
    ensures
        waiting_in(after).add(just(before[id].handle)) == waiting_in(before).add(
            just(after[id].handle),
        ),
{
    let b = waiting_in(before).add(just(after[id].handle));
    let a = waiting_in(after).add(just(before[id].handle));
    assert forall|hdl: Handle| #[trigger] a.count(hdl) == b.count(hdl) by {
        lemma_one_changed(before, after, id, (usize::MAX + 1) as nat, hdl);
    }
    assert(a =~= b);
}

proof fn lemma_one_came(before: WaiterMap, after: WaiterMap, id: usize, n: nat)
    requires
        n <= usize::MAX + 1,
        after == before.insert(id, after[id]),
        !before.dom().contains(id),
    ensures
        waiting_below(after, n) == waiting_below(before, n).add(
            if id < n {
                just(after[id].handle)
            } else {
                Multiset::empty()
            },
        ),
    decreases n,
{
    if n > 0 {
        lemma_one_came(before, after, id, (n - 1) as nat);
        let last = (n - 1) as usize;
        let b = waiting_below(before, n);
        let a = waiting_below(after, n);
        if last == id {
            assert(a =~= b.add(just(after[id].handle)));
        } else {
            assert(after.dom().contains(last) == before.dom().contains(last));
            assert(before.dom().contains(last) ==> after[last] == before[last]);
            if id < n {
                assert(a =~= b.add(just(after[id].handle)));
            } else {
                assert(a =~= b.add(Multiset::empty()));
            }
        }
    } else {
        assert(waiting_below(after, n) =~= waiting_below(before, n).add(Multiset::empty()));
    }
}

/// When a waiter comes, its coroutine comes with it.
pub proof fn lemma_waiter_came(before: WaiterMap, after: WaiterMap, id: usize)
    requires
        !before.dom().contains(id),
        after == before.insert(id, after[id]),
    ensures
        waiting_in(after) == waiting_in(before).add(just(after[id].handle)),
{
    lemma_one_came(before, after, id, (usize::MAX + 1) as nat);
}

/// Waiters with the same coroutines, whatever else has changed.
proof fn lemma_same_handles(before: WaiterMap, after: WaiterMap, n: nat)
    requires
        n <= usize::MAX + 1,
        after.dom() == before.dom(),
        forall|id: usize| #[trigger]
            before.dom().contains(id) ==> after[id].handle == before[id].handle,
    ensures
        waiting_below(after, n) == waiting_below(before, n),
    decreases n,
{
    if n > 0 {
        lemma_same_handles(before, after, (n - 1) as nat);
        assert(before.dom().contains((n - 1) as usize) ==> after[(n - 1) as usize].handle
            == before[(n - 1) as usize].handle);
    }
}

/// The timeouts of the given waiters.
pub open spec fn timeouts_of(waiters: WaiterMap, ids: Seq<usize>) -> Seq<Timeout>
    decreases ids.len(),
{
    if ids.len() == 0 {
        Seq::empty()
    } else {
        let before = timeouts_of(waiters, ids.drop_last());
        match waiters[ids.last()].timeout {
            Some(timeout) => before.push(timeout),
            None => before,
        }
    }
}

/// What a waiter that was in the list is after it was notified and taken out.
pub open spec fn woken(waiter: Waiter) -> Waiter {
    Waiter { prev: None, next: None, ..waiter.notified(WaiterState::Succeeded) }
}

/// What a waiter that was in the list is after it was taken out without its timeout.
pub open spec fn forgotten(waiter: Waiter) -> Waiter {
    Waiter { prev: None, next: None, timeout: None, ..waiter }
}

/// The waiters while the first `n` of `ids` have been taken out of the list and changed to what
/// `f` says.
pub open spec fn taken_out(
    before: WaiterMap,
    after: WaiterMap,
    ids: Seq<usize>,
    n: int,
    f: spec_fn(Waiter) -> Waiter,
) -> bool {
    &&& after.dom() == before.dom()
    &&& forall|i: int| 0 <= i < n ==> #[trigger] after[ids[i]] == f(before[ids[i]])
    &&& 0 < n < ids.len() ==> after[ids[n]] == (Waiter { prev: None, ..before[ids[n]] })
    &&& n == 0 && ids.len() > 0 ==> after[ids[0]] == before[ids[0]]
    &&& forall|id: usize| #[trigger]
        before.dom().contains(id) && !(exists|i: int| 0 <= i <= n && i < ids.len() && ids[i] == id)
            ==> after[id] == before[id]
}

/// A condition variable.
pub struct Condvar {
    /// Those that wait.
    pub list: WaiterList,
    /// All waiters, whether in the list or not.
    pub waiters: Slots<Waiter>,
    /// The number of waits so far.
    pub token: usize,
    /// The number of notifications so far.
    pub notified: usize,
}

impl Condvar {
    /// The list is in order.
    pub open spec fn wf(&self) -> bool {
        self.list.wf(self.waiters@)
    }

    /// The waiters of the list from the first one on.
    pub open spec fn order(&self) -> Seq<usize> {
        self.list.order(self.waiters@)
    }

    /// Nobody waits.
    pub fn new() -> (condvar: Condvar)
        ensures
            condvar.wf(),
            condvar.waiters@ == Map::<usize, Waiter>::empty(),
            condvar.order() == Seq::<usize>::empty(),
            condvar.list == (WaiterList { head: None, tail: None }),
            condvar.token == 0,
            condvar.notified == 0,
    {
        let waiters = Slots::new();
        proof {
            reveal(WaiterList::no_loose_ends);
            reveal(linked);
            waiters.lemma_finite();
            assert(ranked(waiters@, Map::empty()));
            lemma_order_is(waiters@, None, Seq::empty());
        }
        Condvar { list: WaiterList { head: None, tail: None }, waiters, token: 0, notified: 0 }
    }

    /// The number of the next wait.
    fn alloc_token(&mut self) -> (token: usize)
        ensures
            token == old(self).token,
            *final(self) == (Condvar { token: old(self).token.wrapping_add(1), ..*old(self) }),
    {
        let token = self.token;
        self.token = token.wrapping_add(1);
        token
    }

    /// Whether the wait with this number was notified already.
    pub fn check_token(&self, token: usize) -> (notified: bool)
        ensures
            notified == (token < self.notified),
    {
        token < self.notified
    }

    fn notify_token(&mut self, count: usize)
        ensures
            *final(self) == (Condvar {
                notified: old(self).notified.wrapping_add(count),
                ..*old(self)
            }),
    {
        self.notified = self.notified.wrapping_add(count);
    }

    /// Begins a wait: it has a number unless it was notified already.
    pub fn begin_wait(&mut self) -> (token: Option<usize>)
        ensures
            *final(self) == (Condvar { token: old(self).token.wrapping_add(1), ..*old(self) }),
            token == (if old(self).token < old(self).notified {
                None
            } else {
                Some(old(self).token)
            }),
    {
        let token = self.alloc_token();
        if self.check_token(token) {
            None
        } else {
            Some(token)
        }
    }

    /// Puts a new waiter, still without a coroutine, at the back of the list.
    pub fn enlist(&mut self) -> (id: usize)
        requires
            old(self).wf(),
        ensures
            final(self).wf(),
            final(self).token == old(self).token,
            final(self).notified == old(self).notified,
            enlisted(*old(self), *final(self), id),
    {
        let id = self.waiters.insert(Waiter::new());
        let ghost all = self.waiters@;
        proof {
            self.waiters.lemma_finite();
            reveal(WaiterList::no_loose_ends);
            reveal(linked);
            let rank = choose|rank: Map<usize, int>| ranked(old(self).waiters@, rank);
            assert(ranked(all, rank));
            assert(self.list.wf(all));
            lemma_order(old(self).waiters@, old(self).list.head);
            let ids = old(self).order();
            assert forall|i: int| 0 <= i < ids.len() implies all.dom().contains(ids[i]) && (
            #[trigger] all[ids[i]]).next == follower(ids, i) by {
                assert(old(self).waiters@[ids[i]].next == follower(ids, i));
            }
            lemma_order_is(all, self.list.head, ids);
            self.list.pushed_waiter_comes_last(all, id);
        }
        self.list.push_back(&mut self.waiters, id);
        id
    }

    /// Leaves a coroutine with its waiter.
    pub fn try_wait(&mut self, id: usize, coro: Handle) -> (rejected: Option<Handle>)
        requires
            old(self).wf(),
            old(self).waiters@.dom().contains(id),
        ensures
            final(self).wf(),
            final(self).order() == old(self).order(),
            same_but_waiters(*old(self), *final(self)),
            ({
                let waiter = old(self).waiters@[id];
                if waiter.state == WaiterState::Empty {
                    &&& rejected is None
                    &&& final(self).waiters@ == old(self).waiters@.insert(
                        id,
                        Waiter { handle: Some(coro), ..waiter },
                    )
                } else {
                    &&& rejected == Some(coro)
                    &&& final(self).waiters@ == old(self).waiters@
                }
            }),
    {
        let rejected = self.waiters.get_mut(id).try_wait(coro);
        proof {
            assert(old(self).waiters@.insert(id, old(self).waiters@[id]) =~= old(self).waiters@);
            lemma_same_links(old(self).list, old(self).waiters@, self.waiters@);
        }
        rejected
    }

    /// Sets the timeout of a waiter.
    pub fn set_timeout(&mut self, id: usize, timeout: Timeout)
        requires
            old(self).wf(),
            old(self).waiters@.dom().contains(id),
        ensures
            final(self).wf(),
            final(self).order() == old(self).order(),
            same_but_waiters(*old(self), *final(self)),
            final(self).waiters@ == old(self).waiters@.insert(
                id,
                Waiter { timeout: Some(timeout), ..old(self).waiters@[id] },
            ),
    {
        self.waiters.get_mut(id).set_timeout(timeout);
        proof {
            lemma_same_links(old(self).list, old(self).waiters@, self.waiters@);
        }
    }

    /// The time of a waiter has run out. Its coroutine comes back, to be made ready.
    pub fn expire(&mut self, id: usize) -> (hdl: Option<Handle>)
        requires
            old(self).wf(),
            old(self).waiters@.dom().contains(id),
        ensures
            final(self).wf(),
            final(self).order() == old(self).order(),
            same_but_waiters(*old(self), *final(self)),
            hdl == old(self).waiters@[id].handle,
            final(self).waiters@ == old(self).waiters@.insert(
                id,
                old(self).waiters@[id].notified(WaiterState::Timeout),
            ),
    {
        let hdl = self.waiters.get_mut(id).notify(WaiterState::Timeout);
        proof {
            lemma_same_links(old(self).list, old(self).waiters@, self.waiters@);
        }
        hdl
    }

    /// Parks a coroutine for the wait with this number. If there was a notification meanwhile it
    /// comes back, to be made ready.
    pub fn park(&mut self, token: usize, coro: Handle) -> (parked: Result<usize, Handle>)
        requires
            old(self).wf(),
        ensures
            final(self).wf(),
            final(self).token == old(self).token,
            final(self).notified == old(self).notified,
            match parked {
                Err(hdl) => {
                    &&& token < old(self).notified
                    &&& hdl == coro
                    &&& *final(self) == *old(self)
                },
                Ok(id) => {
                    &&& token >= old(self).notified
                    &&& waits(*old(self), *final(self), id, coro)
                },
            },
    {
        if self.check_token(token) {
            return Err(coro);
        }
        let id = self.enlist();
        let ghost middle = *self;
        let _ = self.try_wait(id, coro);
        proof {
            assert(waits_after(*old(self), middle, *self, id, coro));
        }
        Ok(id)
    }

    /// The running coroutine waits for a notification, unless there was one for it already. The
    /// number is that of its waiter.
    pub fn wait(&mut self, p: &mut Processor) -> (waiter: Option<usize>)
        requires
            old(self).wf(),
            old(p).current_coro is Some,
        ensures
            final(self).wf(),
            final(p).same_but_current(*old(p)),
            waited(*old(self), *final(self), *old(p), *final(p), waiter),
    {
        match self.begin_wait() {
            None => None,
            Some(token) => {
                let coro = p.park();
                let ghost begun = *self;
                match self.park(token, coro) {
                    Ok(id) => {
                        proof {
                            let middle = choose|middle: Condvar| #[trigger]
                                waits_after(begun, middle, *self, id, coro);
                            assert(waits_after(*old(self), middle, *self, id, coro));
                        }
                        Some(id)
                    },
                    Err(_) => None,
                }
            },
        }
    }

    /// The running coroutine waits for a notification, but not longer than `delay` milliseconds
    /// from now on. In the timer, the waiter stands for one that waits for this on the object
    /// with these states.
    pub fn wait_timeout(
        &mut self,
        ready_type: ReadyType,
        delay: u64,
        key: usize,
        timer: &mut Timer<TimerWaitType>,
        p: &mut Processor,
    ) -> (waiter: Option<usize>)
        requires
            old(self).wf(),
            old(timer).wf(),
            old(timer).spec_next_number() < u64::MAX,
            old(p).current_coro is Some,
        ensures
            final(self).wf(),
            final(timer).wf(),
            final(p).same_but_current(*old(p)),
            exists|now: LocalTime|
                now.on_clock() && #[trigger] waited_timeout(
                    *old(self),
                    *final(self),
                    *old(timer),
                    *final(timer),
                    *old(p),
                    *final(p),
                    ready_type,
                    key,
                    now,
                    delay,
                    waiter,
                ),
    {
        let now = local_now();
        self.wait_timeout_from(ready_type, now, delay, key, timer, p)
    }

    /// The running coroutine waits for a notification, but not longer than `delay` milliseconds
    /// after `now`.
    pub fn wait_timeout_from(
        &mut self,
        ready_type: ReadyType,
        now: LocalTime,
        delay: u64,
        key: usize,
        timer: &mut Timer<TimerWaitType>,
        p: &mut Processor,
    ) -> (waiter: Option<usize>)
        requires
            old(self).wf(),
            old(timer).wf(),
            old(timer).spec_next_number() < u64::MAX,
            old(p).current_coro is Some,
            now.on_clock(),
        ensures
            final(self).wf(),
            final(timer).wf(),
            final(p).same_but_current(*old(p)),
            waited_timeout(
                *old(self),
                *final(self),
                *old(timer),
                *final(timer),
                *old(p),
                *final(p),
                ready_type,
                key,
                now,
                delay,
                waiter,
            ),
    {
        match self.begin_wait() {
            None => None,
            Some(_) => {
                let coro = p.park();
                let id = self.enlist();
                let ghost middle = *self;
                let timeout = timer.timeout_ms_from(
                    now,
                    TimerWaitType::Waiter { states: key, ready_type, waiter: id },
                    delay,
                );
                self.set_timeout(id, timeout);
                let _ = self.try_wait(id, coro);
                proof {
                    assert(self.waiters@ =~= middle.waiters@.insert(
                        id,
                        Waiter {
                            handle: Some(coro),
                            timeout: Some(timeout),
                            ..middle.waiters@[id]
                        },
                    ));
                    assert(waits_timeout_after(*old(self), middle, *self, id, coro, timeout));
                }
                Some(id)
            },
        }
    }

    /// The last step of a wait without a timeout: the waiter is dropped.
    pub fn end_wait(&mut self, id: usize)
        requires
            old(self).wf(),
            old(self).waiters@.dom().contains(id),
            old(self).waiters@[id].prev is None,
            old(self).waiters@[id].next is None,
            old(self).list.head != Some(id),
            old(self).list.tail != Some(id),
        ensures
            final(self).wf(),
            same_but_waiters(*old(self), *final(self)),
            final(self).waiters@ == old(self).waiters@.remove(id),
            final(self).order() == old(self).order(),
    {
        let _ = self.waiters.remove(id);
        proof {
            reveal(WaiterList::no_loose_ends);
            reveal(linked);
            self.waiters.lemma_finite();
            let before = old(self).waiters@;
            let after = self.waiters@;
            let rank = choose|rank: Map<usize, int>| ranked(before, rank);
            assert(ranked(after, rank));
            assert forall|other: usize| #[trigger] after.dom().contains(other) implies (
            after[other].next matches Some(n) ==> after.dom().contains(n) && after[n].prev == Some(
                other,
            )) by {
                assert(before.dom().contains(other));
            }
            assert forall|other: usize| #[trigger] after.dom().contains(other) implies (
            after[other].prev matches Some(p) ==> after.dom().contains(p) && after[p].next == Some(
                other,
            )) by {
                assert(before.dom().contains(other));
            }
            let ids = old(self).order();
            lemma_order(before, old(self).list.head);
            assert forall|i: int| 0 <= i < ids.len() implies after.dom().contains(ids[i]) && (
            #[trigger] after[ids[i]]).next == follower(ids, i) by {
                assert(before[ids[i]].next == follower(ids, i));
                if i > 0 {
                    assert(before[ids[i]].prev == Some(ids[i - 1]));
                }
            }
            lemma_order_is(after, self.list.head, ids);
        }
    }

    /// The last step of a wait with a timeout: the waiter is taken out of the list and dropped.
    /// The outcome is a timeout if its time had run out. If not, the timeout has to be
    /// cancelled.
    pub fn end_wait_timeout(&mut self, id: usize) -> (outcome: (
        Result<(), WaitTimeoutResult>,
        Option<Timeout>,
    ))
        requires
            old(self).wf(),
            old(self).waiters@.dom().contains(id),
            old(self).waiters@[id].state == WaiterState::Succeeded || old(self).waiters@[id].state
                == WaiterState::Timeout,
        ensures
            final(self).wf(),
            final(self).token == old(self).token,
            final(self).notified == old(self).notified,
            final(self).list == old(self).list.removed(old(self).waiters@, id),
            final(self).waiters@ == old(self).list.waiters_removed(old(self).waiters@, id).remove(
                id,
            ),
            forall|k: int|
                0 <= k < old(self).order().len() && #[trigger] old(self).order()[k] == id
                    ==> final(self).order() == old(self).order().remove(k),
            !old(self).list.holds(old(self).waiters@, id) ==> final(self).order()
                == old(self).order(),
            match outcome.0 {
                Ok(_) => {
                    &&& old(self).waiters@[id].state == WaiterState::Succeeded
                    &&& outcome.1 == old(self).waiters@[id].timeout
                },
                Err(result) => {
                    &&& old(self).waiters@[id].state == WaiterState::Timeout
                    &&& result.spec_timed_out()
                    &&& outcome.1 is None
                },
            },
    {
        proof {
            let list = self.list;
            let before = self.waiters@;
            assert forall|k: int|
                0 <= k < list.order(before).len() && #[trigger] list.order(before)[k] == id implies list.removed(
                before,
                id,
            ).order(list.waiters_removed(before, id)) == list.order(before).remove(k) by {
                list.removed_waiter_is_missing(before, k);
            }
            if !list.holds(before, id) {
                list.removing_a_popped_waiter_changes_nothing(before, id);
            }
        }
        self.list.remove(&mut self.waiters, id);
        let state = self.waiters.get(id).state();
        let timeout = self.waiters.get_mut(id).take_timeout();
        let ghost middle = self.waiters@;
        proof {
            lemma_same_links(
                self.list,
                old(self).list.waiters_removed(old(self).waiters@, id),
                middle,
            );
        }
        self.end_wait(id);
        proof {
            assert(self.waiters@ =~= old(self).list.waiters_removed(
                old(self).waiters@,
                id,
            ).remove(id));
        }
        match state {
            WaiterState::Succeeded => (Ok(()), timeout),
            _ => (Err(WaitTimeoutResult(true)), None),
        }
    }

    /// Wakes up the waiter that has waited longest.
    pub fn notify_one(&mut self, hdl_list: &mut HandleList)
        requires
            old(self).wf(),
        ensures
            final(self).wf(),
            notified_one(*old(self), *final(self), old(hdl_list)@, final(hdl_list)@),
    {
        proof {
            self.list.popped_waiter_was_first(self.waiters@);
            lemma_order(self.waiters@, self.list.head);
        }
        let first = self.list.pop_front(&mut self.waiters);
        if let Some(id) = first {
            let ghost popped = self.waiters@;
            let hdl = self.waiters.get_mut(id).notify(WaiterState::Succeeded);
            proof {
                lemma_same_links(self.list, popped, self.waiters@);
                reveal_with_fuel(handles_of, 2);
                assert(seq![id].drop_last() =~= Seq::<usize>::empty());
            }
            if let Some(hdl) = hdl {
                hdl_list.push_back(hdl);
            }
            proof {
                assert(hdl_list@ =~= old(hdl_list)@ + handles_of(old(self).waiters@, seq![id]));
            }
        }
        self.notify_token(1);
    }

    /// Wakes up everyone in the list. This counts as a notification even if there is nobody.
    pub fn notify_all(&mut self, hdl_list: &mut HandleList)
        requires
            old(self).wf(),
        ensures
            final(self).wf(),
            notified_all(*old(self), *final(self), old(hdl_list)@, final(hdl_list)@),
    {
        let mut lst = WaiterList { head: self.list.head, tail: self.list.tail };
        self.list = WaiterList { head: None, tail: None };
        let mut count: usize = 0;
        let ghost before = self.waiters@;
        let ghost ids = lst.order(before);
        proof {
            self.waiters.lemma_finite();
            lemma_order(before, lst.head);
            lemma_order_fits(before, lst.head);
            assert(ids.skip(0) =~= ids);
            assert(ids.take(0) =~= Seq::<usize>::empty());
        }
        loop
            invariant
                self.list == (WaiterList { head: None, tail: None }),
                self.token == old(self).token,
                self.notified == old(self).notified,
                lst.wf(self.waiters@),
                ids.no_duplicates(),
                ids.len() <= usize::MAX,
                chain(before, follower(ids, -1), ids),
                count <= ids.len(),
                lst.order(self.waiters@) == ids.skip(count as int),
                hdl_list@ == old(hdl_list)@ + handles_of(before, ids.take(count as int)),
                taken_out(before, self.waiters@, ids, count as int, |w: Waiter| woken(w)),
            ensures
                count == ids.len(),
                lst.head is None,
            decreases ids.len() - count,
        {
            let ghost middle = self.waiters@;
            let ghost rest = ids.skip(count as int);
            proof {
                lst.popped_waiter_was_first(middle);
                lemma_order(middle, lst.head);
            }
            match lst.pop_front(&mut self.waiters) {
                Some(id) => {
                    let ghost popped = self.waiters@;
                    let hdl = self.waiters.get_mut(id).notify(WaiterState::Succeeded);
                    proof {
                        let n = count as int;
                        assert(id == rest[0] && id == ids[n]);
                        lemma_same_links(lst, popped, self.waiters@);
                        assert(rest.drop_first() =~= ids.skip(n + 1));
                        assert(ids.take(n + 1).drop_last() =~= ids.take(n));
                        assert(middle[rest[0]].next == follower(rest, 0));
                        assert(follower(rest, 0) == follower(ids, n));
                        lemma_taken_out_step(
                            before,
                            middle,
                            self.waiters@,
                            ids,
                            n,
                            |w: Waiter| woken(w),
                        );
                    }
                    if let Some(hdl) = hdl {
                        hdl_list.push_back(hdl);
                    }
                    count = count + 1;
                    proof {
                        assert(hdl_list@ =~= old(hdl_list)@ + handles_of(
                            before,
                            ids.take(count as int),
                        ));
                    }
                },
                None => {
                    break;
                },
            }
        }
        proof {
            reveal(WaiterList::no_loose_ends);
            assert(ids.take(ids.len() as int) =~= ids);
        }
        self.notify_token(
            if count > 1 {
                count
            } else {
                1
            },
        );
    }

    /// Moves the coroutines of all waiters to the back of a vector. None of them is notified.
    pub fn into_handles(self, pending: &mut Vec<Handle>)
        ensures
            final(pending)@.to_multiset() == old(pending)@.to_multiset().add(
                waiting_in(self.waiters@),
            ),
    {
        let ghost before = self.waiters@;
        let mut waiters = self.waiters;
        let end = waiters.end();
        let mut id: usize = 0;
        while id < end
            invariant
                id <= end,
                forall|key: usize| #[trigger] before.dom().contains(key) ==> key < end,
                waiters@.dom() == before.dom(),
                forall|key: usize| #[trigger]
                    before.dom().contains(key) && key >= id ==> waiters@[key] == before[key],
                pending@.to_multiset() == old(pending)@.to_multiset().add(
                    waiting_below(before, id as nat),
                ),
            decreases end - id,
        {
            if waiters.contains(id) {
                let hdl = waiters.get_mut(id).handle.take();
                if let Some(hdl) = hdl {
                    let ghost had = pending@;
                    pending.push(hdl);
                    proof {
                        broadcast use vstd::seq_lib::group_to_multiset_ensures;

                        assert(pending@.to_multiset() =~= had.to_multiset().insert(hdl));
                    }
                }
            }
            id = id + 1;
            proof {
                assert(waiters@.dom() =~= before.dom());
                assert((id as nat - 1) as usize == id - 1);
                assert(pending@.to_multiset() =~= old(pending)@.to_multiset().add(
                    waiting_below(before, id as nat),
                ));
            }
        }
        proof {
            lemma_waiting_below(before, end as nat, (usize::MAX + 1) as nat);
        }
    }

    /// Takes everyone out of the list before the condition variable is dropped. Their timeouts
    /// have to be cancelled.
    pub fn close(&mut self) -> (timeouts: Vec<Timeout>)
        requires
            old(self).wf(),
        ensures
            final(self).wf(),
            final(self).token == old(self).token,
            final(self).notified == old(self).notified,
            final(self).list.head is None,
            ({
                let ids = old(self).order();
                &&& timeouts@ == timeouts_of(old(self).waiters@, ids)
                &&& taken_out(
                    old(self).waiters@,
                    final(self).waiters@,
                    ids,
                    ids.len() as int,
                    |w: Waiter| forgotten(w),
                )
            }),
    {
        let mut timeouts: Vec<Timeout> = Vec::new();
        let ghost before = self.waiters@;
        let ghost ids = self.order();
        let ghost mut n: int = 0;
        proof {
            lemma_order(before, self.list.head);
            assert(ids.skip(0) =~= ids);
            assert(ids.take(0) =~= Seq::<usize>::empty());
        }
        loop
            invariant
                self.token == old(self).token,
                self.notified == old(self).notified,
                self.wf(),
                ids.no_duplicates(),
                chain(before, follower(ids, -1), ids),
                0 <= n <= ids.len(),
                self.order() == ids.skip(n),
                timeouts@ == timeouts_of(before, ids.take(n)),
                taken_out(before, self.waiters@, ids, n, |w: Waiter| forgotten(w)),
            ensures
                n == ids.len(),
                self.list.head is None,
            decreases ids.len() - n,
        {
            let ghost middle = self.waiters@;
            let ghost rest = ids.skip(n);
            proof {
                self.list.popped_waiter_was_first(middle);
                lemma_order(middle, self.list.head);
            }
            match self.list.pop_front(&mut self.waiters) {
                Some(id) => {
                    let ghost popped = self.waiters@;
                    let timeout = self.waiters.get_mut(id).take_timeout();
                    proof {
                        assert(id == rest[0] && id == ids[n]);
                        lemma_same_links(self.list, popped, self.waiters@);
                        assert(rest.drop_first() =~= ids.skip(n + 1));
                        assert(ids.take(n + 1).drop_last() =~= ids.take(n));
                        assert(middle[rest[0]].next == follower(rest, 0));
                        assert(follower(rest, 0) == follower(ids, n));
                        lemma_taken_out_step(
                            before,
                            middle,
                            self.waiters@,
                            ids,
                            n,
                            |w: Waiter| forgotten(w),
                        );
                        n = n + 1;
                    }
                    if let Some(timeout) = timeout {
                        timeouts.push(timeout);
                    }
                },
                None => {
                    break;
                },
            }
        }
        proof {
            assert(ids.take(ids.len() as int) =~= ids);
        }
        timeouts
    }
}

/// There are no more waiters in a list than there are waiters.
proof fn lemma_order_fits(waiters: WaiterMap, start: Option<usize>)
    requires
        linked(waiters),
        waiters.dom().finite(),
        start matches Some(h) ==> waiters.dom().contains(h) && waiters[h].prev is None,
    ensures
        order_from(waiters, start).len() <= waiters.dom().len(),
{
    let ids = order_from(waiters, start);
    lemma_order(waiters, start);
    ids.unique_seq_to_set();
    assert forall|id: usize| ids.to_set().contains(id) implies waiters.dom().contains(id) by {
        let i = choose|i: int| 0 <= i < ids.len() && ids[i] == id;
        assert(waiters[ids[i]].next == follower(ids, i));
    }
    vstd::set_lib::lemma_len_subset(ids.to_set(), waiters.dom());
}

/// One more waiter was taken out of the list and changed.
proof fn lemma_taken_out_step(
    before: WaiterMap,
    middle: WaiterMap,
    after: WaiterMap,
    ids: Seq<usize>,
    n: int,
    f: spec_fn(Waiter) -> Waiter,
)
    requires
        0 <= n < ids.len(),
        ids.no_duplicates(),
        chain(before, follower(ids, -1), ids),
        taken_out(before, middle, ids, n, f),
        after.dom() =~= middle.dom(),
        forall|id: usize| #[trigger]
            after.dom().contains(id) && id != ids[n] && follower(ids, n) != Some(id) ==> after[id]
                == middle[id],
        n + 1 < ids.len() ==> after[ids[n + 1]] == (Waiter { prev: None, ..middle[ids[n + 1]] }),
        after[ids[n]] == f(before[ids[n]]),
    ensures
        taken_out(before, after, ids, n + 1, f),
{
    assert forall|i: int| 0 <= i < n + 1 implies #[trigger] after[ids[i]] == f(before[ids[i]]) by {
        assert(before[ids[i]].next == follower(ids, i));
        if i < n {
            assert(middle[ids[i]] == f(before[ids[i]]));
            assert(ids[i] != ids[n]);
            if n + 1 < ids.len() {
                assert(ids[i] != ids[n + 1]);
            }
            assert(after.dom().contains(ids[i]));
        }
    }
    if n + 1 < ids.len() {
        assert(before[ids[n + 1]].next == follower(ids, n + 1));
        let second = ids[n + 1];
        assert(!(exists|i: int| 0 <= i <= n && i < ids.len() && ids[i] == second));
        assert(before.dom().contains(second));
        assert(middle[ids[n + 1]] == before[ids[n + 1]]);
    }
    assert forall|id: usize| #[trigger]
        before.dom().contains(id) && !(exists|i: int|
            0 <= i <= n + 1 && i < ids.len() && ids[i] == id) implies after[id] == before[id] by {
        if follower(ids, n) == Some(id) {
            assert(ids[n + 1] == id);
        }
        assert(ids[n] != id);
        assert(!(exists|i: int| 0 <= i <= n && i < ids.len() && ids[i] == id));
        assert(after.dom().contains(id));
    }
}

/// The waiter that has waited longest was taken out of the list and notified, and its coroutine
/// went to the back of the handles.
pub open spec fn notified_one(
    before: Condvar,
    after: Condvar,
    handles_before: Seq<Handle>,
    handles_after: Seq<Handle>,
) -> bool {
    let ids = before.order();
    let popped = before.list.waiters_popped(before.waiters@);
    &&& after.token == before.token
    &&& after.notified == before.notified.wrapping_add(1)
    &&& after.list == before.list.popped(before.waiters@)
    &&& if ids.len() == 0 {
        &&& after.order() == ids
        &&& after.waiters@ == popped
        &&& handles_after == handles_before
    } else {
        &&& after.order() == ids.drop_first()
        &&& after.waiters@ == popped.insert(
            ids[0],
            popped[ids[0]].notified(WaiterState::Succeeded),
        )
        &&& handles_after == handles_before + handles_of(before.waiters@, seq![ids[0]])
    }
}

/// Everyone was taken out of the list and notified, and their coroutines went to the back of the
/// handles, in the order in which they had begun to wait.
pub open spec fn notified_all(
    before: Condvar,
    after: Condvar,
    handles_before: Seq<Handle>,
    handles_after: Seq<Handle>,
) -> bool {
    let ids = before.order();
    &&& after.token == before.token
    &&& after.notified == before.notified.wrapping_add(times_notified(before) as usize)
    &&& after.list == (WaiterList { head: None, tail: None })
    &&& handles_after == handles_before + handles_of(before.waiters@, ids)
    &&& taken_out(
        before.waiters@,
        after.waiters@,
        ids,
        ids.len() as int,
        |w: Waiter| woken(w),
    )
}

/// For how many notifications one of everyone counts: one for each that waits, and one if nobody
/// does.
pub open spec fn times_notified(condvar: Condvar) -> nat {
    if condvar.order().len() > 1 {
        condvar.order().len()
    } else {
        1
    }
}

/// What a condition variable and the handles were at first and after each notification of one.
pub open spec fn notified_one_by_one(condvars: Seq<Condvar>, handles: Seq<Seq<Handle>>) -> bool {
    &&& condvars.len() > 0
    &&& handles.len() == condvars.len()
    &&& forall|i: int| 0 <= i < condvars.len() ==> (#[trigger] condvars[i]).wf()
    &&& forall|i: int|
        0 <= i < condvars.len() - 1 ==> notified_one(
            #[trigger] condvars[i],
            condvars[i + 1],
            handles[i],
            handles[i + 1],
        )
}

/// The first `n` waiters of the list were taken out and notified, and their coroutines went to the
/// back of the handles.
spec fn notified_first(
    before: Condvar,
    after: Condvar,
    handles_before: Seq<Handle>,
    handles_after: Seq<Handle>,
    n: int,
) -> bool {
    let ids = before.order();
    &&& after.token == before.token
    &&& after.notified == before.notified.wrapping_add(n as usize)
    &&& after.order() == ids.skip(n)
    &&& handles_after == handles_before + handles_of(before.waiters@, ids.take(n))
    &&& taken_out(before.waiters@, after.waiters@, ids, n, |w: Waiter| woken(w))
}

/// One more waiter was taken out and notified.
proof fn lemma_notified_one_more(
    before: Condvar,
    middle: Condvar,
    after: Condvar,
    handles_before: Seq<Handle>,
    handles_middle: Seq<Handle>,
    handles_after: Seq<Handle>,
    m: int,
)
    requires
        before.wf(),
        middle.wf(),
        0 <= m < before.order().len() <= usize::MAX,
        notified_first(before, middle, handles_before, handles_middle, m),
        notified_one(middle, after, handles_middle, handles_after),
    ensures
        notified_first(before, after, handles_before, handles_after, m + 1),
{
    lemma_order(before.waiters@, before.list.head);
    lemma_order(middle.waiters@, middle.list.head);
    lemma_notified_step(
        before,
        middle,
        after,
        handles_before,
        handles_middle,
        handles_after,
        m,
    );
}

#[verifier::spinoff_prover]
proof fn lemma_notified_step(
    before: Condvar,
    middle: Condvar,
    after: Condvar,
    handles_before: Seq<Handle>,
    handles_middle: Seq<Handle>,
    handles_after: Seq<Handle>,
    m: int,
)
    requires
        chain(before.waiters@, before.list.head, before.order()),
        before.order().no_duplicates(),
        before.waiters@[before.order()[0]].prev is None,
        chain(middle.waiters@, middle.list.head, middle.order()),
        0 <= m < before.order().len() <= usize::MAX,
        notified_first(before, middle, handles_before, handles_middle, m),
        notified_one(middle, after, handles_middle, handles_after),
    ensures
        notified_first(before, after, handles_before, handles_after, m + 1),
{
    let ids = before.order();
    let rest = ids.skip(m);
    assert(rest[0] == ids[m]);
    assert(rest.drop_first() =~= ids.skip(m + 1));
    assert(middle.waiters@[rest[0]].next == follower(rest, 0));
    assert(follower(rest, 0) == follower(ids, m));
    assert(middle.list.head == follower(rest, -1));
    assert(before.waiters@[ids[m]].next == follower(ids, m));
    assert(taken_out(
        before.waiters@,
        after.waiters@,
        ids,
        m + 1,
        |w: Waiter| woken(w),
    )) by {
        if m + 1 < ids.len() {
            assert(middle.waiters@[rest[1]].next == follower(rest, 1));
            assert(rest[1] == ids[m + 1]);
        }
        assert(after.waiters@.dom() =~= middle.waiters@.dom());
        lemma_taken_out_step(
            before.waiters@,
            middle.waiters@,
            after.waiters@,
            ids,
            m,
            |w: Waiter| woken(w),
        );
    }
    assert(handles_after == handles_before + handles_of(before.waiters@, ids.take(m + 1))) by {
        assert(middle.waiters@[ids[m]].handle == before.waiters@[ids[m]].handle);
        assert(ids.take(m + 1).drop_last() =~= ids.take(m));
        assert(seq![rest[0]].drop_last() =~= Seq::<usize>::empty());
        assert(handles_of(middle.waiters@, Seq::<usize>::empty()) =~= Seq::<Handle>::empty());
        assert(handles_after =~= handles_before + handles_of(before.waiters@, ids.take(m + 1)));
    }
}

/// Some notifications of one take out as many waiters, those that have waited longest.
proof fn lemma_notified_one_by_one(condvars: Seq<Condvar>, handles: Seq<Seq<Handle>>, n: int)
    requires
        notified_one_by_one(condvars, handles),
        0 <= n < condvars.len(),
        n <= condvars[0].order().len() <= usize::MAX,
    ensures
        notified_first(condvars[0], condvars[n], handles[0], handles[n], n),
    decreases n,
{
    let before = condvars[0];
    let ids = before.order();
    assert(before.wf());
    if n == 0 {
        assert(ids.skip(0) =~= ids);
        assert(ids.take(0) =~= Seq::<usize>::empty());
        assert(handles[0] =~= handles[0] + handles_of(before.waiters@, ids.take(0)));
    } else {
        let m = n - 1;
        lemma_notified_one_by_one(condvars, handles, m);
        assert(condvars[m].wf());
        assert(notified_one(condvars[m], condvars[m + 1], handles[m], handles[m + 1]));
        lemma_notified_one_more(
            before,
            condvars[m],
            condvars[n],
            handles[0],
            handles[m],
            handles[n],
            m,
        );
    }
}

/// Notifying everyone does what notifying one does when it is done once for each that waits, or
/// once if nobody does: the same handles in the same order, and the same condition variable.
pub proof fn notifying_all_is_notifying_one_by_one(
    condvars: Seq<Condvar>,
    handles: Seq<Seq<Handle>>,
    after: Condvar,
    handles_after: Seq<Handle>,
)
    requires
        notified_one_by_one(condvars, handles),
        condvars.len() == times_notified(condvars[0]) + 1,
        notified_all(condvars[0], after, handles[0], handles_after),
    ensures
        condvars.last().token == after.token,
        condvars.last().notified == after.notified,
        condvars.last().list == after.list,
        condvars.last().waiters@ == after.waiters@,
        condvars.last().order() == Seq::<usize>::empty(),
        handles.last() == handles_after,
{
    let before = condvars[0];
    let ids = before.order();
    let last = condvars.last();
    assert(before.wf());
    lemma_order(before.waiters@, before.list.head);
    lemma_order_fits(before.waiters@, before.list.head);
    before.waiters.lemma_finite();
    if ids.len() == 0 {
        assert(notified_one(condvars[0], condvars[1], handles[0], handles[1]));
        assert(handles_of(before.waiters@, ids) =~= Seq::<Handle>::empty());
        assert(handles_after =~= handles[0]);
        before.list.lemma_tail_is_last(before.waiters@);
        assert(after.waiters@ =~= before.waiters@);
        assert(last.order() =~= Seq::<usize>::empty());
    } else {
        let n = ids.len() as int;
        lemma_notified_one_by_one(condvars, handles, n);
        assert(last == condvars[n]);
        assert(ids.take(n) =~= ids);
        assert(ids.skip(n) =~= Seq::<usize>::empty());
        assert(last.wf());
        lemma_order(last.waiters@, last.list.head);
        assert(last.list.head is None);
        assert forall|id: usize| #[trigger] before.waiters@.dom().contains(id) implies last.waiters@[id]
            == after.waiters@[id] by {
            if exists|i: int| 0 <= i <= n && i < ids.len() && ids[i] == id {
                let i = choose|i: int| 0 <= i <= n && i < ids.len() && ids[i] == id;
                assert(last.waiters@[ids[i]] == woken(before.waiters@[ids[i]]));
                assert(after.waiters@[ids[i]] == woken(before.waiters@[ids[i]]));
            }
        }
        assert(last.waiters@ =~= after.waiters@);
    }
}

/// A waiter after others came or went: it still waits with its timeout, and was not told that
/// its time ran out.
pub open spec fn kept(before: Waiter, after: Waiter) -> bool {
    &&& after.timeout == before.timeout
    &&& after.state == before.state || (before.state == WaiterState::Empty && after.state
        == WaiterState::Succeeded)
    &&& after.handle == before.handle || after.handle is None
}

/// A notification leaves every waiter where it is, and only hands out coroutines of waiters.
pub proof fn notifying_keeps_waiters(
    before: Condvar,
    after: Condvar,
    handles_before: Seq<Handle>,
    handles_after: Seq<Handle>,
)
    requires
        before.wf(),
        notified_one(before, after, handles_before, handles_after),
    ensures
        after.waiters@.dom() == before.waiters@.dom(),
        forall|id: usize| #[trigger]
            before.waiters@.dom().contains(id) ==> kept(before.waiters@[id], after.waiters@[id]),
        handles_after == handles_before || exists|id: usize|
            #![trigger before.waiters@.dom().contains(id)]
            before.waiters@.dom().contains(id) && before.waiters@[id].handle is Some
                && handles_after == handles_before.push(before.waiters@[id].handle->0),
{
    let ids = before.order();
    before.list.popped_waiter_was_first(before.waiters@);
    lemma_order(before.waiters@, before.list.head);
    assert(after.waiters@.dom() =~= before.waiters@.dom());
    if ids.len() > 0 {
        let id = ids[0];
        reveal_with_fuel(handles_of, 2);
        assert(seq![id].drop_last() =~= Seq::<usize>::empty());
        assert(before.waiters@[ids[0]].next == follower(ids, 0));
        assert(before.waiters@.dom().contains(id));
        let handles = handles_of(before.waiters@, seq![id]);
        match before.waiters@[id].handle {
            Some(hdl) => {
                assert(handles =~= seq![hdl]);
                assert(handles_before + handles =~= handles_before.push(hdl));
            },
            None => {
                assert(handles =~= Seq::<Handle>::empty());
                assert(handles_before + handles =~= handles_before);
            },
        }
    }
}

/// A notification is for the one that has waited longest, the first of the list: it is taken out,
/// told that it was notified, and its coroutine goes to the back of the handles. The one behind it
/// is the first one then. Nobody else notices anything. If nobody waits, nobody is told; either
/// way, the notification is counted.
pub proof fn notification_wakes_the_longest_waiting(
    before: Condvar,
    after: Condvar,
    handles_before: Seq<Handle>,
    handles_after: Seq<Handle>,
)
    requires
        before.wf(),
        notified_one(before, after, handles_before, handles_after),
    ensures
        after.token == before.token,
        after.notified == (if before.notified == usize::MAX {
            0
        } else {
            before.notified + 1
        }),
        after.waiters@.dom() == before.waiters@.dom(),
        match before.list.head {
            None => {
                &&& after.list == before.list
                &&& after.waiters@ == before.waiters@
                &&& handles_after == handles_before
            },
            Some(first) => {
                let woken = before.waiters@[first];
                &&& before.waiters@.dom().contains(first)
                &&& after.list.head == woken.next
                &&& before.order() == seq![first] + after.order()
                &&& after.waiters@[first].handle is None
                &&& after.waiters@[first].timeout == woken.timeout
                &&& after.waiters@[first].state == (if woken.state == WaiterState::Empty {
                    WaiterState::Succeeded
                } else {
                    woken.state
                })
                &&& woken.handle matches Some(hdl) ==> handles_after == handles_before.push(hdl)
                &&& woken.handle is None ==> handles_after == handles_before
                &&& forall|other: usize| #[trigger]
                    before.waiters@.dom().contains(other) && other != first ==> {
                        &&& after.waiters@[other].handle == before.waiters@[other].handle
                        &&& after.waiters@[other].state == before.waiters@[other].state
                        &&& after.waiters@[other].timeout == before.waiters@[other].timeout
                    }
            },
        },
{
    let ids = before.order();
    notifying_keeps_waiters(before, after, handles_before, handles_after);
    before.list.popped_waiter_was_first(before.waiters@);
    lemma_order(before.waiters@, before.list.head);
    if before.list.head is Some {
        let first = before.list.head->0;
        assert(ids.len() > 0 && ids[0] == first);
        reveal_with_fuel(handles_of, 2);
        assert(seq![first].drop_last() =~= Seq::<usize>::empty());
        assert(seq![first] + after.order() =~= ids);
        match before.waiters@[first].handle {
            Some(hdl) => {
                assert(handles_of(before.waiters@, seq![first]) =~= seq![hdl]);
                assert(handles_before + seq![hdl] =~= handles_before.push(hdl));
            },
            None => {
                assert(handles_before + Seq::<Handle>::empty() =~= handles_before);
            },
        }
    }
}

/// Whoever is notified is not lost: the coroutines that wait and those that were woken up are the
/// same ones before and after a notification.
pub proof fn notification_loses_no_coroutine(
    before: Condvar,
    after: Condvar,
    handles_before: Seq<Handle>,
    handles_after: Seq<Handle>,
)
    requires
        before.wf(),
        notified_one(before, after, handles_before, handles_after),
    ensures
        waiting_in(after.waiters@).add(handles_after.to_multiset()) == waiting_in(
            before.waiters@,
        ).add(handles_before.to_multiset()),
{
    broadcast use vstd::seq_lib::group_to_multiset_ensures;

    notification_wakes_the_longest_waiting(before, after, handles_before, handles_after);
    if let Some(first) = before.list.head {
        let middle = before.waiters@.insert(first, after.waiters@[first]);
        lemma_waiter_changed(before.waiters@, middle, first);
        assert(middle.dom() =~= after.waiters@.dom());
        lemma_same_handles(middle, after.waiters@, (usize::MAX + 1) as nat);
        let gone = just(before.waiters@[first].handle);
        assert(handles_after.to_multiset() =~= handles_before.to_multiset().add(gone));
        assert(waiting_in(before.waiters@) =~= waiting_in(before.waiters@).add(just(None)));
        assert(waiting_in(after.waiters@).add(gone) == waiting_in(before.waiters@));
        assert(waiting_in(after.waiters@).add(handles_before.to_multiset().add(gone)) =~=
            waiting_in(after.waiters@).add(gone).add(handles_before.to_multiset()));
    }
}

/// A notification that comes while nobody waits is not lost, and counts once: the next wait passes
/// at once, and the one after that parks its coroutine, at the back of the list.
pub proof fn notification_lets_one_wait_pass(
    condvars: (Condvar, Condvar, Condvar, Condvar),
    handles: (Seq<Handle>, Seq<Handle>),
    processors: (Processor, Processor, Processor),
    first: Option<usize>,
    second: Option<usize>,
)
    requires
        condvars.0.wf(),
        condvars.0.token == condvars.0.notified,
        condvars.0.notified < usize::MAX,
        notified_one(condvars.0, condvars.1, handles.0, handles.1),
        waited(condvars.1, condvars.2, processors.0, processors.1, first),
        waited(condvars.2, condvars.3, processors.1, processors.2, second),
    ensures
        first is None,
        processors.1 == processors.0,
        condvars.2.waiters@ == condvars.1.waiters@,
        second matches Some(id) && {
            &&& processors.2.current_coro is None
            &&& condvars.3.list.tail == Some(id)
            &&& condvars.3.waiters@.dom().contains(id)
            &&& condvars.3.waiters@[id].state == WaiterState::Empty
            &&& condvars.3.waiters@[id].handle matches Some(coro) && coro.spec_id()
                == processors.0.current_coro->0.spec_id() && coro.spec_state() == State::Parked
        },
{
}

/// However waits and notifications are mixed, those that wait are notified in the order in which
/// they began to wait, and whoever was not notified yet still waits: nobody is lost or overtaken.
pub proof fn notified_in_the_order_of_waiting(
    condvars: Seq<Condvar>,
    handles: Seq<Seq<Handle>>,
    passings: Seq<Passing<usize>>,
)
    requires
        condvars.len() == passings.len() + 1,
        handles.len() == condvars.len(),
        forall|i: int| 0 <= i < condvars.len() ==> (#[trigger] condvars[i]).wf(),
        forall|i: int|
            0 <= i < passings.len() ==> match #[trigger] passings[i] {
                Passing::In(id) => exists|coro: Handle| #[trigger]
                    waits(condvars[i], condvars[i + 1], id, coro),
                Passing::Out(id) => condvars[i].list.head == Some(id) && notified_one(
                    condvars[i],
                    condvars[i + 1],
                    handles[i],
                    handles[i + 1],
                ),
            },
    ensures
        fifo::taken_out(passings) + condvars.last().order() == condvars[0].order() + fifo::put_in(
            passings,
        ),
{
    let orders = condvars.map_values(|c: Condvar| c.order());
    assert forall|i: int| 0 <= i < passings.len() implies fifo::passes(
        orders[i],
        orders[i + 1],
        #[trigger] passings[i],
    ) by {
        let before = condvars[i];
        let after = condvars[i + 1];
        assert(before.wf());
        match passings[i] {
            Passing::In(id) => {
                let coro = choose|coro: Handle| #[trigger] waits(before, after, id, coro);
                assert(waits(before, after, id, coro));
            },
            Passing::Out(id) => {
                notification_wakes_the_longest_waiting(before, after, handles[i], handles[i + 1]);
                assert(before.order().drop_first() =~= after.order());
            },
        }
    }
    fifo::taken_out_in_the_order_put_in(orders, passings);
}

/// Whoever begins to wait is the last one in the list, is not notified yet, and its coroutine is
/// the only one that is added to those that wait. Everyone else waits as before.
pub proof fn waiting_adds_one_coroutine(before: Condvar, after: Condvar, id: usize, coro: Handle)
    requires
        before.wf(),
        waits(before, after, id, coro) || exists|timeout: Timeout| #[trigger]
            waits_timeout(before, after, id, coro, timeout),
    ensures
        !before.waiters@.dom().contains(id),
        after.waiters@.dom() == before.waiters@.dom().insert(id),
        after.waiters@[id].handle == Some(coro),
        after.waiters@[id].state == WaiterState::Empty,
        after.list.tail == Some(id),
        before.list.head is None ==> after.list.head == Some(id),
        before.list.head is Some ==> after.list.head == before.list.head,
        after.order() == before.order().push(id),
        waiting_in(after.waiters@) == waiting_in(before.waiters@).insert(coro),
        forall|other: usize| #[trigger]
            before.waiters@.dom().contains(other) ==> {
                &&& after.waiters@[other].handle == before.waiters@[other].handle
                &&& after.waiters@[other].state == before.waiters@[other].state
                &&& after.waiters@[other].timeout == before.waiters@[other].timeout
            },
{
    let middle = if waits(before, after, id, coro) {
        choose|middle: Condvar| #[trigger] waits_after(before, middle, after, id, coro)
    } else {
        let timeout = choose|timeout: Timeout| #[trigger]
            waits_timeout(before, after, id, coro, timeout);
        choose|middle: Condvar| #[trigger]
            waits_timeout_after(before, middle, after, id, coro, timeout)
    };
    let fresh = Waiter {
        prev: None,
        next: None,
        handle: None,
        state: WaiterState::Empty,
        timeout: None,
    };
    let first = before.waiters@.insert(id, fresh);
    assert(enlisted(before, middle, id));
    lemma_waiter_came(before.waiters@, first, id);
    enlisting_keeps_waiters(before, middle, id);
    assert(middle.waiters@.dom() =~= first.dom());
    lemma_same_handles(first, middle.waiters@, (usize::MAX + 1) as nat);
    lemma_waiter_changed(middle.waiters@, after.waiters@, id);
    assert(after.waiters@.dom() =~= before.waiters@.dom().insert(id));
    let b = waiting_in(before.waiters@);
    let m = waiting_in(middle.waiters@);
    let a = waiting_in(after.waiters@);
    assert(m =~= b);
    assert(a =~= a.add(just(None)));
    assert(a =~= b.insert(coro));
}

/// Whoever is taken out without being notified is one whose timeout has to be cancelled: all of
/// these timeouts are there, and nobody is left in the list.
pub proof fn every_timeout_is_to_be_cancelled(waiters: WaiterMap, ids: Seq<usize>, k: int)
    requires
        0 <= k < ids.len(),
    ensures
        waiters[ids[k]].timeout matches Some(timeout) ==> timeouts_of(waiters, ids).contains(
            timeout,
        ),
    decreases ids.len(),
{
    if let Some(timeout) = waiters[ids[k]].timeout {
        let all = timeouts_of(waiters, ids);
        if k == ids.len() - 1 {
            assert(all.last() == timeout);
        } else {
            let fewer = ids.drop_last();
            assert(fewer[k] == ids[k]);
            every_timeout_is_to_be_cancelled(waiters, fewer, k);
            let before = timeouts_of(waiters, fewer);
            let i = choose|i: int| 0 <= i < before.len() && before[i] == timeout;
            assert(all[i] == timeout);
        }
    }
}

/// When a wait has ended, only its waiter goes: all others wait as before, and if its coroutine was
/// handed out, no coroutine is lost.
pub proof fn ending_a_wait_takes_one_waiter(list: WaiterList, waiters: WaiterMap, id: usize)
    requires
        list.wf(waiters),
        waiters.dom().contains(id),
    ensures
        ({
            let after = list.waiters_removed(waiters, id).remove(id);
            &&& after.dom() == waiters.dom().remove(id)
            &&& waiting_in(waiters) == waiting_in(after).add(just(waiters[id].handle))
            &&& forall|other: usize| #[trigger]
                waiters.dom().contains(other) && other != id ==> {
                    &&& after[other].handle == waiters[other].handle
                    &&& after[other].state == waiters[other].state
                    &&& after[other].timeout == waiters[other].timeout
                }
        }),
{
    let removed = list.waiters_removed(waiters, id);
    let after = removed.remove(id);
    removing_keeps_waiters(list, waiters, id);
    assert(linked_around(waiters, id)) by {
        reveal(linked);
    }
    lemma_same_handles(waiters, removed, (usize::MAX + 1) as nat);
    assert(removed =~= after.insert(id, removed[id]));
    lemma_waiter_came(after, removed, id);
    assert(after.dom() =~= waiters.dom().remove(id));
}

/// A new waiter leaves every other one where it is.
pub proof fn enlisting_keeps_waiters(before: Condvar, after: Condvar, id: usize)
    requires
        before.wf(),
        enlisted(before, after, id),
    ensures
        after.waiters@.dom() == before.waiters@.dom().insert(id),
        forall|other: usize| #[trigger]
            before.waiters@.dom().contains(other) ==> kept(
                before.waiters@[other],
                after.waiters@[other],
            ),
        after.waiters@[id].state == WaiterState::Empty,
        after.waiters@[id].handle is None,
        after.waiters@[id].timeout is None,
{
    assert(after.waiters@.dom() =~= before.waiters@.dom().insert(id));
}

/// Taking a waiter out leaves every other one where it is.
pub proof fn removing_keeps_waiters(list: WaiterList, waiters: WaiterMap, id: usize)
    requires
        list.wf(waiters),
        waiters.dom().contains(id),
    ensures
        list.waiters_removed(waiters, id).dom() == waiters.dom(),
        forall|other: usize| #[trigger]
            waiters.dom().contains(other) ==> kept(
                waiters[other],
                list.waiters_removed(waiters, id)[other],
            ),
{
    assert(linked_around(waiters, id)) by {
        reveal(linked);
    }
    assert(list.waiters_removed(waiters, id).dom() =~= waiters.dom());
}

/// Everything but the waiters is as before.
pub open spec fn same_but_waiters(before: Condvar, after: Condvar) -> bool {
    after == (Condvar { waiters: after.waiters, ..before })
}

/// A new waiter is at the back of the list.
pub open spec fn enlisted(before: Condvar, after: Condvar, id: usize) -> bool {
    let waiters = before.waiters@.insert(
        id,
        Waiter {
            prev: None,
            next: None,
            handle: None,
            state: WaiterState::Empty,
            timeout: None,
        },
    );
    &&& !before.waiters@.dom().contains(id)
    &&& after.list == before.list.pushed(id)
    &&& after.waiters@ == before.list.waiters_pushed(waiters, id)
    &&& after.order() == before.order().push(id)
}

/// A new waiter is at the back of the list, and the coroutine is with it.
pub open spec fn waits(before: Condvar, after: Condvar, id: usize, coro: Handle) -> bool {
    exists|middle: Condvar| #[trigger] waits_after(before, middle, after, id, coro)
}

/// First the waiter was put at the back of the list, then the coroutine was left with it.
pub open spec fn waits_after(
    before: Condvar,
    middle: Condvar,
    after: Condvar,
    id: usize,
    coro: Handle,
) -> bool {
    &&& enlisted(before, middle, id)
    &&& after.list == middle.list
    &&& after.order() == middle.order()
    &&& after.waiters@ == middle.waiters@.insert(
        id,
        Waiter { handle: Some(coro), ..middle.waiters@[id] },
    )
}

/// What a wait does: nothing but counting it if it was notified already, else the running
/// coroutine is parked with a waiter at the back of the list.
pub open spec fn waited(
    before: Condvar,
    after: Condvar,
    p_before: Processor,
    p_after: Processor,
    waiter: Option<usize>,
) -> bool {
    &&& after.token == before.token.wrapping_add(1)
    &&& after.notified == before.notified
    &&& match waiter {
        None => {
            &&& before.token < before.notified
            &&& p_after == p_before
            &&& after.list == before.list
            &&& after.waiters == before.waiters
        },
        Some(id) => {
            &&& before.token >= before.notified
            &&& p_after.current_coro is None
            &&& exists|coro: Handle|
                {
                    &&& #[trigger] coro.moved_to(p_before.current_coro->0, State::Parked)
                    &&& waits(before, after, id, coro)
                }
        },
    }
}

/// What a wait with a timeout does: the same, and the waiter also waits in the timer.
pub open spec fn waited_timeout(
    before: Condvar,
    after: Condvar,
    timer_before: Timer<TimerWaitType>,
    timer_after: Timer<TimerWaitType>,
    p_before: Processor,
    p_after: Processor,
    ready_type: ReadyType,
    key: usize,
    now: LocalTime,
    delay: u64,
    waiter: Option<usize>,
) -> bool {
    &&& after.token == before.token.wrapping_add(1)
    &&& after.notified == before.notified
    &&& match waiter {
        None => {
            &&& before.token < before.notified
            &&& p_after == p_before
            &&& after.list == before.list
            &&& after.waiters == before.waiters
            &&& timer_after == timer_before
        },
        Some(id) => {
            let timeout = Timeout { number: timer_before.spec_next_number() };
            &&& before.token >= before.notified
            &&& p_after.current_coro is None
            &&& timer_after.spec_next_number() == timer_before.spec_next_number() + 1
            &&& Timer::put_to_sleep(
                timer_before@,
                timer_after@,
                now,
                delay,
                TimerWaitType::Waiter { states: key, ready_type, waiter: id },
                timeout,
            )
            &&& exists|coro: Handle|
                {
                    &&& #[trigger] coro.moved_to(p_before.current_coro->0, State::Parked)
                    &&& waits_timeout(before, after, id, coro, timeout)
                }
        },
    }
}

/// A new waiter is at the back of the list, with the coroutine and the timeout.
pub open spec fn waits_timeout(
    before: Condvar,
    after: Condvar,
    id: usize,
    coro: Handle,
    timeout: Timeout,
) -> bool {
    exists|middle: Condvar| #[trigger]
        waits_timeout_after(before, middle, after, id, coro, timeout)
}

/// First the waiter was put at the back of the list, then the coroutine and the timeout were left
/// with it.
pub open spec fn waits_timeout_after(
    before: Condvar,
    middle: Condvar,
    after: Condvar,
    id: usize,
    coro: Handle,
    timeout: Timeout,
) -> bool {
    &&& enlisted(before, middle, id)
    &&& after.list == middle.list
    &&& after.order() == middle.order()
    &&& after.waiters@ == middle.waiters@.insert(
        id,
        Waiter { handle: Some(coro), timeout: Some(timeout), ..middle.waiters@[id] },
    )
}

/// Waiters with the same links are in the same order.
proof fn lemma_same_links(list: WaiterList, before: WaiterMap, after: WaiterMap)
    requires
        list.wf(before),
        after.dom() =~= before.dom(),
        forall|id: usize| #[trigger]
            after.dom().contains(id) ==> after[id].prev == before[id].prev && after[id].next
                == before[id].next,
    ensures
        list.wf(after),
        list.order(after) == list.order(before),
{
    let ids = list.order(before);
    lemma_order(before, list.head);
    assert forall|i: int| 0 <= i < ids.len() implies after.dom().contains(ids[i]) && (
    #[trigger] after[ids[i]]).next == follower(ids, i) by {
        assert(before[ids[i]].next == follower(ids, i));
    }
    lemma_order_is(after, list.head, ids);
    reveal(WaiterList::no_loose_ends);
    reveal(linked);
    let rank = choose|rank: Map<usize, int>| ranked(before, rank);
    assert(ranked(after, rank));
    assert forall|id: usize| #[trigger] after.dom().contains(id) implies (
    after[id].next matches Some(n) ==> after.dom().contains(n) && after[n].prev == Some(id)) by {
        assert(before.dom().contains(id));
        if let Some(n) = after[id].next {
            assert(after.dom().contains(n));
        }
    }
    assert forall|id: usize| #[trigger] after.dom().contains(id) implies (
    after[id].prev matches Some(p) ==> after.dom().contains(p) && after[p].next == Some(id)) by {
        assert(before.dom().contains(id));
        if let Some(p) = after[id].prev {
            assert(after.dom().contains(p));
        }
    }
}

/// The outcome of a wait that ended.
pub struct WaitTimeoutResult(bool);

impl WaitTimeoutResult {
    /// Whether the time ran out.
    pub closed spec fn spec_timed_out(&self) -> bool {
        self.0
    }

    /// Whether the time ran out.
    pub fn timed_out(&self) -> (timed_out: bool)
        ensures
            timed_out == self.spec_timed_out(),
    {
        self.0
    }
}

} // verus!
