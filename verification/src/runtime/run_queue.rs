//! The run queue of a processor: a ring buffer of coroutine handles.
//!
//! ```text
//!     0      1     2     3       4           n-2      n-1
//! [invalid, coro, coro, coro, invalid, ... invalid, invalid]
//!            ^                   ^
//!          head                tail
//! ```
//!
//! Both `head` and `tail` are only ever incremented, and wrap around at the end of their range.
//! All access to the ring buffer thus happens modulo the size of the buffer.

use vstd::prelude::*;

use crate::coroutine::{Handle, HandleList};

verus! {

/// The number of handles that fit into the run queue of a processor.
pub const QUEUE_SIZE: usize = 256;

/// The distance from `head` to `tail`, around the end of their range if need be.
pub open spec fn distance(head: usize, tail: usize) -> nat {
    if tail >= head {
        (tail - head) as nat
    } else {
        (tail - head + usize::MAX + 1) as nat
    }
}

/// The index of the slot that is `i` behind `head`.
pub open spec fn slot_of(head: usize, i: int) -> int {
    (head + i) % (QUEUE_SIZE as int)
}

/// What a thief is to do about a queue, by the positions that it read.
#[derive(Debug, Clone, Copy, PartialEq, Eq, Structural)]
pub enum StealPlan {
    /// There is nothing to steal.
    Nothing,
    /// The two positions do not belong together: read them again.
    ReadAgain,
    /// Take this many from the front.
    Take(usize),
}

/// The queue sizes that can be told from a stealing thief's positions: half of the handles go,
/// and at least one.
pub open spec fn steal_plan_spec(head: usize, tail: usize) -> StealPlan {
    let n = (distance(head, tail) + 1) / 2;
    if distance(head, tail) == usize::MAX || n == 0 {
        StealPlan::Nothing
    } else if n > QUEUE_SIZE / 2 {
        StealPlan::ReadAgain
    } else {
        StealPlan::Take(n as usize)
    }
}

/// The whole range of positions is a multiple of the queue size, so going around its end keeps
/// the slots in step.
proof fn lemma_range_is_multiple()
    ensures
        (usize::MAX + 1) % (QUEUE_SIZE as int) == 0,
{
    assert(usize::MAX == 0xffff_ffff || usize::MAX == 0xffff_ffff_ffff_ffff);
}

/// The place behind the back is in the slot of the tail.
proof fn lemma_slot_of_tail(head: usize, tail: usize)
    ensures
        slot_of(head, distance(head, tail) as int) == tail % QUEUE_SIZE,
{
    lemma_range_is_multiple();
}

/// Different places are in different slots.
proof fn lemma_slots_differ(head: usize, i: int, j: int)
    requires
        0 <= i < QUEUE_SIZE,
        0 <= j < QUEUE_SIZE,
        i != j,
    ensures
        slot_of(head, i) != slot_of(head, j),
{
}

/// What a thief takes from a queue whose positions it read as `head` and `tail`.
pub fn steal_plan(head: usize, tail: usize) -> (plan: StealPlan)
    ensures
        plan == steal_plan_spec(head, tail),
{
    let n = tail.wrapping_sub(head).wrapping_add(1) / 2;
    if n == 0 {
        return StealPlan::Nothing;
    }
    if n > QUEUE_SIZE / 2 {
        // the two were read inconsistently
        return StealPlan::ReadAgain;
    }
    StealPlan::Take(n)
}

/// A ring buffer of handles.
pub struct RunQueue {
    slots: Vec<Option<Handle>>,
    head: usize,
    tail: usize,
}

impl View for RunQueue {
    type V = Seq<Handle>;

    /// The handles from the front to the back.
    closed spec fn view(&self) -> Seq<Handle> {
        Seq::new(
            distance(self.head, self.tail),
            |i: int| self.slots@[slot_of(self.head, i)]->0,
        )
    }
}

impl RunQueue {
    /// The slots from the head up to the tail hold handles, the others do not.
    pub closed spec fn wf(&self) -> bool {
        &&& self.slots@.len() == QUEUE_SIZE
        &&& distance(self.head, self.tail) <= QUEUE_SIZE
        &&& forall|i: int|
            0 <= i < QUEUE_SIZE ==> ((#[trigger] self.slots@[slot_of(self.head, i)]) is Some <==> i
                < distance(self.head, self.tail))
    }

    /// The position of the front.
    pub closed spec fn spec_head(&self) -> usize {
        self.head
    }

    /// The position behind the back.
    pub closed spec fn spec_tail(&self) -> usize {
        self.tail
    }

    /// There are never more handles in the queue than it has room for.
    pub proof fn lemma_len(&self)
        requires
            self.wf(),
        ensures
            self@.len() <= QUEUE_SIZE,
            self@.len() == distance(self.spec_head(), self.spec_tail()),
    {
    }

    /// An empty queue.
    pub fn new() -> (queue: RunQueue)
        ensures
            queue.wf(),
            queue@ == Seq::<Handle>::empty(),
    {
        let mut slots: Vec<Option<Handle>> = Vec::with_capacity(QUEUE_SIZE);
        for i in 0..QUEUE_SIZE
            invariant
                slots@.len() == i,
                forall|k: int| 0 <= k < i ==> (#[trigger] slots@[k]) is None,
        {
            slots.push(None);
        }
        let queue = RunQueue { slots, head: 0, tail: 0 };
        proof {
            assert(queue@ =~= Seq::<Handle>::empty());
        }
        queue
    }

    /// Whether the queue is empty.
    pub fn is_empty(&self) -> (empty: bool)
        requires
            self.wf(),
        ensures
            empty == (self@.len() == 0),
    {
        self.head == self.tail
    }

    /// The number of handles in the queue.
    pub fn len(&self) -> (len: usize)
        requires
            self.wf(),
        ensures
            len == self@.len(),
            len <= QUEUE_SIZE,
    {
        self.tail.wrapping_sub(self.head)
    }

    /// Takes the handle at the front.
    pub fn pop_front(&mut self) -> (hdl: Option<Handle>)
        requires
            old(self).wf(),
        ensures
            final(self).wf(),
            hdl is None <==> old(self)@.len() == 0,
            hdl is None ==> *final(self) == *old(self),
            hdl matches Some(hdl) ==> hdl == old(self)@.first() && final(self)@
                == old(self)@.drop_first(),
    {
        let h = self.head;
        let t = self.tail;
        if t == h {
            return None;
        }
        let ghost before = *self;
        proof {
            lemma_range_is_multiple();
            assert(slot_of(h, 0) == h % QUEUE_SIZE);
        }
        let hdl = self.slots[h % QUEUE_SIZE].take();
        self.head = h.wrapping_add(1);
        proof {
            assert forall|i: int| 0 <= i < QUEUE_SIZE - 1 implies slot_of(self.head, i)
                == #[trigger] slot_of(h, i + 1) by {}
            assert(slot_of(self.head, QUEUE_SIZE - 1) == slot_of(h, 0));
            assert forall|i: int| 0 <= i < QUEUE_SIZE implies ((#[trigger] self.slots@[slot_of(
                self.head,
                i,
            )]) is Some <==> i < distance(self.head, self.tail)) by {
                if i < QUEUE_SIZE - 1 {
                    assert(slot_of(self.head, i) == slot_of(h, i + 1));
                    assert(before.slots@[slot_of(h, i + 1)] is Some <==> i + 1 < distance(h, t));
                }
            }
            assert(self@ =~= before@.drop_first());
        }
        hdl
    }

    /// Puts a handle at the back if there is room, else gives it back.
    fn try_push_back(&mut self, hdl: Handle) -> (rejected: Option<Handle>)
        requires
            old(self).wf(),
        ensures
            final(self).wf(),
            old(self)@.len() < QUEUE_SIZE ==> rejected is None && final(self)@ == old(self)@.push(
                hdl,
            ),
            old(self)@.len() == QUEUE_SIZE ==> rejected == Some(hdl) && *final(self) == *old(self),
    {
        let h = self.head;
        let t = self.tail;
        let ghost before = *self;
        if t.wrapping_sub(h) < QUEUE_SIZE {
            proof {
                lemma_slot_of_tail(h, t);
            }
            self.slots.set(t % QUEUE_SIZE, Some(hdl));
            self.tail = t.wrapping_add(1);
            proof {
                let n = distance(h, t) as int;
                assert forall|i: int| 0 <= i < QUEUE_SIZE implies ((#[trigger] self.slots@[slot_of(
                    h,
                    i,
                )]) is Some <==> i < n + 1) by {
                    assert(before.slots@[slot_of(h, i)] is Some <==> i < n);
                    if i != n {
                        lemma_slots_differ(h, i, n);
                    }
                }
                assert forall|i: int| 0 <= i < n implies self@[i] == before@[i] by {
                    lemma_slots_differ(h, i, n);
                }
                assert(self@ =~= before@.push(hdl));
            }
            return None;
        }
        Some(hdl)
    }

    /// Takes the first `n` handles.
    fn take_front(&mut self, n: usize) -> (batch: Vec<Handle>)
        requires
            old(self).wf(),
            n <= old(self)@.len(),
        ensures
            final(self).wf(),
            batch@ == old(self)@.take(n as int),
            final(self)@ == old(self)@.skip(n as int),
    {
        let mut batch: Vec<Handle> = Vec::with_capacity(n);
        let ghost before = self@;
        for i in 0..n
            invariant
                self.wf(),
                n <= before.len(),
                batch@ == before.take(i as int),
                self@ == before.skip(i as int),
        {
            if let Some(hdl) = self.pop_front() {
                batch.push(hdl);
            }
            proof {
                assert(batch@ =~= before.take(i + 1));
                assert(self@ =~= before.skip(i + 1));
            }
        }
        batch
    }

    /// Puts a handle at the back. If the queue is full, half of it goes instead, together with
    /// the handle: they come back in their order and belong to the global queue.
    pub fn push_back(&mut self, hdl: Handle) -> (overflow: Option<Vec<Handle>>)
        requires
            old(self).wf(),
        ensures
            final(self).wf(),
            old(self)@.len() < QUEUE_SIZE ==> overflow is None && final(self)@ == old(self)@.push(
                hdl,
            ),
            old(self)@.len() == QUEUE_SIZE ==> {
                &&& overflow matches Some(batch) && batch@ == old(self)@.take(
                    QUEUE_SIZE as int / 2,
                ).push(hdl)
                &&& final(self)@ == old(self)@.skip(QUEUE_SIZE as int / 2)
            },
    {
        proof {
            self.lemma_len();
        }
        match self.try_push_back(hdl) {
            None => None,
            Some(hdl) => Some(self.push_back_slow(hdl)),
        }
    }

    /// Makes room in a full queue: takes the first half of it, and the handle behind that.
    fn push_back_slow(&mut self, hdl: Handle) -> (batch: Vec<Handle>)
        requires
            old(self).wf(),
            old(self)@.len() == QUEUE_SIZE,
        ensures
            final(self).wf(),
            batch@ == old(self)@.take(QUEUE_SIZE as int / 2).push(hdl),
            final(self)@ == old(self)@.skip(QUEUE_SIZE as int / 2),
    {
        let n = self.tail.wrapping_sub(self.head) / 2;
        let mut batch = self.take_front(n);
        batch.push(hdl);
        batch
    }

    /// Takes half of the queue from its front, and at least one handle if there is any.
    pub fn grab(&mut self) -> (batch: Vec<Handle>)
        requires
            old(self).wf(),
        ensures
            final(self).wf(),
            ({
                let n = (old(self)@.len() + 1) / 2;
                &&& batch@ == old(self)@.take(n as int)
                &&& final(self)@ == old(self)@.skip(n as int)
            }),
    {
        proof {
            self.lemma_len();
        }
        match steal_plan(self.head, self.tail) {
            StealPlan::Take(n) => self.take_front(n),
            _ => {
                proof {
                    assert(self@.take(0) =~= Seq::<Handle>::empty());
                    assert(self@.skip(0) =~= self@);
                }
                Vec::new()
            },
        }
    }

    /// Takes over a stolen batch: its last handle is the one to run next, the others go to the
    /// back of the queue.
    pub fn absorb(&mut self, batch: Vec<Handle>) -> (next: Option<Handle>)
        requires
            old(self).wf(),
            batch@.len() > 1 ==> old(self)@.len() + batch@.len() - 1 < QUEUE_SIZE,
        ensures
            final(self).wf(),
            batch@.len() == 0 ==> next is None && final(self)@ == old(self)@,
            batch@.len() > 0 ==> next == Some(batch@.last()) && final(self)@ == old(self)@
                + batch@.drop_last(),
    {
        let mut batch = batch;
        let ghost all = batch@;
        match batch.pop() {
            None => None,
            Some(next) => {
                let mut list = HandleList::new();
                list.extend(batch);
                self.extend(list);
                Some(next)
            },
        }
    }

    /// Puts the handles of a list at the back.
    pub fn extend(&mut self, list: HandleList)
        requires
            old(self).wf(),
            old(self)@.len() + list@.len() <= QUEUE_SIZE,
        ensures
            final(self).wf(),
            final(self)@ == old(self)@ + list@,
    {
        let mut iter = list.into_iter();
        let ghost all = self@ + list@;
        while iter.count() > 0
            invariant
                self.wf(),
                self@ + iter@ == all,
                all.len() <= QUEUE_SIZE,
            decreases iter@.len(),
        {
            let ghost front = self@;
            let ghost rest = iter@;
            if let Some(hdl) = iter.next() {
                let _ = self.try_push_back(hdl);
                proof {
                    assert(self@ + iter@ =~= front + rest);
                }
            }
        }
        proof {
            assert(self@ =~= all);
        }
    }

    /// Takes the handle at the back.
    pub fn pop_back(&mut self) -> (hdl: Option<Handle>)
        requires
            old(self).wf(),
        ensures
            final(self).wf(),
            hdl is None <==> old(self)@.len() == 0,
            hdl is None ==> *final(self) == *old(self),
            hdl matches Some(hdl) ==> hdl == old(self)@.last() && final(self)@
                == old(self)@.drop_last(),
    {
        if self.head == self.tail {
            return None;
        }
        let ghost before = *self;
        let h = self.head;
        let t = self.tail.wrapping_sub(1);
        proof {
            lemma_slot_of_tail(h, t);
        }
        let hdl = self.slots[t % QUEUE_SIZE].take();
        self.tail = t;
        proof {
            let n = distance(h, t) as int;
            assert(distance(h, before.tail) == n + 1);
            assert forall|i: int| 0 <= i < QUEUE_SIZE implies ((#[trigger] self.slots@[slot_of(
                h,
                i,
            )]) is Some <==> i < n) by {
                assert(before.slots@[slot_of(h, i)] is Some <==> i < n + 1);
                if i != n {
                    lemma_slots_differ(h, i, n);
                }
            }
            assert forall|i: int| 0 <= i < n implies self@[i] == before@[i] by {
                lemma_slots_differ(h, i, n);
            }
            assert(self@ =~= before@.drop_last());
        }
        hdl
    }
}

/// From a queue that holds anything a thief takes half of it, rounded up, and from an empty one
/// nothing. If the positions are further apart than a queue can be long, it reads them again.
pub proof fn thief_takes_half(head: usize, tail: usize, len: usize)
    requires
        tail == head.wrapping_add(len),
    ensures
        len == 0 ==> steal_plan_spec(head, tail) is Nothing,
        1 <= len <= QUEUE_SIZE ==> (steal_plan_spec(head, tail) matches StealPlan::Take(n) && 1 <= n
            <= len && len - n <= n <= len - n + 1),
        QUEUE_SIZE < len < usize::MAX ==> steal_plan_spec(head, tail) is ReadAgain,
{
}

} // verus!
