//! Processors: each runs coroutines from its own queue, one at a time.

use rand::rngs::SmallRng;
use rand::{FromEntropy, Rng};
use vstd::prelude::*;

use crate::coroutine::{Handle, State};
use crate::runtime::random_order::RandomProcessorOrder;
use crate::runtime::run_queue::RunQueue;
use crate::runtime::stack_pool::StackPool;

verus! {

/// The small generator of random numbers of the `rand` crate.
#[verifier::external_type_specification]
#[verifier::external_body]
pub struct ExSmallRng(SmallRng);

/// `SmallRng::from_entropy`: a generator with a seed that depends on chance.
#[verifier::external_body]
fn rng_from_entropy() -> (rng: SmallRng) {
    SmallRng::from_entropy()
}

/// `Rng::gen` on a `SmallRng`: some number.
#[verifier::external_body]
pub(crate) fn rng_gen(rng: &mut SmallRng) -> (number: usize) {
    rng.gen()
}

/// What is sent to a processor.
#[derive(Debug, Clone, Copy, PartialEq, Eq, Structural)]
pub enum ProcMessage {
    /// Shut down: the processor runs nothing more.
    Shutdown,
}

/// A processing unit.
pub struct Processor {
    /// The number of the processor.
    pub id: usize,
    /// The coroutines that are ready to run here.
    pub queue: RunQueue,
    /// The coroutine that is running.
    pub current_coro: Option<Handle>,
    /// The coroutine that is to run next, before those in the queue.
    pub run_next: Option<Handle>,
    /// The orders in which the other processors are visited.
    pub rand_order: RandomProcessorOrder,
    /// Picks one of the orders.
    pub rng: SmallRng,
    /// The stacks of the coroutines that finished here.
    pub stack_pool: StackPool,
}

impl Processor {
    /// The parts of the processor are in order.
    pub open spec fn wf(&self) -> bool {
        &&& self.queue.wf()
        &&& self.rand_order.wf()
        &&& self.stack_pool.wf()
    }

    /// The coroutine that has just yielded, if it is still here, was suspended or has finished,
    /// and if it has finished, its stack can be counted in.
    pub open spec fn can_be_put_away(&self) -> bool {
        self.current_coro matches Some(coro) ==> {
            ||| coro.spec_state() == State::Suspended
            ||| {
                &&& coro.spec_state() == State::Finished
                &&& coro.spec_coro().spec_stack() matches Some(stack)
                    && self.stack_pool.spec_total_size() + stack.spec_size() <= usize::MAX
            }
        }
    }

    /// Everything but the current coroutine is as in `other`.
    pub open spec fn same_but_current(&self, other: Processor) -> bool {
        *self == (Processor { current_coro: self.current_coro, ..other })
    }

    /// Everything but the queue is as in `other`.
    pub open spec fn same_but_queue(&self, other: Processor) -> bool {
        *self == (Processor { queue: self.queue, ..other })
    }

    /// Everything but the queue and the generator of random numbers is as in `other`.
    pub open spec fn same_but_queue_and_rng(&self, other: Processor) -> bool {
        *self == (Processor { queue: self.queue, rng: self.rng, ..other })
    }

    /// A processor with nothing to do, which keeps at most so many bytes of stacks.
    pub fn new(id: usize, max_stack_memory_limit: usize) -> (processor: Processor)
        ensures
            processor.wf(),
            processor.id == id,
            processor.queue@.len() == 0,
            processor.current_coro is None,
            processor.run_next is None,
            processor.rand_order.count() == 0,
            processor.stack_pool@.len() == 0,
            processor.stack_pool.low_mark() == Some((max_stack_memory_limit / 2) as usize),
            processor.stack_pool.high_mark() == Some(max_stack_memory_limit),
    {
        Processor {
            id,
            queue: RunQueue::new(),
            current_coro: None,
            run_next: None,
            rand_order: RandomProcessorOrder::new(),
            rng: rng_from_entropy(),
            stack_pool: StackPool::new(
                Some(max_stack_memory_limit / 2),
                Some(max_stack_memory_limit),
            ),
        }
    }

    /// The number of the processor.
    pub fn id(&self) -> (id: usize)
        ensures
            id == self.id,
    {
        self.id
    }

    /// The coroutine that is running.
    pub fn current_coroutine(&mut self) -> (coro: Option<&mut Handle>)
        ensures
            coro is Some <==> old(self).current_coro is Some,
            coro is None ==> *final(self) == *old(self),
            coro matches Some(coro) ==> {
                &&& *coro == old(self).current_coro->0
                &&& final(self).current_coro == Some(*final(coro))
                &&& final(self).same_but_current(*old(self))
            },
    {
        self.current_coro.as_mut()
    }

    /// Queues a coroutine that is ready to run. If the queue is full, half of it comes back
    /// together with the coroutine and belongs to the global queue.
    pub fn ready(&mut self, coro: Handle) -> (overflow: Option<Vec<Handle>>)
        requires
            old(self).wf(),
        ensures
            final(self).wf(),
            final(self).same_but_queue(*old(self)),
            queued(old(self).queue@, final(self).queue@, coro, overflow),
    {
        proof {
            self.queue.lemma_len();
        }
        self.queue.push_back(coro)
    }

    /// The running coroutine is to be suspended.
    pub fn sched(&mut self)
        ensures
            final(self).same_but_current(*old(self)),
            yielded(old(self).current_coro, final(self).current_coro, State::Suspended),
    {
        self.yield_with(State::Suspended)
    }

    /// The running coroutine changes over to the given state.
    pub fn yield_with(&mut self, r: State)
        ensures
            final(self).same_but_current(*old(self)),
            yielded(old(self).current_coro, final(self).current_coro, r),
    {
        if let Some(coro) = self.current_coroutine() {
            coro.yield_with(r);
        }
    }

    /// Takes the running coroutine off the processor, to be parked wherever it waits.
    pub fn park(&mut self) -> (coro: Handle)
        requires
            old(self).current_coro is Some,
        ensures
            final(self).same_but_current(*old(self)),
            final(self).current_coro is None,
            coro.moved_to(old(self).current_coro->0, State::Parked),
    {
        self.yield_with(State::Parked);
        self.current_coro.take().unwrap()
    }

    /// Starts or continues a coroutine.
    pub fn resume(&mut self, coro: Handle)
        requires
            old(self).current_coro is None,
            coro.spec_state() != State::Finished,
        ensures
            final(self).same_but_current(*old(self)),
            final(self).current_coro matches Some(c) && c.moved_to(coro, State::Running),
    {
        let mut coro = coro;
        coro.resume();
        self.current_coro = Some(coro);
    }
}

/// The queue after a coroutine became ready: it is at the back, or, if the queue was full, it
/// went along with the first half of the queue.
pub open spec fn queued(
    before: Seq<Handle>,
    after: Seq<Handle>,
    coro: Handle,
    overflow: Option<Vec<Handle>>,
) -> bool {
    let size = crate::runtime::run_queue::QUEUE_SIZE as int;
    if before.len() < size {
        overflow is None && after == before.push(coro)
    } else {
        &&& overflow matches Some(batch) && batch@ == before.take(size / 2).push(coro)
        &&& after == before.skip(size / 2)
    }
}

/// The running coroutine, if there is one, changed over to the given state.
pub open spec fn yielded(before: Option<Handle>, after: Option<Handle>, state: State) -> bool {
    match before {
        Some(coro) => after matches Some(now) && now.moved_to(coro, state),
        None => after is None,
    }
}

/// Whether a coroutine that became ready stays here or moves on to the global queue, it is not
/// lost, and neither is any other one.
pub proof fn ready_keeps_every_coroutine(
    before: Seq<Handle>,
    after: Seq<Handle>,
    coro: Handle,
    overflow: Option<Vec<Handle>>,
)
    requires
        queued(before, after, coro, overflow),
        before.len() <= crate::runtime::run_queue::QUEUE_SIZE,
    ensures
        overflow is None ==> after.to_multiset() == before.to_multiset().insert(coro),
        overflow matches Some(batch) ==> after.to_multiset().add(batch@.to_multiset())
            == before.to_multiset().insert(coro),
{
    broadcast use vstd::seq_lib::group_to_multiset_ensures;

    let size = crate::runtime::run_queue::QUEUE_SIZE as int;
    if let Some(batch) = overflow {
        let front = before.take(size / 2);
        assert(before =~= front + after);
        vstd::seq_lib::lemma_multiset_commutative(front, after);
        assert(after.to_multiset().add(batch@.to_multiset()) =~= before.to_multiset().insert(coro));
    }
}

/// A coroutine that became ready runs after all that were queued before it, whether it stays here
/// or moves on to the global queue. If it moves on, the older half of the queue goes before it, and
/// the younger half stays in its order.
pub proof fn ready_coroutine_comes_last(
    before: Seq<Handle>,
    after: Seq<Handle>,
    coro: Handle,
    overflow: Option<Vec<Handle>>,
)
    requires
        queued(before, after, coro, overflow),
        before.len() <= crate::runtime::run_queue::QUEUE_SIZE,
    ensures
        overflow is None ==> after == before + seq![coro],
        overflow matches Some(batch) ==> {
            &&& batch@.len() > 0
            &&& batch@.last() == coro
            &&& before == batch@.drop_last() + after
            &&& batch@.len() == after.len() + 1
        },
        overflow is Some <==> before.len() == crate::runtime::run_queue::QUEUE_SIZE,
        after.len() <= crate::runtime::run_queue::QUEUE_SIZE,
{
    if let Some(batch) = overflow {
        assert(batch@.drop_last() + after =~= before);
    } else {
        assert(after =~= before + seq![coro]);
    }
}

} // verus!
