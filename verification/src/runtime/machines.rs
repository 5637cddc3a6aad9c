//! The processors together with the queue that they share: stealing, and what to run next.

use vstd::multiset::Multiset;
use vstd::prelude::*;

use crate::coroutine::{Coroutine, Handle, HandleList, State};
use crate::options::Options;
use crate::runtime::processor::{rng_gen, ProcMessage, Processor};
use crate::runtime::run_queue::QUEUE_SIZE;
use crate::runtime::stack_pool::{StackPool, StackUnavailable};

verus! {

/// How often a processor tries to steal before it turns to the global queue.
pub const STEAL_ROUNDS: usize = 4;

/// All coroutines of a queue can still run.
pub open spec fn live(queue: Seq<Handle>) -> bool {
    forall|i: int| 0 <= i < queue.len() ==> (#[trigger] queue[i]).spec_state() != State::Finished
}

/// The coroutine, if there is one, can still run.
pub open spec fn live_opt(hdl: Option<Handle>) -> bool {
    hdl matches Some(hdl) ==> hdl.spec_state() != State::Finished
}

/// All coroutines in the queues of the processors.
pub open spec fn in_local_queues(processors: Seq<Processor>) -> Multiset<Handle>
    decreases processors.len(),
{
    if processors.len() == 0 {
        Multiset::empty()
    } else {
        in_local_queues(processors.drop_last()).add(processors.last().queue@.to_multiset())
    }
}

/// The number of handles that a thief takes from a queue.
pub open spec fn half(len: nat) -> nat {
    (len + 1) / 2
}

/// The first half of the victim's queue was stolen: the thief, whose queue was empty, has it in
/// its own queue, but for the last one, which it runs next.
pub open spec fn stolen(
    before: Seq<Processor>,
    after: Seq<Processor>,
    thief: int,
    victim: int,
    next: Handle,
) -> bool {
    let loot = before[victim].queue@;
    let n = half(loot.len()) as int;
    &&& thief != victim
    &&& 0 <= victim < before.len()
    &&& loot.len() > 0
    &&& next == loot[n - 1]
    &&& after.len() == before.len()
    &&& after[victim].same_but_queue(before[victim])
    &&& after[victim].queue@ == loot.skip(n)
    &&& after[thief].same_but_queue_and_rng(before[thief])
    &&& after[thief].queue@ == loot.take(n - 1)
    &&& forall|i: int|
        0 <= i < before.len() && i != thief && i != victim ==> #[trigger] after[i] == before[i]
}

/// All queues of the processors are empty.
pub open spec fn no_local_work(processors: Seq<Processor>) -> bool {
    forall|i: int| 0 <= i < processors.len() ==> (#[trigger] processors[i]).queue@.len() == 0
}

/// The first processor in the order that has something to steal.
pub open spec fn first_loaded(processors: Seq<Processor>, order: Seq<usize>, k: int) -> bool {
    &&& 0 <= k < order.len()
    &&& processors[order[k] as int].queue@.len() > 0
    &&& forall|j: int| 0 <= j < k ==> processors[(#[trigger] order[j]) as int].queue@.len() == 0
}

/// The first half of the queue of the first processor in the order that has something in it was
/// stolen.
pub open spec fn stolen_in_order(
    before: Seq<Processor>,
    after: Seq<Processor>,
    thief: int,
    order: Seq<usize>,
    next: Handle,
) -> bool {
    exists|k: int| #[trigger]
        first_loaded(before, order, k) && stolen(before, after, thief, order[k] as int, next)
}

/// How many coroutines a processor takes from the global queue besides the one that it runs: its
/// share of the queue, but no more than half a local queue and half of its free places.
pub open spec fn batch_size(global_len: nat, machines: nat, local_len: nat) -> nat {
    let share = global_len / machines + 1;
    let most = QUEUE_SIZE as nat / 2;
    let room = ((QUEUE_SIZE - local_len + 1) / 2) as nat;
    let n = if share > most {
        most
    } else {
        share
    };
    let n = if n > room {
        room
    } else {
        n
    };
    if n > global_len - 1 {
        (global_len - 1) as nat
    } else {
        n
    }
}

/// A processor with nothing to do and an empty pool with these marks.
pub open spec fn idle_processor(p: Processor, max_stack_memory_limit: usize) -> bool {
    &&& p.queue@.len() == 0
    &&& p.current_coro is None
    &&& p.run_next is None
    &&& p.stack_pool@.len() == 0
    &&& p.stack_pool.low_mark() == Some((max_stack_memory_limit / 2) as usize)
    &&& p.stack_pool.high_mark() == Some(max_stack_memory_limit)
}

/// What a processor is to do after it has looked for work.
#[derive(Debug, Clone, Copy, PartialEq, Eq, Structural)]
pub enum ScheduleStep {
    /// Run the current coroutine until it yields.
    Run,
    /// Wait until somebody wakes it up.
    Park,
    /// Look again.
    Again,
    /// Drop everything and end.
    Leave,
}

/// The processors and the global queue.
pub struct Machines {
    /// The processors, each at the place of its number.
    pub processors: Vec<Processor>,
    /// The coroutines that any processor can run.
    pub global_queue: HandleList,
    /// The length of the global queue, to be read without a lock.
    pub global_queue_size: usize,
    /// The number of processors that wait for work.
    pub idle_processor_count: usize,
    /// The number of processors that look for work.
    pub spinning_processor_count: usize,
    /// No processor may wait any more.
    pub stopping: bool,
}

impl Machines {
    /// The processors are in order and know how many there are, the length of the global queue
    /// is right, and no coroutine that has finished is queued.
    pub open spec fn wf(&self) -> bool {
        &&& self.processors@.len() <= usize::MAX / 2
        &&& forall|i: int|
            0 <= i < self.processors@.len() ==> Self::processor_wf(
                #[trigger] self.processors@[i],
                i,
                self.processors@.len(),
            )
        &&& self.global_queue_size == self.global_queue@.len()
        &&& live(self.global_queue@)
    }

    /// The processor is the one at place `i` of `count` processors.
    pub open spec fn processor_wf(processor: Processor, i: int, count: nat) -> bool {
        &&& processor.wf()
        &&& processor.id == i
        &&& processor.rand_order.count() == count
        &&& live(processor.queue@)
        &&& live_opt(processor.run_next)
    }

    /// The counts of waiting and searching processors are as in `other`.
    pub open spec fn same_counts(&self, other: Machines) -> bool {
        &&& self.idle_processor_count == other.idle_processor_count
        &&& self.spinning_processor_count == other.spinning_processor_count
        &&& self.stopping == other.stopping
    }

    /// No processors yet, and nothing to do.
    pub fn new() -> (machines: Machines)
        ensures
            machines.wf(),
            machines.processors@.len() == 0,
            machines.global_queue@.len() == 0,
            machines.idle_processor_count == 0,
            machines.spinning_processor_count == 0,
            !machines.stopping,
    {
        Machines {
            processors: Vec::new(),
            global_queue: HandleList::new(),
            global_queue_size: 0,
            idle_processor_count: 0,
            spinning_processor_count: 0,
            stopping: false,
        }
    }

    /// Sets up `count` new processors.
    pub fn spawn(&mut self, count: usize, max_stack_memory_limit: usize)
        requires
            old(self).wf(),
            old(self).processors@.len() == 0,
            count <= usize::MAX / 2,
        ensures
            final(self).wf(),
            final(self).processors@.len() == count,
            final(self).same_counts(*old(self)),
            final(self).global_queue == old(self).global_queue,
            forall|i: int|
                0 <= i < count ==> idle_processor(
                    #[trigger] final(self).processors@[i],
                    max_stack_memory_limit,
                ),
    {
        for id in 0..count
            invariant
                count <= usize::MAX / 2,
                self.processors@.len() == id,
                self.same_counts(*old(self)),
                self.global_queue == old(self).global_queue,
                self.global_queue_size == old(self).global_queue_size,
                forall|i: int|
                    0 <= i < id ==> {
                        let p = #[trigger] self.processors@[i];
                        &&& Self::processor_wf(p, i, count as nat)
                        &&& idle_processor(p, max_stack_memory_limit)
                    },
        {
            let mut processor = Processor::new(id, max_stack_memory_limit);
            processor.rand_order.reset(count);
            self.processors.push(processor);
        }
    }

    /// How many of the waiting processors to wake up, of at most `max`: none while others are
    /// looking for work already.
    pub fn unpark_processor_maybe(&self, max: usize) -> (count: usize)
        ensures
            count == self.to_unpark(max as nat),
    {
        let idle_processor_count = self.idle_processor_count;
        if max > 0 && idle_processor_count > 0 && self.spinning_processor_count == 0 {
            if idle_processor_count < max {
                idle_processor_count
            } else {
                max
            }
        } else {
            0
        }
    }

    /// There is something that the processor could run.
    pub open spec fn has_work(&self, id: int) -> bool {
        ||| self.processors@[id].run_next is Some
        ||| !no_local_work(self.processors@)
        ||| self.global_queue@.len() > 0
    }

    /// How many processors to wake up, of at most `max`.
    pub open spec fn to_unpark(&self, max: nat) -> nat {
        if self.spinning_processor_count != 0 {
            0
        } else if self.idle_processor_count < max {
            self.idle_processor_count as nat
        } else {
            max
        }
    }

    /// How many processors to wake up for a global queue of this length: one for each half of a
    /// local queue, and one more.
    pub fn unpark_processors_with_queue_size(&self, size: usize) -> (count: usize)
        ensures
            count == self.to_unpark(size as nat / (QUEUE_SIZE as nat / 2) + 1),
    {
        self.unpark_processor_maybe(size / (QUEUE_SIZE / 2) + 1)
    }

    /// Puts a coroutine into the global queue; tells how many processors to wake up.
    pub fn push_global_queue(&mut self, hdl: Handle) -> (count: usize)
        requires
            old(self).wf(),
            hdl.spec_state() != State::Finished,
        ensures
            final(self).wf(),
            final(self).processors == old(self).processors,
            final(self).same_counts(*old(self)),
            final(self).global_queue@ == old(self).global_queue@.push(hdl),
            count == old(self).to_unpark(
                final(self).global_queue@.len() / (QUEUE_SIZE as nat / 2) + 1,
            ),
    {
        self.global_queue.push_back(hdl);
        let size = self.global_queue.len();
        self.global_queue_size = size;
        self.unpark_processors_with_queue_size(size)
    }

    /// Puts a batch of coroutines into the global queue; tells how many processors to wake up.
    pub fn push_global_queue_iter(&mut self, batch: Vec<Handle>) -> (count: usize)
        requires
            old(self).wf(),
            live(batch@),
        ensures
            final(self).wf(),
            final(self).processors == old(self).processors,
            final(self).same_counts(*old(self)),
            final(self).global_queue@ == old(self).global_queue@ + batch@,
            count == old(self).to_unpark(
                final(self).global_queue@.len() / (QUEUE_SIZE as nat / 2) + 1,
            ),
    {
        self.global_queue.extend(batch);
        let size = self.global_queue.len();
        self.global_queue_size = size;
        self.unpark_processors_with_queue_size(size)
    }

    /// Moves a list of coroutines to the global queue, unless it is empty; tells how many
    /// processors to wake up.
    pub fn append_to_global_queue(&mut self, list: &mut HandleList) -> (count: usize)
        requires
            old(self).wf(),
            live(old(list)@),
        ensures
            final(self).wf(),
            final(self).processors == old(self).processors,
            final(self).same_counts(*old(self)),
            final(self).global_queue@ == old(self).global_queue@ + old(list)@,
            final(list)@.len() == 0,
            count == (if old(list)@.len() == 0 {
                0
            } else {
                old(self).to_unpark(final(self).global_queue@.len() / (QUEUE_SIZE as nat / 2) + 1)
            }),
    {
        if list.is_empty() {
            return 0;
        }
        self.global_queue.append(list);
        let size = self.global_queue.len();
        self.global_queue_size = size;
        self.unpark_processors_with_queue_size(size)
    }

    /// Steals half of the queue of processor `from`.
    fn queue_steal(&mut self, thief: usize, from: usize) -> (next: Option<Handle>)
        requires
            old(self).wf(),
            thief < old(self).processors@.len(),
            from < old(self).processors@.len(),
            old(self).processors@[thief as int].queue@.len() == 0,
        ensures
            final(self).wf(),
            final(self).same_counts(*old(self)),
            final(self).global_queue == old(self).global_queue,
            next is None <==> old(self).processors@[from as int].queue@.len() == 0,
            next is None ==> *final(self) == *old(self),
            next matches Some(hdl) ==> stolen(
                old(self).processors@,
                final(self).processors@,
                thief as int,
                from as int,
                hdl,
            ),
    {
        if self.processors[from].queue.is_empty() {
            return None;
        }
        let ghost before = self.processors@;
        proof {
            before[from as int].queue.lemma_len();
        }
        let batch = self.processors[from].queue.grab();
        let next = self.processors[thief].queue.absorb(batch);
        proof {
            let loot = before[from as int].queue@;
            let n = half(loot.len()) as int;
            assert(before[thief as int].queue@ + loot.take(n).drop_last() =~= loot.take(n - 1));
        }
        next
    }

    /// Tries to steal from each processor once, in the order that the random number picks.
    pub fn steal_round(&mut self, thief: usize, rnd: usize) -> (next: Option<Handle>)
        requires
            old(self).wf(),
            thief < old(self).processors@.len(),
            old(self).processors@[thief as int].queue@.len() == 0,
        ensures
            final(self).wf(),
            final(self).same_counts(*old(self)),
            final(self).global_queue == old(self).global_queue,
            next is None <==> no_local_work(old(self).processors@),
            next is None ==> *final(self) == *old(self),
            next matches Some(hdl) ==> stolen_in_order(
                old(self).processors@,
                final(self).processors@,
                thief as int,
                old(self).processors@[thief as int].rand_order.order(rnd as nat),
                hdl,
            ),
    {
        let ghost order = self.processors@[thief as int].rand_order.order(rnd as nat);
        proof {
            self.processors@[thief as int].rand_order.order_visits_every_processor_once(
                rnd as nat,
            );
        }
        let mut iter = self.processors[thief].rand_order.iter(rnd);
        let ghost mut k: int = 0;
        proof {
            assert(order.skip(0) =~= order);
        }
        loop
            invariant
                *self == *old(self),
                self.wf(),
                thief < self.processors@.len(),
                self.processors@[thief as int].queue@.len() == 0,
                order == self.processors@[thief as int].rand_order.order(rnd as nat),
                order.len() == self.processors@.len(),
                forall|x: usize| #[trigger] order.contains(x) <==> x < self.processors@.len(),
                iter.wf(),
                0 <= k <= order.len(),
                iter@ == order.skip(k),
                forall|j: int|
                    0 <= j < k ==> self.processors@[(#[trigger] order[j]) as int].queue@.len() == 0,
            ensures
                *self == *old(self),
                no_local_work(self.processors@),
            decreases iter@.len(),
        {
            match iter.next() {
                Some(x) => {
                    proof {
                        assert(x == order[k]);
                        assert(order.contains(x));
                    }
                    let hdl = self.queue_steal(thief, x);
                    if hdl.is_some() {
                        proof {
                            assert(first_loaded(old(self).processors@, order, k));
                            if no_local_work(old(self).processors@) {
                                assert(old(self).processors@[x as int].queue@.len() == 0);
                            }
                        }
                        return hdl;
                    }
                    proof {
                        k = k + 1;
                        assert(iter@ =~= order.skip(k));
                    }
                },
                None => {
                    proof {
                        assert forall|i: int| 0 <= i < self.processors@.len() implies (
                        #[trigger] self.processors@[i]).queue@.len() == 0 by {
                            assert(order.contains(i as usize));
                            let j = choose|j: int| 0 <= j < order.len() && order[j] == i as usize;
                            assert(self.processors@[order[j] as int].queue@.len() == 0);
                        }
                    }
                    break;
                },
            }
        }
        None
    }

    /// Takes a batch of coroutines from the global queue: the first one is to run next, the
    /// others go to the back of the local queue.
    pub fn global_queue_get_batch(&mut self, id: usize) -> (next: Option<Handle>)
        requires
            old(self).wf(),
            id < old(self).processors@.len(),
        ensures
            final(self).wf(),
            final(self).same_counts(*old(self)),
            next is None <==> old(self).global_queue@.len() == 0,
            next is None ==> *final(self) == *old(self),
            next matches Some(hdl) ==> taken_from_global(
                old(self).processors@,
                final(self).processors@,
                old(self).global_queue@,
                final(self).global_queue@,
                id as int,
                hdl,
            ),
    {
        if self.global_queue_size == 0 {
            return None;
        }
        let ghost before = self.processors@;
        let ghost all = self.global_queue@;
        proof {
            before[id as int].queue.lemma_len();
        }
        let share = self.global_queue.len() / self.processors.len();
        let mut n = if share < QUEUE_SIZE / 2 {
            share + 1
        } else {
            QUEUE_SIZE / 2
        };
        let hdl = self.global_queue.pop_front();
        let max = (QUEUE_SIZE - self.processors[id].queue.len() + 1) / 2;
        if n > max {
            n = max;
        }
        let list = self.global_queue.split_off_front(n);
        self.global_queue_size = self.global_queue.len();
        proof {
            let rest = all.drop_first();
            let cnt = batch_size(all.len(), before.len(), before[id as int].queue@.len()) as int;
            assert(rest.take(rest.len() as int) =~= rest);
            assert(rest.skip(rest.len() as int) =~= Seq::<Handle>::empty());
            assert(list@ == rest.take(cnt));
            assert(self.global_queue@ == rest.skip(cnt));
        }
        self.processors[id].queue.extend(list);
        hdl
    }

    /// Looks for work elsewhere: first steals from the other processors, in several random
    /// orders, then takes from the global queue.
    ///
    /// There is nothing to be had only if every queue is empty.
    pub fn fetch_foreign_coroutines(&mut self, id: usize) -> (next: Option<Handle>)
        requires
            old(self).wf(),
            id < old(self).processors@.len(),
            old(self).processors@[id as int].queue@.len() == 0,
        ensures
            final(self).wf(),
            final(self).same_counts(*old(self)),
            fetched(
                old(self).processors@,
                final(self).processors@,
                old(self).global_queue@,
                final(self).global_queue@,
                id as int,
                next,
            ),
    {
        let mut round: usize = 0;
        while round < STEAL_ROUNDS
            invariant
                self.wf(),
                id < self.processors@.len(),
                self.same_counts(*old(self)),
                self.global_queue == old(self).global_queue,
                same_but_rng(old(self).processors@, self.processors@, id as int),
                self.processors@[id as int].queue@.len() == 0,
                round > 0 ==> no_local_work(self.processors@),
            decreases STEAL_ROUNDS - round,
        {
            let rnd = rng_gen(&mut self.processors[id].rng);
            let ghost before = self.processors@;
            let hdl = self.steal_round(id, rnd);
            if hdl.is_some() {
                proof {
                    let order = before[id as int].rand_order.order(rnd as nat);
                    let k = choose|k: int|
                        #[trigger] first_loaded(before, order, k) && stolen(
                            before,
                            self.processors@,
                            id as int,
                            order[k] as int,
                            hdl->0,
                        );
                    let victim = order[k] as int;
                    assert(stolen(old(self).processors@, self.processors@, id as int, victim, hdl->0));
                    if no_local_work(old(self).processors@) {
                        assert(old(self).processors@[victim].queue@.len() == 0);
                    }
                }
                return hdl;
            }
            round = round + 1;
        }
        let ghost before = self.processors@;
        let next = self.global_queue_get_batch(id);
        proof {
            assert forall|i: int| 0 <= i < old(self).processors@.len() implies (
            #[trigger] old(self).processors@[i]).queue@.len() == 0 by {
                assert(before[i].queue@.len() == 0);
            }
        }
        next
    }

    /// Puts a coroutine that is ready to run at the back of the queue of a processor; tells how
    /// many processors to wake up because something went on to the global queue.
    pub fn ready(&mut self, id: usize, coro: Handle) -> (count: usize)
        requires
            old(self).wf(),
            id < old(self).processors@.len(),
            coro.spec_state() != State::Finished,
        ensures
            final(self).wf(),
            final(self).same_counts(*old(self)),
            made_ready(
                old(self).processors@,
                final(self).processors@,
                old(self).global_queue@,
                final(self).global_queue@,
                id as int,
                coro,
            ),
            count == (if old(self).processors@[id as int].queue@.len() < QUEUE_SIZE {
                0
            } else {
                old(self).to_unpark(final(self).global_queue@.len() / (QUEUE_SIZE as nat / 2) + 1)
            }),
    {
        let ghost before = self.processors@;
        proof {
            before[id as int].queue.lemma_len();
        }
        match self.processors[id].ready(coro) {
            None => 0,
            Some(batch) => self.push_global_queue_iter(batch),
        }
    }

    /// Creates a coroutine on a stack of the processor's pool and makes it ready there; tells
    /// how many times to wake up a processor.
    pub fn spawn_opts(&mut self, id: usize, coro_id: usize, opts: Options) -> (result: Result<
        usize,
        StackUnavailable,
    >)
        requires
            old(self).wf(),
            id < old(self).processors@.len(),
        ensures
            final(self).wf(),
            final(self).same_counts(*old(self)),
            match result {
                Err(unavailable) => spawn_failed(
                    *old(self),
                    *final(self),
                    id as int,
                    opts,
                    unavailable,
                ),
                Ok(count) => {
                    &&& spawned(*old(self), *final(self), id as int, coro_id, opts)
                    &&& count == woken_by_spawn(*old(self), *final(self), id as int)
                },
            },
    {
        proof {
            self.processors@[id as int].queue.lemma_len();
        }
        let result = Coroutine::spawn_opts_with_pool(
            coro_id,
            opts,
            &mut self.processors[id].stack_pool,
        );
        let ghost pool = self.processors@[id as int].stack_pool;
        proof {
            assert(self.processors@ =~= with_pool(old(self).processors@, id as int, pool));
        }
        match result {
            Err(unavailable) => Err(unavailable),
            Ok(coro) => {
                let count = self.spawn_made(id, coro);
                proof {
                    assert(spawned_as(*old(self), *self, id as int, coro_id, opts, coro, pool));
                }
                Ok(count)
            },
        }
    }

    /// Makes a coroutine that was just made ready on a processor; tells how many times to wake up
    /// a processor.
    pub fn spawn_made(&mut self, id: usize, coro: Handle) -> (count: usize)
        requires
            old(self).wf(),
            id < old(self).processors@.len(),
            coro.spec_state() != State::Finished,
        ensures
            final(self).wf(),
            final(self).same_counts(*old(self)),
            made_ready(
                old(self).processors@,
                final(self).processors@,
                old(self).global_queue@,
                final(self).global_queue@,
                id as int,
                coro,
            ),
            count == woken_by_spawn(*old(self), *final(self), id as int),
    {
        proof {
            self.processors@[id as int].queue.lemma_len();
        }
        let pushed = self.ready(id, coro);
        let woken = self.unpark_processor_maybe(1);
        pushed.saturating_add(woken)
    }

    /// The coroutine that a processor is to run: the one that was put aside for it, or the first
    /// one of its queue, or one from elsewhere.
    pub fn next_coroutine(&mut self, id: usize) -> (next: Option<Handle>)
        requires
            old(self).wf(),
            id < old(self).processors@.len(),
        ensures
            final(self).wf(),
            final(self).same_counts(*old(self)),
            picked(
                old(self).processors@,
                final(self).processors@,
                old(self).global_queue@,
                final(self).global_queue@,
                id as int,
                next,
            ),
    {
        let next = self.processors[id].run_next.take();
        if next.is_some() {
            return next;
        }
        proof {
            assert(self.processors@ =~= old(self).processors@);
        }
        let next = self.processors[id].queue.pop_front();
        if next.is_some() {
            return next;
        }
        proof {
            assert(self.processors@ =~= old(self).processors@);
        }
        self.inc_spinning();
        let next = self.fetch_foreign_coroutines(id);
        self.dec_spinning();
        next
    }

    /// One round of a processor on which nothing is running: it leaves if it was told to, else
    /// it runs the next coroutine if there is one, else it waits.
    pub fn schedule(&mut self, id: usize, msg: Option<ProcMessage>) -> (step: ScheduleStep)
        requires
            old(self).wf(),
            id < old(self).processors@.len(),
            old(self).processors@[id as int].current_coro is None,
        ensures
            final(self).wf(),
            scheduled(*old(self), *final(self), id as int, msg, step),
    {
        if let Some(ProcMessage::Shutdown) = msg {
            return ScheduleStep::Leave;
        }
        match self.next_coroutine(id) {
            Some(hdl) => {
                let ghost middle = *self;
                self.processors[id].resume(hdl);
                proof {
                    assert(with_current(self.processors@, id as int, None) =~= middle.processors@);
                    assert(runs_picked_as(*old(self), *self, id as int, hdl));
                }
                ScheduleStep::Run
            },
            None => {
                let ghost middle = *self;
                proof {
                    assert forall|i: int| 0 <= i < middle.processors@.len() implies (
                    #[trigger] middle.processors@[i]).queue@.len() == 0 by {
                        assert(old(self).processors@[i].queue@.len() == 0);
                    }
                }
                let step = self.park_processor(id);
                proof {
                    assert(self.processors@[id as int].run_next is None);
                    assert(with_run_next(self.processors@, id as int, None) =~= self.processors@);
                }
                step
            },
        }
    }

    /// A processor that has found nothing is counted as waiting. It waits unless it may not, or
    /// unless there is work after all, which it then puts aside.
    pub fn park_processor(&mut self, id: usize) -> (step: ScheduleStep)
        requires
            old(self).wf(),
            id < old(self).processors@.len(),
            old(self).processors@[id as int].run_next is None,
            old(self).processors@[id as int].queue@.len() == 0,
        ensures
            final(self).wf(),
            final(self).stopping == old(self).stopping,
            final(self).spinning_processor_count == old(self).spinning_processor_count,
            final(self).idle_processor_count == (if step == ScheduleStep::Park {
                old(self).idle_processor_count.wrapping_add(1)
            } else {
                old(self).idle_processor_count
            }),
            step == (if old(self).stopping || old(self).has_work(id as int) {
                ScheduleStep::Again
            } else {
                ScheduleStep::Park
            }),
            final(self).processors@.len() == old(self).processors@.len(),
            old(self).stopping ==> {
                &&& final(self).processors == old(self).processors
                &&& final(self).global_queue == old(self).global_queue
            },
            !old(self).stopping ==> fetched(
                old(self).processors@,
                with_run_next(final(self).processors@, id as int, None),
                old(self).global_queue@,
                final(self).global_queue@,
                id as int,
                final(self).processors@[id as int].run_next,
            ),
    {
        self.idle_processor_count = self.idle_processor_count.wrapping_add(1);
        if !self.stopping {
            let next = self.fetch_foreign_coroutines(id);
            let ghost middle = *self;
            let waits = next.is_none();
            self.processors[id].run_next = next;
            proof {
                assert(with_run_next(self.processors@, id as int, None) =~= middle.processors@);
            }
            if waits {
                return ScheduleStep::Park;
            }
        }
        self.unparked();
        ScheduleStep::Again
    }

    /// A processor does not wait any more.
    pub fn unparked(&mut self)
        ensures
            *final(self) == (Machines {
                idle_processor_count: old(self).idle_processor_count.wrapping_sub(1),
                ..*old(self)
            }),
    {
        self.idle_processor_count = self.idle_processor_count.wrapping_sub(1);
    }

    /// From now on no processor may wait.
    pub fn stop(&mut self)
        ensures
            *final(self) == (Machines { stopping: true, ..*old(self) }),
    {
        self.stopping = true;
    }

    /// What follows when the coroutine of a processor has yielded. One that was parked is gone.
    /// One that was suspended goes to the back of the queue, and if it would be the only one
    /// there, coroutines from elsewhere are fetched first, so that it is not continued at once.
    /// One that has finished is dropped, and its stack goes to the pool. Tells how many
    /// processors to wake up.
    pub fn yielded(&mut self, id: usize) -> (count: usize)
        requires
            old(self).wf(),
            id < old(self).processors@.len(),
            old(self).processors@[id as int].run_next is None,
            old(self).processors@[id as int].can_be_put_away(),
        ensures
            final(self).wf(),
            final(self).same_counts(*old(self)),
            put_away(*old(self), *final(self), id as int, count),
    {
        let ghost before = with_current(self.processors@, id as int, None);
        let current = self.processors[id].current_coro.take();
        proof {
            assert(self.processors@ =~= before);
            before[id as int].queue.lemma_len();
        }
        match current {
            None => 0,
            Some(coro) => match coro.state() {
                State::Finished => {
                    coro.exit(Some(&mut self.processors[id].stack_pool));
                    proof {
                        assert(self.processors@ =~= with_pool(
                            before,
                            id as int,
                            self.processors@[id as int].stack_pool,
                        ));
                    }
                    0
                },
                _ => {
                    if self.processors[id].queue.is_empty() {
                        let next = self.fetch_foreign_coroutines(id);
                        let ghost fetched_procs = self.processors@;
                        proof {
                            lemma_fetched_leaves_room(
                                before,
                                fetched_procs,
                                old(self).global_queue@,
                                self.global_queue@,
                                id as int,
                                next,
                            );
                        }
                        let count = self.ready(id, coro);
                        let ghost readied = self.processors@;
                        self.processors[id].run_next = next;
                        proof {
                            assert(with_run_next(self.processors@, id as int, None) =~= readied);
                            assert(fetched_then_ready(
                                before,
                                fetched_procs,
                                self.processors@,
                                old(self).global_queue@,
                                self.global_queue@,
                                id as int,
                                coro,
                            ));
                        }
                        count
                    } else {
                        self.ready(id, coro)
                    }
                },
            },
        }
    }

    /// Takes everything off a processor that is shut down: first what it was to run next, then
    /// its queue from the back. All of it is to be unwound.
    pub fn shutdown(&mut self, id: usize) -> (pending: Vec<Handle>)
        requires
            old(self).wf(),
            id < old(self).processors@.len(),
        ensures
            final(self).wf(),
            final(self).same_counts(*old(self)),
            final(self).global_queue == old(self).global_queue,
            same_elsewhere(old(self).processors@, final(self).processors@, id as int),
            ({
                let before = old(self).processors@[id as int];
                let after = final(self).processors@[id as int];
                &&& after == (Processor { queue: after.queue, run_next: None, ..before })
                &&& after.queue@.len() == 0
                &&& pending@ == (match before.run_next {
                    Some(hdl) => seq![hdl],
                    None => Seq::empty(),
                }) + before.queue@.reverse()
            }),
    {
        let ghost before = self.processors@[id as int];
        let mut pending: Vec<Handle> = Vec::new();
        if let Some(hdl) = self.processors[id].run_next.take() {
            pending.push(hdl);
        }
        let ghost first = pending@;
        proof {
            assert(pending@ =~= first + before.queue@.reverse().take(0));
        }
        loop
            invariant
                self.wf(),
                id < self.processors@.len(),
                self.same_counts(*old(self)),
                self.global_queue == old(self).global_queue,
                same_elsewhere(old(self).processors@, self.processors@, id as int),
                before == old(self).processors@[id as int],
                self.processors@[id as int] == (Processor {
                    queue: self.processors@[id as int].queue,
                    run_next: None,
                    ..before
                }),
                self.processors@[id as int].queue@.len() <= before.queue@.len(),
                self.processors@[id as int].queue@ == before.queue@.take(
                    self.processors@[id as int].queue@.len() as int,
                ),
                pending@ == first + before.queue@.reverse().take(
                    before.queue@.len() - self.processors@[id as int].queue@.len(),
                ),
            ensures
                self.processors@[id as int].queue@.len() == 0,
            decreases self.processors@[id as int].queue@.len(),
        {
            let ghost left = self.processors@[id as int].queue@;
            match self.processors[id].queue.pop_back() {
                Some(hdl) => {
                    pending.push(hdl);
                    proof {
                        let n = left.len() as int - 1;
                        assert(self.processors@[id as int].queue@ =~= before.queue@.take(n));
                        assert(pending@ =~= first + before.queue@.reverse().take(
                            before.queue@.len() - n,
                        ));
                    }
                },
                None => {
                    break;
                },
            }
        }
        proof {
            let all = before.queue@.reverse();
            assert(all.take(all.len() as int) =~= all);
        }
        pending
    }

    /// One more processor is looking for work.
    pub fn inc_spinning(&mut self)
        ensures
            *final(self) == (Machines {
                spinning_processor_count: old(self).spinning_processor_count.wrapping_add(1),
                ..*old(self)
            }),
    {
        self.spinning_processor_count = self.spinning_processor_count.wrapping_add(1);
    }

    /// One processor less is looking for work.
    pub fn dec_spinning(&mut self)
        ensures
            *final(self) == (Machines {
                spinning_processor_count: old(self).spinning_processor_count.wrapping_sub(1),
                ..*old(self)
            }),
    {
        self.spinning_processor_count = self.spinning_processor_count.wrapping_sub(1);
    }
}

/// A batch was taken from the global queue: `next` is its first coroutine, and those behind it
/// are at the back of the local queue.
pub open spec fn taken_from_global(
    before: Seq<Processor>,
    after: Seq<Processor>,
    global_before: Seq<Handle>,
    global_after: Seq<Handle>,
    id: int,
    next: Handle,
) -> bool {
    let local = before[id].queue@;
    let rest = global_before.drop_first();
    let n = batch_size(global_before.len(), before.len(), local.len()) as int;
    &&& global_before.len() > 0
    &&& next == global_before[0]
    &&& global_after == rest.skip(n)
    &&& after.len() == before.len()
    &&& after[id].same_but_queue_and_rng(before[id])
    &&& after[id].queue@ == local + rest.take(n)
    &&& forall|i: int| 0 <= i < before.len() && i != id ==> #[trigger] after[i] == before[i]
}

/// Nothing but the random numbers of processor `id` has changed.
pub open spec fn same_but_rng(before: Seq<Processor>, after: Seq<Processor>, id: int) -> bool {
    &&& after.len() == before.len()
    &&& after[id] == (Processor { rng: after[id].rng, ..before[id] })
    &&& forall|i: int| 0 <= i < before.len() && i != id ==> #[trigger] after[i] == before[i]
}

/// What a processor with an empty queue gets from elsewhere: half the queue of another processor
/// if any has something in it, else a batch from the global queue if there is one.
pub open spec fn fetched(
    before: Seq<Processor>,
    after: Seq<Processor>,
    global_before: Seq<Handle>,
    global_after: Seq<Handle>,
    id: int,
    next: Option<Handle>,
) -> bool {
    match next {
        None => {
            &&& no_local_work(before)
            &&& global_before.len() == 0
            &&& same_but_rng(before, after, id)
            &&& global_after == global_before
        },
        Some(hdl) => if no_local_work(before) {
            taken_from_global(before, after, global_before, global_after, id, hdl)
        } else {
            &&& global_after == global_before
            &&& exists|victim: int| #[trigger] stolen(before, after, id, victim, hdl)
        },
    }
}

/// All processors but one are as before.
pub open spec fn same_elsewhere(before: Seq<Processor>, after: Seq<Processor>, id: int) -> bool {
    &&& after.len() == before.len()
    &&& forall|i: int| 0 <= i < before.len() && i != id ==> #[trigger] after[i] == before[i]
}

/// The processors, one of them with another pool.
pub open spec fn with_pool(processors: Seq<Processor>, id: int, pool: StackPool) -> Seq<Processor> {
    processors.update(id, Processor { stack_pool: pool, ..processors[id] })
}

/// The processors, one of them with another running coroutine.
pub open spec fn with_current(
    processors: Seq<Processor>,
    id: int,
    current: Option<Handle>,
) -> Seq<Processor> {
    processors.update(id, Processor { current_coro: current, ..processors[id] })
}

/// The processors, one of them with another coroutine put aside.
pub open spec fn with_run_next(
    processors: Seq<Processor>,
    id: int,
    next: Option<Handle>,
) -> Seq<Processor> {
    processors.update(id, Processor { run_next: next, ..processors[id] })
}

/// A coroutine became ready on a processor: it is at the back of the queue, or, if that was full,
/// in the global queue behind the first half of the local one.
pub open spec fn made_ready(
    before: Seq<Processor>,
    after: Seq<Processor>,
    global_before: Seq<Handle>,
    global_after: Seq<Handle>,
    id: int,
    coro: Handle,
) -> bool {
    let queue = before[id].queue@;
    let mid = QUEUE_SIZE as int / 2;
    &&& same_elsewhere(before, after, id)
    &&& after[id].same_but_queue(before[id])
    &&& if queue.len() < QUEUE_SIZE {
        &&& after[id].queue@ == queue.push(coro)
        &&& global_after == global_before
    } else {
        &&& after[id].queue@ == queue.skip(mid)
        &&& global_after == global_before + queue.take(mid).push(coro)
    }
}

/// A new coroutine is ready on a processor.
pub open spec fn spawned(
    before: Machines,
    after: Machines,
    id: int,
    coro_id: usize,
    opts: Options,
) -> bool {
    exists|coro: Handle, pool: StackPool| #[trigger]
        spawned_as(before, after, id, coro_id, opts, coro, pool)
}

/// A new coroutine, on a stack from the pool, is ready on a processor.
pub open spec fn spawned_as(
    before: Machines,
    after: Machines,
    id: int,
    coro_id: usize,
    opts: Options,
    coro: Handle,
    pool: StackPool,
) -> bool {
    &&& coro.created(coro_id, opts)
    &&& before.processors@[id].stack_pool.allocated(
        pool,
        opts.stack_size,
        coro.spec_coro().spec_stack(),
    )
    &&& made_ready(
        with_pool(before.processors@, id, pool),
        after.processors@,
        before.global_queue@,
        after.global_queue@,
        id,
        coro,
    )
}

/// There was no stack for a new coroutine.
pub open spec fn spawn_failed(
    before: Machines,
    after: Machines,
    id: int,
    opts: Options,
    unavailable: StackUnavailable,
) -> bool {
    let pool = after.processors@[id].stack_pool;
    &&& unavailable.size == opts.stack_size
    &&& before.processors@[id].stack_pool.allocated(pool, opts.stack_size, None)
    &&& after.processors@ == with_pool(before.processors@, id, pool)
    &&& after.global_queue == before.global_queue
}

/// How many times to wake up a processor for a new coroutine: once for the coroutine, and for
/// what moved to the global queue if the local one was full.
pub open spec fn woken_by_spawn(before: Machines, after: Machines, id: int) -> nat {
    saturated(
        before.to_unpark(1) + if before.processors@[id].queue@.len() == QUEUE_SIZE {
            before.to_unpark(after.global_queue@.len() / (QUEUE_SIZE as nat / 2) + 1)
        } else {
            0
        },
    )
}

/// The number, or the largest one that can be represented.
pub open spec fn saturated(n: nat) -> nat {
    if n > usize::MAX {
        usize::MAX as nat
    } else {
        n
    }
}

/// What a processor is to run next: what was put aside, else the first of its queue, else what
/// can be had elsewhere.
pub open spec fn picked(
    before: Seq<Processor>,
    after: Seq<Processor>,
    global_before: Seq<Handle>,
    global_after: Seq<Handle>,
    id: int,
    next: Option<Handle>,
) -> bool {
    if before[id].run_next is Some {
        &&& next == before[id].run_next
        &&& after == with_run_next(before, id, None)
        &&& global_after == global_before
    } else if before[id].queue@.len() > 0 {
        &&& next == Some(before[id].queue@.first())
        &&& same_elsewhere(before, after, id)
        &&& after[id].same_but_queue(before[id])
        &&& after[id].queue@ == before[id].queue@.drop_first()
        &&& global_after == global_before
    } else {
        fetched(before, after, global_before, global_after, id, next)
    }
}

/// What one round of a processor on which nothing is running comes to.
pub open spec fn scheduled(
    before: Machines,
    after: Machines,
    id: int,
    msg: Option<ProcMessage>,
    step: ScheduleStep,
) -> bool {
    &&& after.stopping == before.stopping
    &&& after.spinning_processor_count == before.spinning_processor_count
    &&& after.idle_processor_count == (if step == ScheduleStep::Park {
        before.idle_processor_count.wrapping_add(1)
    } else {
        before.idle_processor_count
    })
    &&& step == (if msg is Some {
        ScheduleStep::Leave
    } else if before.has_work(id) {
        ScheduleStep::Run
    } else if before.stopping {
        ScheduleStep::Again
    } else {
        ScheduleStep::Park
    })
    &&& step == ScheduleStep::Leave ==> after == before
    &&& step == ScheduleStep::Run ==> runs_picked(before, after, id)
    &&& step == ScheduleStep::Again || step == ScheduleStep::Park ==> {
        &&& same_but_rng(before.processors@, after.processors@, id)
        &&& after.global_queue@ == before.global_queue@
    }
}

/// The coroutine that was picked is running.
pub open spec fn runs_picked(before: Machines, after: Machines, id: int) -> bool {
    exists|hdl: Handle| #[trigger] runs_picked_as(before, after, id, hdl)
}

/// This coroutine was picked and is running.
pub open spec fn runs_picked_as(before: Machines, after: Machines, id: int, hdl: Handle) -> bool {
    &&& after.processors@.len() == before.processors@.len()
    &&& after.processors@[id].current_coro matches Some(coro) && coro.moved_to(hdl, State::Running)
    &&& picked(
        before.processors@,
        with_current(after.processors@, id, None),
        before.global_queue@,
        after.global_queue@,
        id,
        Some(hdl),
    )
}

/// A coroutine was suspended on a processor with an empty queue: it is at the back of the queue,
/// behind what could be had elsewhere.
pub open spec fn suspended_alone(
    before: Seq<Processor>,
    after: Seq<Processor>,
    global_before: Seq<Handle>,
    global_after: Seq<Handle>,
    id: int,
    coro: Handle,
) -> bool {
    exists|middle: Seq<Processor>| #[trigger]
        fetched_then_ready(before, middle, after, global_before, global_after, id, coro)
}

/// What becomes of the coroutine of a processor that has yielded, and how many processors are to
/// be woken up for that.
pub open spec fn put_away(before: Machines, after: Machines, id: int, count: usize) -> bool {
    let bare = with_current(before.processors@, id, None);
    let now = after.processors@;
    &&& now.len() == bare.len()
    &&& now[id].current_coro is None
    &&& match before.processors@[id].current_coro {
        None => {
            &&& now == bare
            &&& after.global_queue == before.global_queue
            &&& count == 0
        },
        Some(coro) => if coro.spec_state() == State::Finished {
            &&& now == with_pool(bare, id, now[id].stack_pool)
            &&& bare[id].stack_pool.taken_back(
                now[id].stack_pool,
                coro.spec_coro().spec_stack()->0,
            )
            &&& after.global_queue == before.global_queue
            &&& count == 0
        } else if bare[id].queue@.len() > 0 {
            &&& made_ready(bare, now, before.global_queue@, after.global_queue@, id, coro)
            &&& count == (if bare[id].queue@.len() < QUEUE_SIZE {
                0
            } else {
                before.to_unpark(after.global_queue@.len() / (QUEUE_SIZE as nat / 2) + 1)
            })
        } else {
            &&& suspended_alone(bare, now, before.global_queue@, after.global_queue@, id, coro)
            &&& count == 0
        },
    }
}

/// First coroutines were fetched from elsewhere, one of which is put aside, then one became
/// ready.
pub open spec fn fetched_then_ready(
    before: Seq<Processor>,
    middle: Seq<Processor>,
    after: Seq<Processor>,
    global_before: Seq<Handle>,
    global_after: Seq<Handle>,
    id: int,
    coro: Handle,
) -> bool {
    &&& after.len() == before.len()
    &&& fetched(before, middle, global_before, global_after, id, after[id].run_next)
    &&& middle[id].queue@.len() < QUEUE_SIZE
    &&& made_ready(
        middle,
        with_run_next(after, id, None),
        global_after,
        global_after,
        id,
        coro,
    )
}

/// What is fetched never fills the queue.
proof fn lemma_fetched_leaves_room(
    before: Seq<Processor>,
    after: Seq<Processor>,
    global_before: Seq<Handle>,
    global_after: Seq<Handle>,
    id: int,
    next: Option<Handle>,
)
    requires
        0 <= id < before.len(),
        before[id].queue@.len() == 0,
        forall|i: int| 0 <= i < before.len() ==> (#[trigger] before[i]).wf(),
        fetched(before, after, global_before, global_after, id, next),
    ensures
        after[id].queue@.len() < QUEUE_SIZE,
{
    if next is Some && !no_local_work(before) {
        let victim = choose|victim: int| #[trigger] stolen(before, after, id, victim, next->0);
        before[victim].queue.lemma_len();
    }
}

/// When only one queue changes, the coroutines in the local queues change by as much.
pub proof fn lemma_one_queue_changes(before: Seq<Processor>, after: Seq<Processor>, id: int)
    requires
        0 <= id < before.len(),
        same_elsewhere(before, after, id),
    ensures
        in_local_queues(after).add(before[id].queue@.to_multiset()) == in_local_queues(before).add(
            after[id].queue@.to_multiset(),
        ),
    decreases before.len(),
{
    let last = before.len() - 1;
    if id == last {
        assert(before.drop_last() =~= after.drop_last());
        assert(in_local_queues(after).add(before[id].queue@.to_multiset()) =~= in_local_queues(
            before,
        ).add(after[id].queue@.to_multiset()));
    } else {
        lemma_one_queue_changes(before.drop_last(), after.drop_last(), id);
        let b = in_local_queues(before.drop_last());
        let a = in_local_queues(after.drop_last());
        let q = before.last().queue@.to_multiset();
        assert(after.last() == before.last());
        assert(a.add(q).add(before[id].queue@.to_multiset()) =~= a.add(
            before[id].queue@.to_multiset(),
        ).add(q));
        assert(b.add(q).add(after[id].queue@.to_multiset()) =~= b.add(
            after[id].queue@.to_multiset(),
        ).add(q));
    }
}

/// When no queue changes, the coroutines in the local queues stay the same.
pub proof fn lemma_no_queue_changes(before: Seq<Processor>, after: Seq<Processor>)
    requires
        before.len() == after.len(),
        forall|i: int| 0 <= i < before.len() ==> (#[trigger] after[i]).queue@ == before[i].queue@,
    ensures
        in_local_queues(after) == in_local_queues(before),
    decreases before.len(),
{
    if before.len() > 0 {
        assert(after.last().queue@ == before.last().queue@);
        assert forall|i: int| 0 <= i < before.drop_last().len() implies (
        #[trigger] after.drop_last()[i]).queue@ == before.drop_last()[i].queue@ by {
            assert(after[i].queue@ == before[i].queue@);
        }
        lemma_no_queue_changes(before.drop_last(), after.drop_last());
    }
}

/// The coroutines in two parts of a sequence are those of the whole.
proof fn lemma_split(queue: Seq<Handle>, n: int)
    requires
        0 <= n <= queue.len(),
    ensures
        queue.to_multiset() == queue.take(n).to_multiset().add(queue.skip(n).to_multiset()),
{
    assert(queue =~= queue.take(n) + queue.skip(n));
    vstd::seq_lib::lemma_multiset_commutative(queue.take(n), queue.skip(n));
}

/// Fetching coroutines from elsewhere neither loses nor doubles any: all those that were queued,
/// here, there or in the global queue, still are, but for the one that is to run.
pub proof fn fetching_keeps_every_coroutine(
    before: Seq<Processor>,
    after: Seq<Processor>,
    global_before: Seq<Handle>,
    global_after: Seq<Handle>,
    id: int,
    next: Option<Handle>,
)
    requires
        0 <= id < before.len(),
        before[id].queue@.len() == 0,
        fetched(before, after, global_before, global_after, id, next),
    ensures
        in_local_queues(before).add(global_before.to_multiset()) == in_local_queues(after).add(
            global_after.to_multiset(),
        ).add(
            match next {
                Some(hdl) => Multiset::singleton(hdl),
                None => Multiset::empty(),
            },
        ),
{
    broadcast use vstd::seq_lib::group_to_multiset_ensures;

    match next {
        None => {
            lemma_no_queue_changes(before, after);
        },
        Some(hdl) => {
            if no_local_work(before) {
                let rest = global_before.drop_first();
                let n = batch_size(global_before.len(), before.len(), 0) as int;
                lemma_one_queue_changes(before, after, id);
                lemma_split(rest, n);
                assert(before[id].queue@ + rest.take(n) =~= rest.take(n));
                lemma_split(global_before, 1);
                assert(global_before.take(1) =~= Seq::<Handle>::empty().push(hdl));
                assert(global_before.skip(1) =~= rest);
                assert(before[id].queue@ =~= Seq::<Handle>::empty());
                assert(in_local_queues(after) =~= in_local_queues(before).add(
                    rest.take(n).to_multiset(),
                ));
                assert(in_local_queues(before).add(global_before.to_multiset())
                    =~= in_local_queues(after).add(global_after.to_multiset()).add(
                    Multiset::singleton(hdl),
                ));
            } else {
                let victim = choose|victim: int| #[trigger] stolen(before, after, id, victim, hdl);
                let loot = before[victim].queue@;
                let n = half(loot.len()) as int;
                let middle = before.update(victim, after[victim]);
                lemma_one_queue_changes(before, middle, victim);
                lemma_one_queue_changes(middle, after, id);
                lemma_split(loot, n);
                assert(loot.take(n) =~= loot.take(n - 1).push(hdl));
                let a = in_local_queues(after);
                let m = in_local_queues(middle);
                let b = in_local_queues(before);
                assert(a =~= m.add(loot.take(n - 1).to_multiset()));
                assert(b =~= m.add(loot.take(n).to_multiset())) by {
                    assert forall|h: Handle| #[trigger] b.count(h) == m.add(
                        loot.take(n).to_multiset(),
                    ).count(h) by {
                        assert(m.add(loot.to_multiset()).count(h) == b.add(
                            loot.skip(n).to_multiset(),
                        ).count(h));
                    }
                }
                assert(b.add(global_before.to_multiset()) =~= a.add(
                    global_after.to_multiset(),
                ).add(Multiset::singleton(hdl)));
            }
        },
    }
}

/// Making a coroutine ready queues it once and leaves all others queued.
pub proof fn making_ready_keeps_every_coroutine(
    before: Seq<Processor>,
    after: Seq<Processor>,
    global_before: Seq<Handle>,
    global_after: Seq<Handle>,
    id: int,
    coro: Handle,
)
    requires
        0 <= id < before.len(),
        before[id].queue@.len() <= QUEUE_SIZE,
        made_ready(before, after, global_before, global_after, id, coro),
    ensures
        in_local_queues(after).add(global_after.to_multiset()) == in_local_queues(before).add(
            global_before.to_multiset(),
        ).insert(coro),
{
    broadcast use vstd::seq_lib::group_to_multiset_ensures;

    let queue = before[id].queue@;
    let a = in_local_queues(after);
    let b = in_local_queues(before);
    lemma_one_queue_changes(before, after, id);
    if queue.len() < QUEUE_SIZE {
        assert(a =~= b.insert(coro)) by {
            assert forall|h: Handle| #[trigger] a.count(h) == b.insert(coro).count(h) by {
                assert(a.add(queue.to_multiset()).count(h) == b.add(
                    queue.push(coro).to_multiset(),
                ).count(h));
            }
        }
    } else {
        let mid = QUEUE_SIZE as int / 2;
        let moved = queue.take(mid).push(coro);
        lemma_split(queue, mid);
        vstd::seq_lib::lemma_multiset_commutative(global_before, moved);
        assert forall|h: Handle| #[trigger]
            a.add(global_after.to_multiset()).count(h) == b.add(
                global_before.to_multiset(),
            ).insert(coro).count(h) by {
            assert(a.add(queue.to_multiset()).count(h) == b.add(
                queue.skip(mid).to_multiset(),
            ).count(h));
        }
    }
    assert(a.add(global_after.to_multiset()) =~= b.add(global_before.to_multiset()).insert(coro));
}

/// A coroutine that gives way while others wait somewhere is not the next one to run.
pub proof fn suspended_coroutine_gives_way(
    before: Seq<Processor>,
    after: Seq<Processor>,
    global_before: Seq<Handle>,
    global_after: Seq<Handle>,
    id: int,
    coro: Handle,
)
    requires
        0 <= id < before.len(),
        before[id].queue@.len() == 0,
        suspended_alone(before, after, global_before, global_after, id, coro),
        !no_local_work(before) || global_before.len() > 0,
    ensures
        after[id].run_next is Some,
        after[id].queue@.len() > 0,
        after[id].queue@.last() == coro,
{
}

/// A batch from the global queue is as large as it may be: not larger than the processor's share
/// and one more, than half a local queue, than half of the free places, rounded up, and than what
/// is there behind the first one; and one more would be too many for one of these.
pub proof fn batch_is_as_large_as_it_may_be(global_len: nat, machines: nat, local_len: nat, n: nat)
    requires
        global_len > 0,
        machines > 0,
        local_len <= QUEUE_SIZE,
    ensures
        n <= batch_size(global_len, machines, local_len) <==> {
            &&& n <= global_len / machines + 1
            &&& n <= QUEUE_SIZE / 2
            &&& n <= (QUEUE_SIZE - local_len + 1) / 2
            &&& n + 1 <= global_len
        },
        local_len + batch_size(global_len, machines, local_len) <= QUEUE_SIZE,
{
}

/// The global queue is served from the front: its first coroutine is the one to run, those behind
/// it follow at the back of the local queue, in their order, and the rest stays.
pub proof fn global_queue_is_served_in_order(
    before: Seq<Processor>,
    after: Seq<Processor>,
    global_before: Seq<Handle>,
    global_after: Seq<Handle>,
    id: int,
    next: Handle,
)
    requires
        0 <= id < before.len(),
        before[id].queue@.len() <= QUEUE_SIZE,
        taken_from_global(before, after, global_before, global_after, id, next),
    ensures
        global_before.len() > 0,
        next == global_before[0],
        before[id].queue@ + global_before == before[id].queue@ + seq![next] + after[id].queue@.skip(
            before[id].queue@.len() as int,
        ) + global_after,
        after[id].queue@.take(before[id].queue@.len() as int) == before[id].queue@,
        after[id].queue@.len() <= QUEUE_SIZE,
        after[id].run_next == before[id].run_next,
        after[id].current_coro == before[id].current_coro,
        forall|i: int| 0 <= i < before.len() && i != id ==> #[trigger] after[i] == before[i],
{
    let local = before[id].queue@;
    let rest = global_before.drop_first();
    let n = batch_size(global_before.len(), before.len(), local.len()) as int;
    batch_is_as_large_as_it_may_be(global_before.len(), before.len(), local.len(), n as nat);
    assert(after[id].queue@.skip(local.len() as int) =~= rest.take(n));
    assert(after[id].queue@.take(local.len() as int) =~= local);
    assert(local + global_before =~= local + seq![next] + rest.take(n) + global_after);
}

/// A thief takes from the front of the victim's queue: what it has then, followed by what it runs,
/// followed by what it left, is what was there. It does not leave more than it takes, nor take
/// more than one more than it leaves.
pub proof fn thief_takes_the_older_half(
    before: Seq<Processor>,
    after: Seq<Processor>,
    thief: int,
    victim: int,
    next: Handle,
)
    requires
        0 <= thief < before.len(),
        stolen(before, after, thief, victim, next),
    ensures
        before[victim].queue@ == after[thief].queue@ + seq![next] + after[victim].queue@,
        after[victim].queue@.len() <= after[thief].queue@.len() + 1 <= after[victim].queue@.len()
            + 1,
        after[thief].run_next == before[thief].run_next,
        after[thief].current_coro == before[thief].current_coro,
        after[victim].run_next == before[victim].run_next,
        after[victim].current_coro == before[victim].current_coro,
        forall|i: int|
            0 <= i < before.len() && i != thief && i != victim ==> #[trigger] after[i] == before[i],
{
    let loot = before[victim].queue@;
    let n = half(loot.len()) as int;
    assert(loot =~= loot.take(n - 1) + seq![next] + loot.skip(n));
}

/// As long as any coroutine is queued anywhere, a processor that looks for one finds one.
pub proof fn work_is_found_wherever_it_is(
    before: Seq<Processor>,
    after: Seq<Processor>,
    global_before: Seq<Handle>,
    global_after: Seq<Handle>,
    id: int,
    next: Option<Handle>,
)
    requires
        0 <= id < before.len(),
        picked(before, after, global_before, global_after, id, next),
    ensures
        next is None ==> {
            &&& before[id].run_next is None
            &&& forall|i: int| 0 <= i < before.len() ==> (#[trigger] before[i]).queue@.len() == 0
            &&& global_before.len() == 0
        },
        next is Some ==> {
            ||| next == before[id].run_next
            ||| exists|i: int|
                0 <= i < before.len() && (#[trigger] before[i]).queue@.contains(next->0)
            ||| global_before.contains(next->0)
        },
{
    if next is Some && before[id].run_next is None {
        let hdl = next->0;
        if before[id].queue@.len() > 0 {
            assert(before[id].queue@[0] == hdl);
            assert(before[id].queue@.contains(hdl));
        } else if no_local_work(before) {
            assert(global_before[0] == hdl);
        } else {
            let victim = choose|victim: int| #[trigger] stolen(before, after, id, victim, hdl);
            let loot = before[victim].queue@;
            assert(loot[half(loot.len()) - 1] == hdl);
            assert(before[victim].queue@.contains(hdl));
        }
    }
}

/// A processor first runs what was put aside for it, then what has been in its queue longest, and
/// only looks elsewhere when its own queue is empty.
pub proof fn own_work_comes_first(
    before: Seq<Processor>,
    after: Seq<Processor>,
    global_before: Seq<Handle>,
    global_after: Seq<Handle>,
    id: int,
    next: Option<Handle>,
)
    requires
        0 <= id < before.len(),
        picked(before, after, global_before, global_after, id, next),
    ensures
        before[id].run_next is Some ==> {
            &&& next == before[id].run_next
            &&& after[id].run_next is None
            &&& after[id].queue@ == before[id].queue@
        },
        before[id].run_next is None && before[id].queue@.len() > 0 ==> {
            &&& next is Some
            &&& before[id].queue@ == seq![next->0] + after[id].queue@
        },
        before[id].run_next is Some || before[id].queue@.len() > 0 ==> {
            &&& global_after == global_before
            &&& forall|i: int| 0 <= i < before.len() && i != id ==> #[trigger] after[i] == before[i]
        },
{
    if before[id].run_next is None && before[id].queue@.len() > 0 {
        assert(seq![next->0] + after[id].queue@ =~= before[id].queue@);
    }
}

/// A coroutine that becomes ready runs after all that were queued on its processor before. If it
/// has to move on to the global queue, the older half of the local queue goes there before it.
pub proof fn ready_coroutine_is_queued_last(
    before: Seq<Processor>,
    after: Seq<Processor>,
    global_before: Seq<Handle>,
    global_after: Seq<Handle>,
    id: int,
    coro: Handle,
)
    requires
        0 <= id < before.len(),
        before[id].queue@.len() <= QUEUE_SIZE,
        made_ready(before, after, global_before, global_after, id, coro),
    ensures
        before[id].queue@.len() < QUEUE_SIZE ==> {
            &&& after[id].queue@ == before[id].queue@ + seq![coro]
            &&& global_after == global_before
        },
        before[id].queue@.len() == QUEUE_SIZE ==> {
            let moved = global_after.len() - global_before.len() - 1;
            &&& moved == after[id].queue@.len()
            &&& global_after.last() == coro
            &&& global_after.drop_last() + after[id].queue@ == global_before + before[id].queue@
        },
        after[id].run_next == before[id].run_next,
        after[id].current_coro == before[id].current_coro,
        forall|i: int| 0 <= i < before.len() && i != id ==> #[trigger] after[i] == before[i],
{
    if before[id].queue@.len() < QUEUE_SIZE {
        assert(after[id].queue@ =~= before[id].queue@ + seq![coro]);
    } else {
        assert(global_after.drop_last() + after[id].queue@ =~= global_before + before[id].queue@);
    }
}

/// Nobody is woken up while somebody looks for work already. Else as many are as there can be: not
/// more than wait, and not more than are asked for.
pub proof fn as_many_are_woken_as_can_be(machines: Machines, max: nat, n: nat)
    ensures
        machines.spinning_processor_count > 0 ==> machines.to_unpark(max) == 0,
        machines.spinning_processor_count == 0 ==> (n <= machines.to_unpark(max) <==> n
            <= machines.idle_processor_count && n <= max),
{
}

/// Work that anybody can do does not wait for a processor that sleeps: if one waits and none looks
/// for work, a new coroutine wakes one up. Nobody is woken up in vain who does not wait, except
/// that whoever is needed for what moved to the global queue is counted on its own.
pub proof fn new_coroutine_wakes_up_a_processor(before: Machines, after: Machines, id: int)
    requires
        0 <= id < before.processors@.len(),
    ensures
        before.spinning_processor_count > 0 || before.idle_processor_count == 0
            ==> woken_by_spawn(before, after, id) == 0,
        before.spinning_processor_count == 0 && before.idle_processor_count > 0
            ==> woken_by_spawn(before, after, id) > 0,
        before.spinning_processor_count == 0 && before.idle_processor_count > 0
            && before.processors@[id].queue@.len() < QUEUE_SIZE ==> woken_by_spawn(before, after, id)
            == 1,
        woken_by_spawn(before, after, id) <= 1 + before.idle_processor_count,
{
}

/// There is something to run if and only if a coroutine was put aside for the processor, or one is
/// in any queue.
pub proof fn there_is_work_if_anything_is_queued(machines: Machines, id: int)
    ensures
        !machines.has_work(id) <==> {
            &&& machines.processors@[id].run_next is None
            &&& forall|i: int|
                0 <= i < machines.processors@.len() ==> (
                #[trigger] machines.processors@[i]).queue@ == Seq::<Handle>::empty()
            &&& machines.global_queue@ == Seq::<Handle>::empty()
        },
{
    if !machines.has_work(id) {
        assert forall|i: int| 0 <= i < machines.processors@.len() implies (
        #[trigger] machines.processors@[i]).queue@ == Seq::<Handle>::empty() by {
            assert(machines.processors@[i].queue@.len() == 0);
            assert(machines.processors@[i].queue@ =~= Seq::<Handle>::empty());
        }
        assert(machines.global_queue@ =~= Seq::<Handle>::empty());
    }
}

/// A processor waits only when there is nothing at all to run, for itself or for anyone, and when it
/// may wait; then it is counted as waiting. As long as anything is queued anywhere, it runs
/// something. If it was told to leave it does so, and leaves everything as it is.
pub proof fn processor_waits_only_without_work(
    before: Machines,
    after: Machines,
    id: int,
    msg: Option<ProcMessage>,
    step: ScheduleStep,
)
    requires
        0 <= id < before.processors@.len(),
        before.idle_processor_count < usize::MAX,
        scheduled(before, after, id, msg, step),
    ensures
        msg is Some ==> step == ScheduleStep::Leave && after == before,
        msg is None ==> step != ScheduleStep::Leave,
        step == ScheduleStep::Park ==> {
            &&& !before.stopping
            &&& before.processors@[id].run_next is None
            &&& forall|i: int|
                0 <= i < before.processors@.len() ==> (
                #[trigger] before.processors@[i]).queue@.len() == 0
            &&& before.global_queue@.len() == 0
            &&& after.idle_processor_count == before.idle_processor_count + 1
        },
        step != ScheduleStep::Park ==> after.idle_processor_count == before.idle_processor_count,
        after.stopping == before.stopping,
        after.spinning_processor_count == before.spinning_processor_count,
        step != ScheduleStep::Run ==> {
            &&& after.global_queue@ == before.global_queue@
            &&& after.processors@.len() == before.processors@.len()
            &&& forall|i: int|
                0 <= i < before.processors@.len() ==> (#[trigger] after.processors@[i]).queue@
                    == before.processors@[i].queue@ && after.processors@[i].run_next
                    == before.processors@[i].run_next && after.processors@[i].current_coro
                    == before.processors@[i].current_coro
        },
        msg is None && (before.processors@[id].run_next is Some || before.global_queue@.len() > 0
            || exists|i: int|
            0 <= i < before.processors@.len() && (#[trigger] before.processors@[i]).queue@.len()
                > 0) ==> step == ScheduleStep::Run && after.processors@[id].current_coro is Some,
{
}

/// Whoever looks for work elsewhere takes it from another processor as long as one has any, and
/// leaves the global queue alone; only if none has, it turns to the global queue.
pub proof fn other_queues_come_before_the_global_one(
    before: Seq<Processor>,
    after: Seq<Processor>,
    global_before: Seq<Handle>,
    global_after: Seq<Handle>,
    id: int,
    next: Option<Handle>,
    i: int,
)
    requires
        0 <= id < before.len(),
        before[id].queue@.len() == 0,
        fetched(before, after, global_before, global_after, id, next),
    ensures
        0 <= i < before.len() && before[i].queue@.len() > 0 ==> next is Some && global_after
            == global_before,
        (forall|k: int| 0 <= k < before.len() ==> (#[trigger] before[k]).queue@.len() == 0)
            && global_before.len() > 0 ==> next == Some(global_before[0]),
{
}

/// A thief takes from the first processor that has anything, in the order in which it visits them.
pub proof fn thief_takes_the_first_loot(
    before: Seq<Processor>,
    after: Seq<Processor>,
    thief: int,
    order: Seq<usize>,
    next: Handle,
    j: int,
)
    requires
        0 <= thief < before.len(),
        stolen_in_order(before, after, thief, order, next),
        0 <= j < order.len(),
        0 <= order[j] < before.len(),
        before[order[j] as int].queue@.len() > 0,
        forall|k: int| 0 <= k < j ==> before[(#[trigger] order[k]) as int].queue@.len() == 0,
    ensures
        before[order[j] as int].queue@.contains(next),
        after[order[j] as int].queue@.len() < before[order[j] as int].queue@.len(),
{
    let k = choose|k: int| #[trigger]
        first_loaded(before, order, k) && stolen(before, after, thief, order[k] as int, next);
    if k < j {
        assert(before[order[k] as int].queue@.len() == 0);
    } else if k > j {
        assert(before[order[j] as int].queue@.len() == 0);
    }
    let loot = before[order[j] as int].queue@;
    assert(loot[half(loot.len()) - 1] == next);
}

} // verus!
