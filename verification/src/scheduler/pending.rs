//! The coroutines that are pending, wherever they are.

use vstd::multiset::Multiset;
use vstd::prelude::*;

use crate::coroutine::{Handle, HandleList, State};
use crate::runtime::machines;
use crate::runtime::machines::Machines;
use crate::runtime::processor::Processor;
use crate::runtime::timer::{SleepingTask, Timer};
use crate::scheduler;
use crate::scheduler::ready::{ReadyStates, ReadyType};
use crate::scheduler::{StatesMap, TimerWaitType};
use crate::slots::Slots;
use crate::sync::condvar;
use crate::sync::condvar::WaiterMap;

verus! {

/// Just this coroutine, if there is one.
pub open spec fn just(hdl: Option<Handle>) -> Multiset<Handle> {
    match hdl {
        Some(hdl) => Multiset::singleton(hdl),
        None => Multiset::empty(),
    }
}

/// The coroutines that are to run next on the processors.
pub open spec fn run_nexts(processors: Seq<Processor>) -> Multiset<Handle>
    decreases processors.len(),
{
    if processors.len() == 0 {
        Multiset::empty()
    } else {
        run_nexts(processors.drop_last()).add(just(processors.last().run_next))
    }
}

/// The coroutines that sleep.
pub open spec fn sleeping_in(tasks: Seq<SleepingTask<TimerWaitType>>) -> Multiset<Handle>
    decreases tasks.len(),
{
    if tasks.len() == 0 {
        Multiset::empty()
    } else {
        let before = sleeping_in(tasks.drop_last());
        match tasks.last().value {
            TimerWaitType::Handle(hdl) => before.insert(hdl),
            TimerWaitType::Waiter { .. } => before,
        }
    }
}

/// The coroutines that wait on the objects whose states have numbers below `n`.
pub open spec fn waiting_below(states: StatesMap, n: nat) -> Multiset<Handle>
    decreases n,
{
    if n == 0 {
        Multiset::empty()
    } else {
        let key = (n - 1) as usize;
        let before = waiting_below(states, (n - 1) as nat);
        if states.dom().contains(key) {
            before.add(states[key].waiting())
        } else {
            before
        }
    }
}

/// The coroutines that wait on any object.
pub open spec fn waiting_in(states: StatesMap) -> Multiset<Handle> {
    waiting_below(states, (usize::MAX + 1) as nat)
}

/// All of these coroutines can still run.
pub open spec fn all_live(handles: Multiset<Handle>) -> bool {
    forall|hdl: Handle| #[trigger] handles.count(hdl) > 0 ==> hdl.spec_state() != State::Finished
}

proof fn lemma_waiting_below(states: StatesMap, end: nat, n: nat)
    requires
        end <= n <= usize::MAX + 1,
        forall|key: usize| #[trigger] states.dom().contains(key) ==> key < end,
    ensures
        waiting_below(states, n) == waiting_below(states, end),
    decreases n,
{
    if n > end {
        lemma_waiting_below(states, end, (n - 1) as nat);
        assert(!states.dom().contains((n - 1) as usize));
    }
}

/// If nobody waits on any object, no coroutine does.
pub proof fn lemma_nobody_waits(states: StatesMap, n: nat)
    requires
        n <= usize::MAX + 1,
        forall|key: usize| #[trigger] states.dom().contains(key) ==> states[key].nobody_waits(),
    ensures
        waiting_below(states, n) == Multiset::<Handle>::empty(),
    decreases n,
{
    if n > 0 {
        let key = (n - 1) as usize;
        lemma_nobody_waits(states, (n - 1) as nat);
        if states.dom().contains(key) {
            assert(states[key].condvar(ReadyType::Readable).waiters@ == Map::<
                usize,
                condvar::Waiter,
            >::empty());
            assert(states[key].condvar(ReadyType::Writable).waiters@ == Map::<
                usize,
                condvar::Waiter,
            >::empty());
            condvar::lemma_nobody_waits(states[key].readable.waiters@);
            condvar::lemma_nobody_waits(states[key].writable.waiters@);
            assert(states[key].waiting() =~= Multiset::<Handle>::empty());
        }
        assert(waiting_below(states, n) =~= Multiset::<Handle>::empty());
    }
}

proof fn lemma_waiters_live(waiters: WaiterMap, n: nat)
    requires
        n <= usize::MAX + 1,
        forall|id: usize| #[trigger]
            waiters.dom().contains(id) ==> machines::live_opt(waiters[id].handle),
    ensures
        all_live(condvar::waiting_below(waiters, n)),
    decreases n,
{
    if n > 0 {
        lemma_waiters_live(waiters, (n - 1) as nat);
        assert(waiters.dom().contains((n - 1) as usize) ==> machines::live_opt(
            waiters[(n - 1) as usize].handle,
        ));
    }
}

/// No coroutine that has finished waits on an object.
pub proof fn lemma_waiting_live(states: StatesMap, n: nat)
    requires
        n <= usize::MAX + 1,
        scheduler::states_wf(states),
    ensures
        all_live(waiting_below(states, n)),
    decreases n,
{
    if n > 0 {
        let key = (n - 1) as usize;
        lemma_waiting_live(states, (n - 1) as nat);
        if states.dom().contains(key) {
            assert forall|id: usize| #[trigger]
                states[key].readable.waiters@.dom().contains(id) implies machines::live_opt(
                states[key].readable.waiters@[id].handle,
            ) by {
                assert(scheduler::waiter_at(states, key, ReadyType::Readable, id) is Some);
            }
            assert forall|id: usize| #[trigger]
                states[key].writable.waiters@.dom().contains(id) implies machines::live_opt(
                states[key].writable.waiters@[id].handle,
            ) by {
                assert(scheduler::waiter_at(states, key, ReadyType::Writable, id) is Some);
            }
            lemma_waiters_live(states[key].readable.waiters@, (usize::MAX + 1) as nat);
            lemma_waiters_live(states[key].writable.waiters@, (usize::MAX + 1) as nat);
        }
    }
}

/// No coroutine that has finished sleeps.
pub proof fn lemma_sleeping_live(tasks: Seq<SleepingTask<TimerWaitType>>, states: StatesMap)
    requires
        scheduler::sleepers_wf(tasks, states),
    ensures
        all_live(sleeping_in(tasks)),
    decreases tasks.len(),
{
    if tasks.len() > 0 {
        let rest = tasks.drop_last();
        assert forall|i: int| 0 <= i < rest.len() implies scheduler::sleeper_wf(
            #[trigger] rest[i],
            states,
        ) by {
            assert(scheduler::sleeper_wf(tasks[i], states));
        }
        lemma_sleeping_live(rest, states);
        assert(scheduler::sleeper_wf(tasks[tasks.len() - 1], states));
    }
}

/// A queue without finished coroutines has none.
pub proof fn lemma_queue_live(queue: Seq<Handle>)
    requires
        machines::live(queue),
    ensures
        all_live(queue.to_multiset()),
{
    broadcast use vstd::seq_lib::group_to_multiset_ensures;

    assert forall|hdl: Handle| #[trigger] queue.to_multiset().count(hdl) > 0 implies
        hdl.spec_state() != State::Finished by {
        assert(queue.contains(hdl));
    }
}

/// If none of the coroutines has finished, none in the queue has.
pub proof fn lemma_live_queue(queue: Seq<Handle>)
    requires
        all_live(queue.to_multiset()),
    ensures
        machines::live(queue),
{
    broadcast use vstd::seq_lib::group_to_multiset_ensures;

    assert forall|i: int| 0 <= i < queue.len() implies (#[trigger] queue[i]).spec_state()
        != State::Finished by {
        assert(queue.contains(queue[i]));
        assert(queue.to_multiset().count(queue[i]) > 0);
    }
}

/// No coroutine that has finished is on a processor.
pub proof fn lemma_processors_live(processors: Seq<Processor>)
    requires
        forall|i: int|
            0 <= i < processors.len() ==> machines::live((#[trigger] processors[i]).queue@)
                && machines::live_opt(processors[i].run_next),
    ensures
        all_live(run_nexts(processors)),
        all_live(machines::in_local_queues(processors)),
    decreases processors.len(),
{
    if processors.len() > 0 {
        let rest = processors.drop_last();
        assert forall|i: int| 0 <= i < rest.len() implies machines::live(
            (#[trigger] rest[i]).queue@,
        ) && machines::live_opt(rest[i].run_next) by {
            assert(rest[i] == processors[i]);
        }
        lemma_processors_live(rest);
        assert(machines::live(processors[processors.len() - 1].queue@));
        lemma_queue_live(processors.last().queue@);
    }
}

/// Where all processors have nothing to do, no coroutine is on one.
pub proof fn lemma_processors_idle(processors: Seq<Processor>)
    requires
        forall|i: int|
            0 <= i < processors.len() ==> (#[trigger] processors[i]).queue@.len() == 0
                && processors[i].run_next is None,
    ensures
        run_nexts(processors) == Multiset::<Handle>::empty(),
        machines::in_local_queues(processors) == Multiset::<Handle>::empty(),
    decreases processors.len(),
{
    broadcast use vstd::seq_lib::group_to_multiset_ensures;

    if processors.len() > 0 {
        let rest = processors.drop_last();
        assert forall|i: int| 0 <= i < rest.len() implies (#[trigger] rest[i]).queue@.len() == 0
            && rest[i].run_next is None by {
            assert(rest[i] == processors[i]);
        }
        lemma_processors_idle(rest);
        assert(processors[processors.len() - 1].queue@.len() == 0);
        assert(processors.last().queue@.to_multiset() =~= Multiset::<Handle>::empty());
        assert(run_nexts(processors) =~= Multiset::<Handle>::empty());
        assert(machines::in_local_queues(processors) =~= Multiset::<Handle>::empty());
    }
}

/// What a processor has to do counts among what all of them have to do.
pub proof fn lemma_counted_local(processors: Seq<Processor>, i: int)
    requires
        0 <= i < processors.len(),
    ensures
        processors[i].run_next matches Some(hdl) ==> run_nexts(processors).count(hdl) > 0,
        forall|k: int|
            0 <= k < processors[i].queue@.len() ==> machines::in_local_queues(processors).count(
                #[trigger] processors[i].queue@[k],
            ) > 0,
    decreases processors.len(),
{
    broadcast use vstd::seq_lib::group_to_multiset_ensures;

    if i < processors.len() - 1 {
        lemma_counted_local(processors.drop_last(), i);
        assert(processors.drop_last()[i] == processors[i]);
    } else {
        let queue = processors.last().queue@;
        assert forall|k: int| 0 <= k < queue.len() implies queue.to_multiset().count(
            #[trigger] queue[k],
        ) > 0 by {
            assert(queue.contains(queue[k]));
        }
    }
}

/// A coroutine that sleeps counts among those that sleep.
pub proof fn lemma_counted_sleeping(tasks: Seq<SleepingTask<TimerWaitType>>, i: int)
    requires
        0 <= i < tasks.len(),
    ensures
        tasks[i].value matches TimerWaitType::Handle(hdl) ==> sleeping_in(tasks).count(hdl) > 0,
    decreases tasks.len(),
{
    if i < tasks.len() - 1 {
        lemma_counted_sleeping(tasks.drop_last(), i);
        assert(tasks.drop_last()[i] == tasks[i]);
    }
}

/// Moves a list of coroutines to the back of a vector.
pub(crate) fn take_list(list: &mut HandleList, pending: &mut Vec<Handle>)
    ensures
        final(list)@ == Seq::<Handle>::empty(),
        final(pending)@.to_multiset() == old(pending)@.to_multiset().add(
            old(list)@.to_multiset(),
        ),
{
    let ghost all = list@;
    let ghost had = pending@;
    let ghost mut n: int = 0;
    proof {
        assert(all.skip(0) =~= all);
        assert(had + all.take(0) =~= had);
    }
    loop
        invariant
            had == old(pending)@,
            all == old(list)@,
            0 <= n <= all.len(),
            list@ == all.skip(n),
            pending@ == had + all.take(n),
        ensures
            n == all.len(),
            list@.len() == 0,
        decreases all.len() - n,
    {
        match list.pop_front() {
            Some(hdl) => {
                pending.push(hdl);
                proof {
                    assert(all.skip(n).drop_first() =~= all.skip(n + 1));
                    assert(pending@ =~= had + all.take(n + 1));
                    n = n + 1;
                }
            },
            None => {
                break;
            },
        }
    }
    proof {
        assert(all.take(n) =~= all);
        assert(list@ =~= Seq::<Handle>::empty());
        vstd::seq_lib::lemma_multiset_commutative(had, all);
    }
}

/// The coroutines that sleep, when the first sleeper is taken out.
proof fn lemma_first_sleeper(tasks: Seq<SleepingTask<TimerWaitType>>)
    requires
        tasks.len() > 0,
    ensures
        sleeping_in(tasks) == (match tasks[0].value {
            TimerWaitType::Handle(hdl) => sleeping_in(tasks.drop_first()).insert(hdl),
            TimerWaitType::Waiter { .. } => sleeping_in(tasks.drop_first()),
        }),
    decreases tasks.len(),
{
    if tasks.len() == 1 {
        assert(tasks.drop_last() =~= tasks.drop_first());
    } else {
        lemma_first_sleeper(tasks.drop_last());
        assert(tasks.drop_last().drop_first() =~= tasks.drop_first().drop_last());
        assert(tasks.drop_first().last() == tasks.last());
        match tasks[0].value {
            TimerWaitType::Handle(hdl) => {
                assert(sleeping_in(tasks) =~= sleeping_in(tasks.drop_first()).insert(hdl));
            },
            TimerWaitType::Waiter { .. } => {},
        }
    }
}

/// Empties the timer and moves the coroutines that sleep to the back of a vector.
pub(crate) fn take_sleepers(timer: &mut Timer<TimerWaitType>, pending: &mut Vec<Handle>)
    requires
        old(timer).wf(),
    ensures
        final(timer).wf(),
        final(timer).spec_next_number() == old(timer).spec_next_number(),
        final(timer)@.len() == 0,
        final(pending)@.to_multiset() == old(pending)@.to_multiset().add(
            sleeping_in(old(timer)@),
        ),
{
    loop
        invariant
            timer.wf(),
            timer.spec_next_number() == old(timer).spec_next_number(),
            pending@.to_multiset().add(sleeping_in(timer@)) == old(pending)@.to_multiset().add(
                sleeping_in(old(timer)@),
            ),
        ensures
            timer@.len() == 0,
        decreases timer@.len(),
    {
        let ghost tasks = timer@;
        let ghost had = pending@;
        match timer.take_first() {
            Some(value) => {
                proof {
                    lemma_first_sleeper(tasks);
                }
                if let TimerWaitType::Handle(hdl) = value {
                    pending.push(hdl);
                    proof {
                        broadcast use vstd::seq_lib::group_to_multiset_ensures;

                        assert(pending@.to_multiset() =~= had.to_multiset().insert(hdl));
                        assert(pending@.to_multiset().add(sleeping_in(timer@))
                            =~= had.to_multiset().add(sleeping_in(tasks)));
                    }
                }
            },
            None => {
                break;
            },
        }
    }
    proof {
        assert(pending@.to_multiset() =~= pending@.to_multiset().add(sleeping_in(timer@)));
    }
}

/// Moves the coroutines that wait on any object to the back of a vector. After that nobody waits.
pub(crate) fn take_waiting(states: &mut Slots<ReadyStates>, pending: &mut Vec<Handle>)
    ensures
        final(states)@.dom() == old(states)@.dom(),
        forall|key: usize| #[trigger]
            final(states)@.dom().contains(key) ==> final(states)@[key].wf()
                && final(states)@[key].nobody_waits(),
        final(pending)@.to_multiset() == old(pending)@.to_multiset().add(
            waiting_in(old(states)@),
        ),
{
    let ghost before = states@;
    let end = states.end();
    let mut key: usize = 0;
    proof {
        assert(pending@.to_multiset() =~= old(pending)@.to_multiset().add(
            waiting_below(before, 0),
        ));
    }
    while key < end
        invariant
            key <= end,
            before == old(states)@,
            forall|k: usize| #[trigger] before.dom().contains(k) ==> k < end,
            states@.dom() == before.dom(),
            forall|k: usize| #[trigger]
                before.dom().contains(k) && k >= key ==> states@[k] == before[k],
            forall|k: usize| #[trigger]
                before.dom().contains(k) && k < key ==> states@[k].wf()
                    && states@[k].nobody_waits(),
            pending@.to_multiset() == old(pending)@.to_multiset().add(
                waiting_below(before, key as nat),
            ),
        decreases end - key,
    {
        if states.contains(key) {
            let mut taken = ReadyStates::new();
            std::mem::swap(states.get_mut(key), &mut taken);
            taken.into_handles(pending);
        }
        key = key + 1;
        proof {
            assert((key as nat - 1) as usize == key - 1);
            assert(states@.dom() =~= before.dom());
            assert(pending@.to_multiset() =~= old(pending)@.to_multiset().add(
                waiting_below(before, key as nat),
            ));
        }
    }
    proof {
        lemma_waiting_below(before, end as nat, (usize::MAX + 1) as nat);
    }
}

/// Shuts all processors down and moves what they had to do to the back of a vector.
pub(crate) fn take_local(machines: &mut Machines, pending: &mut Vec<Handle>)
    requires
        old(machines).wf(),
    ensures
        final(machines).wf(),
        final(machines).same_counts(*old(machines)),
        final(machines).global_queue == old(machines).global_queue,
        final(machines).processors@.len() == old(machines).processors@.len(),
        forall|i: int|
            0 <= i < final(machines).processors@.len() ==> shut_down(
                old(machines).processors@[i],
                #[trigger] final(machines).processors@[i],
            ),
        final(pending)@.to_multiset() == old(pending)@.to_multiset().add(
            run_nexts(old(machines).processors@),
        ).add(machines::in_local_queues(old(machines).processors@)),
{
    let ghost before = machines.processors@;
    let count = machines.processors.len();
    let mut id: usize = 0;
    proof {
        assert(before.take(0).len() == 0);
        assert(pending@.to_multiset() =~= old(pending)@.to_multiset().add(
            run_nexts(before.take(0)),
        ).add(machines::in_local_queues(before.take(0))));
    }
    while id < count
        invariant
            id <= count,
            count == before.len(),
            before == old(machines).processors@,
            machines.wf(),
            machines.same_counts(*old(machines)),
            machines.global_queue == old(machines).global_queue,
            machines.processors@.len() == before.len(),
            forall|i: int|
                0 <= i < id ==> shut_down(before[i], #[trigger] machines.processors@[i]),
            forall|i: int| id <= i < count ==> (#[trigger] machines.processors@[i]) == before[i],
            pending@.to_multiset() == old(pending)@.to_multiset().add(
                run_nexts(before.take(id as int)),
            ).add(machines::in_local_queues(before.take(id as int))),
        decreases count - id,
    {
        let ghost had = pending@;
        let ghost procs = machines.processors@;
        let mut batch = machines.shutdown(id);
        let ghost all = batch@;
        pending.append(&mut batch);
        proof {
            assert(procs[id as int] == before[id as int]);
            let n = id as int;
            let first = match before[n].run_next {
                Some(hdl) => seq![hdl],
                None => Seq::empty(),
            };
            let queue = before[n].queue@;
            vstd::seq_lib::lemma_multiset_commutative(had, all);
            vstd::seq_lib::lemma_multiset_commutative(first, queue.reverse());
            queue.lemma_reverse_to_multiset();
            lemma_just(before[n].run_next);
            assert(before.take(n + 1).drop_last() =~= before.take(n));
            assert(before.take(n + 1).last() == before[n]);
            assert(pending@.to_multiset() =~= old(pending)@.to_multiset().add(
                run_nexts(before.take(n + 1)),
            ).add(machines::in_local_queues(before.take(n + 1))));
            assert forall|i: int| 0 <= i < n + 1 implies shut_down(
                before[i],
                #[trigger] machines.processors@[i],
            ) by {
                if i < n {
                    assert(machines.processors@[i] == procs[i]);
                }
            }
            assert forall|i: int| n + 1 <= i < count implies (#[trigger] machines.processors@[i])
                == before[i] by {
                assert(machines.processors@[i] == procs[i]);
            }
        }
        id = id + 1;
    }
    proof {
        assert(before.take(count as int) =~= before);
    }
}

proof fn lemma_just(hdl: Option<Handle>)
    ensures
        just(hdl) == (match hdl {
            Some(hdl) => seq![hdl],
            None => Seq::<Handle>::empty(),
        }).to_multiset(),
{
    broadcast use vstd::seq_lib::group_to_multiset_ensures;

    match hdl {
        Some(hdl) => {
            assert(seq![hdl] =~= Seq::<Handle>::empty().push(hdl));
            assert(Seq::<Handle>::empty().to_multiset() =~= Multiset::<Handle>::empty());
            assert(just(Some(hdl)) =~= seq![hdl].to_multiset());
        },
        None => {
            assert(Seq::<Handle>::empty().to_multiset() =~= Multiset::<Handle>::empty());
        },
    }
}

/// A processor after it was shut down: it has nothing to do.
pub open spec fn shut_down(before: Processor, after: Processor) -> bool {
    &&& after == (Processor { queue: after.queue, run_next: None, ..before })
    &&& after.queue@.len() == 0
}

} // verus!
