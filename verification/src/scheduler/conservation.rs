//! No coroutine is lost or doubled, whatever the scheduler does with it.

use vstd::multiset::Multiset;
use vstd::prelude::*;

use crate::coroutine::{Handle, State};
use crate::options::Options;
use crate::runtime::machines;
use crate::runtime::machines::Machines;
use crate::runtime::processor::Processor;
use crate::runtime::run_queue::QUEUE_SIZE;
use crate::runtime::stack_pool;
use crate::runtime::stack_pool::{Stack, StackPool, StackUnavailable};
use crate::runtime::timer::{LocalTime, SleepingTask, Timeout, Timer};
use crate::scheduler;
use crate::scheduler::pending;
use crate::scheduler::ready;
use crate::scheduler::ready::{Ready, ReadyType};
use crate::scheduler::{
    Event, Message, RegisterMessage, Scheduler, StatesMap, TimerWaitType,
};
use crate::sync::condvar;
use crate::sync::condvar::{Waiter, WaiterMap, WaiterState};

verus! {

/// The waiters of every object, by the number of its states and by what they wait for.
type Waiters = spec_fn(usize, ReadyType) -> WaiterMap;

spec fn waiters_of(states: StatesMap) -> Waiters {
    |key: usize, ready_type: ReadyType|
        if states.dom().contains(key) {
            states[key].condvar(ready_type).waiters@
        } else {
            Map::empty()
        }
}

/// The coroutines of the waiters of the objects with numbers below `n`.
spec fn held_below(waiters: Waiters, n: nat) -> Multiset<Handle>
    decreases n,
{
    if n == 0 {
        Multiset::empty()
    } else {
        let key = (n - 1) as usize;
        held_below(waiters, (n - 1) as nat).add(
            condvar::waiting_in(waiters(key, ReadyType::Readable)),
        ).add(condvar::waiting_in(waiters(key, ReadyType::Writable)))
    }
}

proof fn lemma_held(states: StatesMap, n: nat)
    requires
        n <= usize::MAX + 1,
    ensures
        held_below(waiters_of(states), n) == pending::waiting_below(states, n),
    decreases n,
{
    if n > 0 {
        lemma_held(states, (n - 1) as nat);
        let key = (n - 1) as usize;
        let waiters = waiters_of(states);
        if states.dom().contains(key) {
            assert(states[key].condvar(ReadyType::Readable) == states[key].readable);
            assert(states[key].condvar(ReadyType::Writable) == states[key].writable);
        } else {
            condvar::lemma_nobody_waits(waiters(key, ReadyType::Readable));
            condvar::lemma_nobody_waits(waiters(key, ReadyType::Writable));
        }
        assert(held_below(waiters, n) =~= pending::waiting_below(states, n));
    }
}

/// How often a coroutine is held, when those who wait for one thing on one object change.
proof fn lemma_held_changed(
    before: Waiters,
    after: Waiters,
    key: usize,
    ready_type: ReadyType,
    n: nat,
    hdl: Handle,
)
    requires
        n <= usize::MAX + 1,
        forall|k: usize, t: ReadyType|
            (k != key || t != ready_type) ==> #[trigger] after(k, t) == before(k, t),
    ensures
        key < n ==> held_below(after, n).count(hdl) + condvar::waiting_in(
            before(key, ready_type),
        ).count(hdl) == held_below(before, n).count(hdl) + condvar::waiting_in(
            after(key, ready_type),
        ).count(hdl),
        key >= n ==> held_below(after, n).count(hdl) == held_below(before, n).count(hdl),
    decreases n,
{
    if n > 0 {
        lemma_held_changed(before, after, key, ready_type, (n - 1) as nat, hdl);
        let last = (n - 1) as usize;
        if last != key {
            assert(after(last, ReadyType::Readable) == before(last, ReadyType::Readable));
            assert(after(last, ReadyType::Writable) == before(last, ReadyType::Writable));
        } else {
            match ready_type {
                ReadyType::Readable => {
                    assert(after(last, ReadyType::Writable) == before(last, ReadyType::Writable));
                },
                ReadyType::Writable => {
                    assert(after(last, ReadyType::Readable) == before(last, ReadyType::Readable));
                },
            }
        }
    }
}

/// When those who wait on one object change, all others wait as before.
pub proof fn lemma_object_changed(before: StatesMap, after: StatesMap, key: usize)
    requires
        before.dom().contains(key),
        after == before.insert(key, after[key]),
    ensures
        pending::waiting_in(after).add(before[key].waiting()) == pending::waiting_in(before).add(
            after[key].waiting(),
        ),
{
    let a = pending::waiting_in(after).add(before[key].waiting());
    let b = pending::waiting_in(before).add(after[key].waiting());
    let n = (usize::MAX + 1) as nat;
    let first = waiters_of(before);
    let last = waiters_of(after);
    let middle = |k: usize, t: ReadyType|
        if k == key && t == ReadyType::Readable {
            last(k, t)
        } else {
            first(k, t)
        };
    assert(before[key].condvar(ReadyType::Readable) == before[key].readable);
    assert(before[key].condvar(ReadyType::Writable) == before[key].writable);
    assert(after[key].condvar(ReadyType::Readable) == after[key].readable);
    assert(after[key].condvar(ReadyType::Writable) == after[key].writable);
    assert forall|hdl: Handle| #[trigger] a.count(hdl) == b.count(hdl) by {
        lemma_held(before, n);
        lemma_held(after, n);
        lemma_held_changed(first, middle, key, ReadyType::Readable, n, hdl);
        lemma_held_changed(middle, last, key, ReadyType::Writable, n, hdl);
    }
    assert(a =~= b);
}

/// The waiters among the tasks were told that their time ran out.
spec fn told(
    before: Waiters,
    after: Waiters,
    tasks: Seq<SleepingTask<TimerWaitType>>,
) -> bool {
    forall|key: usize, ready_type: ReadyType|
        {
            let b = before(key, ready_type);
            let a = #[trigger] after(key, ready_type);
            &&& a.dom() == b.dom()
            &&& forall|id: usize| #[trigger]
                b.dom().contains(id) ==> a[id] == (if scheduler::sleeps_in(
                    tasks,
                    key,
                    ready_type,
                    id,
                ) {
                    b[id].notified(WaiterState::Timeout)
                } else {
                    b[id]
                })
        }
}

/// The tasks are of different waiters, and these exist.
spec fn different_waiters(
    tasks: Seq<SleepingTask<TimerWaitType>>,
    states: StatesMap,
) -> bool {
    &&& forall|i: int, j: int|
        0 <= i < j < tasks.len() && (#[trigger] tasks[i]).value is Waiter ==> tasks[i].value != (
        #[trigger] tasks[j]).value
    &&& forall|i: int|
        0 <= i < tasks.len() ==> ((#[trigger] tasks[i]).value matches TimerWaitType::Waiter {
            states: key,
            ready_type,
            waiter,
        } ==> scheduler::waiter_at(states, key, ready_type, waiter) is Some)
}

proof fn lemma_told(
    states: StatesMap,
    after: Waiters,
    tasks: Seq<SleepingTask<TimerWaitType>>,
    hdl: Handle,
)
    requires
        told(waiters_of(states), after, tasks),
        different_waiters(tasks, states),
    ensures
        held_below(after, (usize::MAX + 1) as nat).count(hdl) + scheduler::woken_by(
            tasks,
            states,
        ).to_multiset().count(hdl) == held_below(
            waiters_of(states),
            (usize::MAX + 1) as nat,
        ).count(hdl) + pending::sleeping_in(tasks).count(hdl),
    decreases tasks.len(),
{
    broadcast use vstd::seq_lib::group_to_multiset_ensures;

    let n = (usize::MAX + 1) as nat;
    let before = waiters_of(states);
    if tasks.len() == 0 {
        assert forall|key: usize, ready_type: ReadyType| #[trigger] after(key, ready_type) == before(
            key,
            ready_type,
        ) by {
            assert(after(key, ready_type) =~= before(key, ready_type));
        }
        lemma_held_changed(before, after, 0, ReadyType::Readable, n, hdl);
    } else {
        let fewer = tasks.drop_last();
        let last = tasks.last();
        assert forall|i: int, j: int|
            0 <= i < j < fewer.len() && (#[trigger] fewer[i]).value is Waiter implies fewer[i].value
            != (#[trigger] fewer[j]).value by {
            assert(tasks[i].value != tasks[j].value);
        }
        assert forall|i: int| 0 <= i < fewer.len() implies ((
        #[trigger] fewer[i]).value matches TimerWaitType::Waiter { states: key, ready_type, waiter }
            ==> scheduler::waiter_at(states, key, ready_type, waiter) is Some) by {
            assert(tasks[i] == fewer[i]);
        }
        match last.value {
            TimerWaitType::Handle(woken) => {
                assert forall|key: usize, ready_type: ReadyType, id: usize| #[trigger]
                    scheduler::sleeps_in(tasks, key, ready_type, id) == scheduler::sleeps_in(
                        fewer,
                        key,
                        ready_type,
                        id,
                    ) by {
                    lemma_sleeps_in_last(tasks, key, ready_type, id);
                }
                lemma_told(states, after, fewer, hdl);
            },
            TimerWaitType::Waiter { states: key, ready_type, waiter } => {
                let w = before(key, ready_type)[waiter];
                let restored = |k: usize, t: ReadyType|
                    if k == key && t == ready_type {
                        after(k, t).insert(waiter, w)
                    } else {
                        after(k, t)
                    };
                assert(tasks[tasks.len() - 1] == last);
                assert(scheduler::waiter_at(states, key, ready_type, waiter) == Some(w));
                lemma_sleeps_in_last(tasks, key, ready_type, waiter);
                assert(!scheduler::sleeps_in(fewer, key, ready_type, waiter)) by {
                    if scheduler::sleeps_in(fewer, key, ready_type, waiter) {
                        let i = choose|i: int|
                            0 <= i < fewer.len() && (#[trigger] fewer[i]).value == last.value;
                        assert(tasks[i].value == tasks[tasks.len() - 1].value);
                    }
                }
                assert(told(before, restored, fewer)) by {
                    assert forall|k: usize, t: ReadyType|
                        {
                            let b = before(k, t);
                            let a = #[trigger] restored(k, t);
                            &&& a.dom() == b.dom()
                            &&& forall|id: usize| #[trigger]
                                b.dom().contains(id) ==> a[id] == (if scheduler::sleeps_in(
                                    fewer,
                                    k,
                                    t,
                                    id,
                                ) {
                                    b[id].notified(WaiterState::Timeout)
                                } else {
                                    b[id]
                                })
                        } by {
                        let a = after(k, t);
                        assert(a.dom() == before(k, t).dom());
                        assert(restored(k, t).dom() =~= a.dom());
                        assert forall|id: usize| #[trigger]
                            before(k, t).dom().contains(id) implies restored(k, t)[id] == (
                        if scheduler::sleeps_in(fewer, k, t, id) {
                            before(k, t)[id].notified(WaiterState::Timeout)
                        } else {
                            before(k, t)[id]
                        }) by {
                            lemma_sleeps_in_last(tasks, k, t, id);
                        }
                    }
                }
                lemma_told(states, restored, fewer, hdl);
                lemma_held_changed(after, restored, key, ready_type, n, hdl);
                let a = after(key, ready_type);
                let r = restored(key, ready_type);
                assert(a.dom().contains(waiter));
                condvar::lemma_waiter_changed(a, r, waiter);
                assert(a[waiter].handle is None);
                let a_all = condvar::waiting_in(a);
                let r_all = condvar::waiting_in(r);
                assert(r_all.add(condvar::just(None)).count(hdl) == a_all.add(
                    condvar::just(w.handle),
                ).count(hdl));
            },
        }
    }
}

proof fn lemma_sleeps_in_last(
    tasks: Seq<SleepingTask<TimerWaitType>>,
    key: usize,
    ready_type: ReadyType,
    id: usize,
)
    requires
        tasks.len() > 0,
    ensures
        scheduler::sleeps_in(tasks, key, ready_type, id) <==> scheduler::sleeps_in(
            tasks.drop_last(),
            key,
            ready_type,
            id,
        ) || tasks.last().value == (TimerWaitType::Waiter { states: key, ready_type, waiter: id }),
{
    let value = TimerWaitType::Waiter { states: key, ready_type, waiter: id };
    let fewer = tasks.drop_last();
    if scheduler::sleeps_in(fewer, key, ready_type, id) {
        let i = choose|i: int| 0 <= i < fewer.len() && (#[trigger] fewer[i]).value == value;
        assert(tasks[i].value == value);
    }
    if tasks.last().value == value {
        assert(tasks[tasks.len() - 1].value == value);
    }
    if scheduler::sleeps_in(tasks, key, ready_type, id) {
        let i = choose|i: int| 0 <= i < tasks.len() && (#[trigger] tasks[i]).value == value;
        if i < tasks.len() - 1 {
            assert(fewer[i].value == value);
        }
    }
}

proof fn lemma_sleeping_split(tasks: Seq<SleepingTask<TimerWaitType>>, n: int, hdl: Handle)
    requires
        0 <= n <= tasks.len(),
    ensures
        pending::sleeping_in(tasks).count(hdl) == pending::sleeping_in(tasks.take(n)).count(hdl)
            + pending::sleeping_in(tasks.skip(n)).count(hdl),
    decreases tasks.len(),
{
    if n == tasks.len() {
        assert(tasks.take(n) =~= tasks);
    } else {
        let fewer = tasks.drop_last();
        lemma_sleeping_split(fewer, n, hdl);
        assert(fewer.take(n) =~= tasks.take(n));
        assert(tasks.skip(n).drop_last() =~= fewer.skip(n));
        assert(tasks.skip(n).last() == tasks.last());
    }
}

/// How often a coroutine is among the tasks.
proof fn lemma_sleeping_counted(
    tasks: Seq<SleepingTask<TimerWaitType>>,
    states: StatesMap,
    hdl: Handle,
)
    ensures
        pending::sleeping_in(tasks).count(hdl) == tasks.map_values(
            |t: SleepingTask<TimerWaitType>| t.value,
        ).to_multiset().count(TimerWaitType::Handle(hdl)),
        scheduler::woken_by(tasks, states).to_multiset().count(hdl) >= pending::sleeping_in(
            tasks,
        ).count(hdl),
    decreases tasks.len(),
{
    broadcast use vstd::seq_lib::group_to_multiset_ensures;

    let values = tasks.map_values(|t: SleepingTask<TimerWaitType>| t.value);
    if tasks.len() > 0 {
        let fewer = tasks.drop_last();
        lemma_sleeping_counted(fewer, states, hdl);
        let fewer_values = fewer.map_values(|t: SleepingTask<TimerWaitType>| t.value);
        assert(values =~= fewer_values.push(tasks.last().value));
    }
}

/// Who wakes up, and in which order, if only coroutines sleep.
proof fn lemma_woken_handles(tasks: Seq<SleepingTask<TimerWaitType>>, states: StatesMap)
    requires
        forall|i: int| 0 <= i < tasks.len() ==> (#[trigger] tasks[i]).value is Handle,
    ensures
        scheduler::woken_by(tasks, states).len() == tasks.len(),
        forall|i: int|
            0 <= i < tasks.len() ==> TimerWaitType::Handle(
                #[trigger] scheduler::woken_by(tasks, states)[i],
            ) == tasks[i].value,
    decreases tasks.len(),
{
    if tasks.len() > 0 {
        let fewer = tasks.drop_last();
        assert forall|i: int| 0 <= i < fewer.len() implies (#[trigger] fewer[i]).value is Handle by {
            assert(tasks[i].value is Handle);
        }
        lemma_woken_handles(fewer, states);
        assert(tasks[tasks.len() - 1].value is Handle);
        assert forall|i: int| 0 <= i < tasks.len() implies TimerWaitType::Handle(
            #[trigger] scheduler::woken_by(tasks, states)[i],
        ) == tasks[i].value by {
            if i < fewer.len() {
                assert(scheduler::woken_by(tasks, states)[i] == scheduler::woken_by(
                    fewer,
                    states,
                )[i]);
                assert(fewer[i] == tasks[i]);
            }
        }
    }
}

/// A tick loses no coroutine and makes up none: whoever was pending still is. What sleeps on is
/// what has to sleep beyond `now`, and nothing else; and every coroutine whose time has come is
/// among those that were woken up, as often as it slept. If nothing else has timed out, they come
/// in the order of their wake-up times.
pub proof fn tick_loses_no_coroutine(before: Scheduler, after: Scheduler, now: LocalTime)
    requires
        before.wf(),
        after.same_but_sleepers(before),
        scheduler::ticked(before, after, now),
    ensures
        scheduler::all_pending(after) == scheduler::all_pending(before),
        ({
            let n = before.timer@.len() - after.timer@.len();
            let due = before.timer@.take(n);
            let had = before.io_handler_queue@;
            let has = after.io_handler_queue@;
            &&& 0 <= n
            &&& before.timer@ == due + after.timer@
            &&& forall|i: int|
                0 <= i < due.len() ==> (#[trigger] due[i]).expected_wakeup_time.spec_not_after(now)
            &&& forall|i: int|
                0 <= i < after.timer@.len() ==> !(
                #[trigger] after.timer@[i]).expected_wakeup_time.spec_not_after(now)
            &&& had == has.take(had.len() as int)
            &&& forall|hdl: Handle| #[trigger]
                has.to_multiset().count(hdl) >= had.to_multiset().count(hdl) + due.map_values(
                    |t: SleepingTask<TimerWaitType>| t.value,
                ).to_multiset().count(TimerWaitType::Handle(hdl))
            &&& (forall|i: int| 0 <= i < due.len() ==> (#[trigger] due[i]).value is Handle) ==> {
                &&& has.len() == had.len() + n
                &&& forall|i: int|
                    0 <= i < n ==> TimerWaitType::Handle(#[trigger] has[had.len() + i])
                        == due[i].value
            }
        }),
{
    broadcast use vstd::seq_lib::group_to_multiset_ensures;

    let n = choose|n: int| #[trigger] scheduler::ticked_by(before, after, now, n);
    let all = before.timer@;
    let due = all.take(n);
    let states = before.ready_states@;
    let had = before.io_handler_queue@;
    let has = after.io_handler_queue@;
    let woken = scheduler::woken_by(due, states);
    assert(all =~= due + after.timer@);
    assert(n == all.len() - after.timer@.len());
    assert forall|i: int| 0 <= i < after.timer@.len() implies !(
    #[trigger] after.timer@[i]).expected_wakeup_time.spec_not_after(now) by {
        if i > 0 {
            assert(all[n].expected_wakeup_time.spec_not_after(all[n + i].expected_wakeup_time));
        }
        assert(after.timer@[i] == all[n + i]);
    }
    assert(has.take(had.len() as int) =~= had);
    assert(different_waiters(due, states)) by {
        assert forall|i: int, j: int|
            0 <= i < j < due.len() && (#[trigger] due[i]).value is Waiter implies due[i].value != (
        #[trigger] due[j]).value by {
            assert(scheduler::sleeper_wf(all[i], states));
            assert(scheduler::sleeper_wf(all[j], states));
            assert(all[i].timeout != all[j].timeout);
        }
        assert forall|i: int| 0 <= i < due.len() implies ((
        #[trigger] due[i]).value matches TimerWaitType::Waiter { states: key, ready_type, waiter }
            ==> scheduler::waiter_at(states, key, ready_type, waiter) is Some) by {
            assert(scheduler::sleeper_wf(all[i], states));
        }
    }
    let first = waiters_of(states);
    let last = waiters_of(after.ready_states@);
    assert(told(first, last, due)) by {
        lemma_told_from_expired(states, after.ready_states@, due);
    }
    let max = (usize::MAX + 1) as nat;
    lemma_held(states, max);
    lemma_held(after.ready_states@, max);
    vstd::seq_lib::lemma_multiset_commutative(had, woken);
    let a = scheduler::all_pending(after);
    let b = scheduler::all_pending(before);
    assert forall|hdl: Handle| #[trigger] a.count(hdl) == b.count(hdl) by {
        lemma_told(states, last, due, hdl);
        lemma_sleeping_split(all, n, hdl);
    }
    assert(a =~= b);
    assert forall|hdl: Handle| #[trigger]
        has.to_multiset().count(hdl) >= had.to_multiset().count(hdl) + due.map_values(
            |t: SleepingTask<TimerWaitType>| t.value,
        ).to_multiset().count(TimerWaitType::Handle(hdl)) by {
        lemma_sleeping_counted(due, states, hdl);
    }
    if forall|i: int| 0 <= i < due.len() ==> (#[trigger] due[i]).value is Handle {
        lemma_woken_handles(due, states);
        assert forall|i: int| 0 <= i < n implies TimerWaitType::Handle(
            #[trigger] has[had.len() + i],
        ) == due[i].value by {
            assert(has[had.len() + i] == woken[i]);
        }
    }
}

proof fn lemma_told_from_expired(
    before: StatesMap,
    after: StatesMap,
    tasks: Seq<SleepingTask<TimerWaitType>>,
)
    requires
        scheduler::expired(before, after, tasks),
    ensures
        told(waiters_of(before), waiters_of(after), tasks),
{
    let first = waiters_of(before);
    let last = waiters_of(after);
    assert forall|key: usize, ready_type: ReadyType|
        {
            let b = first(key, ready_type);
            let a = #[trigger] last(key, ready_type);
            &&& a.dom() == b.dom()
            &&& forall|id: usize| #[trigger]
                b.dom().contains(id) ==> a[id] == (if scheduler::sleeps_in(
                    tasks,
                    key,
                    ready_type,
                    id,
                ) {
                    b[id].notified(WaiterState::Timeout)
                } else {
                    b[id]
                })
        } by {
        let b = first(key, ready_type);
        let a = last(key, ready_type);
        assert(after.dom().contains(key) == before.dom().contains(key));
        assert forall|id: usize| a.dom().contains(id) == b.dom().contains(id) by {
            assert((scheduler::waiter_at(after, key, ready_type, id) is Some) == (
            scheduler::waiter_at(before, key, ready_type, id) is Some));
        }
        assert(a.dom() =~= b.dom());
        assert forall|id: usize| #[trigger] b.dom().contains(id) implies a[id] == (
        if scheduler::sleeps_in(tasks, key, ready_type, id) {
            b[id].notified(WaiterState::Timeout)
        } else {
            b[id]
        }) by {
            assert(scheduler::waiter_at(before, key, ready_type, id) == Some(b[id]));
            assert(scheduler::waiter_at(after, key, ready_type, id) == Some(a[id]));
        }
    }
}

/// At a tick, a waiter whose time has come is told so, unless it was notified before, and gives up
/// its coroutine. No other waiter notices anything.
pub proof fn tick_tells_those_whose_time_has_come(
    before: Scheduler,
    after: Scheduler,
    now: LocalTime,
    key: usize,
    ready_type: ReadyType,
    id: usize,
)
    requires
        before.wf(),
        after.same_but_sleepers(before),
        scheduler::ticked(before, after, now),
        scheduler::waiter_at(before.ready_states@, key, ready_type, id) is Some,
    ensures
        ({
            let w = scheduler::waiter_at(before.ready_states@, key, ready_type, id)->0;
            let due = exists|i: int|
                0 <= i < before.timer@.len() && (#[trigger] before.timer@[i]).value == (
                TimerWaitType::Waiter { states: key, ready_type, waiter: id })
                    && before.timer@[i].expected_wakeup_time.spec_not_after(now);
            scheduler::waiter_at(after.ready_states@, key, ready_type, id) matches Some(told) && {
                &&& !due ==> told == w
                &&& due ==> {
                    &&& told.handle is None
                    &&& told.state == (if w.state == WaiterState::Empty {
                        WaiterState::Timeout
                    } else {
                        w.state
                    })
                    &&& w.handle matches Some(hdl) ==> after.io_handler_queue@.contains(hdl)
                }
            }
        }),
{
    let n = choose|n: int| #[trigger] scheduler::ticked_by(before, after, now, n);
    let all = before.timer@;
    let tasks = all.take(n);
    let states = before.ready_states@;
    let value = TimerWaitType::Waiter { states: key, ready_type, waiter: id };
    if scheduler::sleeps_in(tasks, key, ready_type, id) {
        let i = choose|i: int| 0 <= i < tasks.len() && (#[trigger] tasks[i]).value == value;
        assert(all[i].value == value);
        lemma_woken_waiter(tasks, states, i, key, ready_type, id);
        let w = scheduler::waiter_at(states, key, ready_type, id)->0;
        if let Some(hdl) = w.handle {
            let woken = scheduler::woken_by(tasks, states);
            let k = choose|k: int| 0 <= k < woken.len() && woken[k] == hdl;
            assert(after.io_handler_queue@[before.io_handler_queue@.len() + k] == hdl);
        }
    } else {
        assert forall|i: int|
            0 <= i < all.len() && (#[trigger] all[i]).value
                == value implies !all[i].expected_wakeup_time.spec_not_after(now) by {
            if i < n {
                assert(tasks[i].value == value);
            } else if i > n {
                assert(all[n].expected_wakeup_time.spec_not_after(all[i].expected_wakeup_time));
            }
        }
    }
}

proof fn lemma_woken_waiter(
    tasks: Seq<SleepingTask<TimerWaitType>>,
    states: StatesMap,
    i: int,
    key: usize,
    ready_type: ReadyType,
    id: usize,
)
    requires
        0 <= i < tasks.len(),
        tasks[i].value == (TimerWaitType::Waiter { states: key, ready_type, waiter: id }),
        scheduler::waiter_at(states, key, ready_type, id) is Some,
    ensures
        scheduler::waiter_at(states, key, ready_type, id)->0.handle matches Some(hdl)
            ==> scheduler::woken_by(tasks, states).contains(hdl),
    decreases tasks.len(),
{
    let fewer = tasks.drop_last();
    let before = scheduler::woken_by(fewer, states);
    let woken = scheduler::woken_by(tasks, states);
    if let Some(hdl) = scheduler::waiter_at(states, key, ready_type, id)->0.handle {
        if i < tasks.len() - 1 {
            assert(fewer[i] == tasks[i]);
            lemma_woken_waiter(fewer, states, i, key, ready_type, id);
            let k = choose|k: int| 0 <= k < before.len() && before[k] == hdl;
            assert(woken[k] == hdl);
        } else {
            assert(woken.last() == hdl);
        }
    }
}

/// An event on an object loses no coroutine and makes up none: whoever was pending still is.
pub proof fn event_loses_no_coroutine(
    before: Scheduler,
    after: Scheduler,
    token: usize,
    events: Ready,
)
    requires
        before.wf(),
        before.slab@.dom().contains(token),
        scheduler::object_ready(before, after, token, events),
    ensures
        scheduler::all_pending(after) == scheduler::all_pending(before),
{
    let key = before.slab@[token];
    let b = before.ready_states@;
    let a = after.ready_states@;
    let had = before.io_handler_queue@;
    let has = after.io_handler_queue@;
    assert(b[key].wf());
    ready::events_lose_no_coroutine(b[key], a[key], events, had, has);
    lemma_object_changed(b, a, key);
    let x = scheduler::all_pending(after);
    let y = scheduler::all_pending(before);
    assert forall|hdl: Handle| #[trigger] x.count(hdl) == y.count(hdl) by {
        assert(a[key].waiting().add(has.to_multiset()).count(hdl) == b[key].waiting().add(
            had.to_multiset(),
        ).count(hdl));
        assert(pending::waiting_in(a).add(b[key].waiting()).count(hdl) == pending::waiting_in(
            b,
        ).add(a[key].waiting()).count(hdl));
    }
    assert(x =~= y);
}

/// An event that an object can be written wakes up the one that has waited longest to write to it,
/// whatever other events there are; likewise for reading. Its coroutine is among those that were
/// woken up. Those who wait on other objects, and those who wait for another event, notice nothing.
pub proof fn object_event_wakes_the_longest_waiting(
    before: Scheduler,
    after: Scheduler,
    token: usize,
    events: Ready,
    ready_type: ReadyType,
    key: usize,
)
    requires
        before.wf(),
        before.slab@.dom().contains(token),
        scheduler::object_ready(before, after, token, events),
        before.ready_states@.dom().contains(key),
    ensures
        after.slab == before.slab,
        after.timer == before.timer,
        after.machines == before.machines,
        after.ready_states@.dom() == before.ready_states@.dom(),
        ({
            let bit: usize = match ready_type {
                ReadyType::Readable => 1,
                ReadyType::Writable => 2,
            };
            let b = before.ready_states@[key].condvar(ready_type);
            let a = after.ready_states@[key].condvar(ready_type);
            &&& (before.slab@[token] != key || events.bits & bit != bit) ==> a == b
            &&& (before.slab@[token] == key && events.bits & bit == bit) ==> {
                &&& b.list.head is None ==> a.waiters@ == b.waiters@
                &&& b.list.head matches Some(first) ==> {
                    &&& a.waiters@[first].handle is None
                    &&& a.waiters@[first].state != WaiterState::Empty
                    &&& b.order() == seq![first] + a.order()
                    &&& b.waiters@[first].handle matches Some(hdl)
                        ==> after.io_handler_queue@.contains(hdl)
                }
            }
        }),
{
    let at = before.slab@[token];
    let b = before.ready_states@[at];
    let a = after.ready_states@[at];
    let had = before.io_handler_queue@;
    let has = after.io_handler_queue@;
    assert(b.wf());
    assert(after.ready_states@.dom() =~= before.ready_states@.dom());
    let middle = choose|middle: Seq<Handle>| #[trigger]
        ready::notified_in_turn(b, a, events, had, middle, has);
    if events.bits & 1 == 1 {
        condvar::notification_wakes_the_longest_waiting(b.readable, a.readable, had, middle);
        if let Some(first) = b.readable.list.head {
            if let Some(hdl) = b.readable.waiters@[first].handle {
                assert(middle.last() == hdl);
            }
        }
    }
    if events.bits & 2 == 2 {
        condvar::notification_wakes_the_longest_waiting(b.writable, a.writable, middle, has);
        if let Some(first) = b.writable.list.head {
            if let Some(hdl) = b.writable.waiters@[first].handle {
                assert(has.last() == hdl);
            }
        }
    }
    assert(middle.len() <= has.len() && has.take(middle.len() as int) =~= middle);
    if middle.len() > 0 {
        assert(has[middle.len() - 1] == middle.last());
    }
}

proof fn lemma_states_came(before: StatesMap, after: StatesMap, key: usize)
    requires
        !before.dom().contains(key),
        after == before.insert(key, after[key]),
        after[key].nobody_waits(),
    ensures
        pending::waiting_in(after) == pending::waiting_in(before),
{
    let n = (usize::MAX + 1) as nat;
    let first = waiters_of(before);
    let last = waiters_of(after);
    assert forall|k: usize, t: ReadyType| #[trigger] last(k, t) == first(k, t) by {
        if k == key {
            assert(after[key].condvar(t).waiters@ == Map::<usize, Waiter>::empty());
        }
    }
    lemma_held(before, n);
    lemma_held(after, n);
    let a = pending::waiting_in(after);
    let b = pending::waiting_in(before);
    assert forall|hdl: Handle| #[trigger] a.count(hdl) == b.count(hdl) by {
        lemma_held_changed(first, last, key, ReadyType::Readable, n, hdl);
    }
    assert(a =~= b);
}

/// The coroutines that come with messages.
pub open spec fn sent_along<R, D>(events: Seq<Event<R, D>>) -> Seq<Handle>
    decreases events.len(),
{
    if events.len() == 0 {
        Seq::empty()
    } else {
        let before = sent_along(events.drop_last());
        match events.last() {
            Event::Message(Message::Register(msg)) => before.push(msg.coro),
            Event::Message(Message::Deregister(msg)) => before.push(msg.coro),
            _ => before,
        }
    }
}

/// The coroutine that asks to register or to deregister an object goes on, whether that worked out
/// or not, and no other coroutine is touched by a message. Only a message to shut down ends the
/// event loop.
pub proof fn message_loses_no_coroutine<R: FnOnce(usize, usize) -> bool, D: FnOnce()>(
    before: Scheduler,
    after: Scheduler,
    msg: Message<R, D>,
)
    requires
        before.wf(),
        scheduler::message_handled(before, after, msg),
    ensures
        scheduler::all_pending(after) == (match msg {
            Message::Register(msg) => scheduler::all_pending(before).insert(msg.coro),
            Message::Deregister(msg) => scheduler::all_pending(before).insert(msg.coro),
            _ => scheduler::all_pending(before),
        }),
        match msg {
            Message::Register(msg) => after.io_handler_queue@.last() == msg.coro,
            Message::Deregister(msg) => {
                &&& after.io_handler_queue@.last() == msg.coro
                &&& !after.slab@.dom().contains(msg.token)
                &&& call_ensures(msg.cb, (), ())
            },
            _ => after.io_handler_queue@ == before.io_handler_queue@,
        },
        after.is_running == (before.is_running && !(msg is Shutdown)),
{
    broadcast use vstd::seq_lib::group_to_multiset_ensures;

    let a = scheduler::all_pending(after);
    let b = scheduler::all_pending(before);
    match msg {
        Message::Register(msg) => {
            if before.slab.grown().len() != 0 {
                let (key, done) = choose|key: usize, done: bool| #[trigger]
                    call_ensures(msg.cb, (before.slab.grown()[0], key), done)
                        && !before.ready_states@.dom().contains(key) && (if done {
                        scheduler::registered(before, after, key)
                    } else {
                        scheduler::not_registered(before, after)
                    });
                if done {
                    lemma_states_came(before.ready_states@, after.ready_states@, key);
                }
            }
            assert(a =~= b.insert(msg.coro));
        },
        Message::Deregister(msg) => {
            assert(a =~= b.insert(msg.coro));
        },
        _ => {},
    }
}

/// Handing over what was woken up loses no coroutine: all of it is in the global queue then, behind
/// what was there, and in the same order.
pub proof fn handing_over_loses_no_coroutine(before: Scheduler, after: Scheduler, count: usize)
    requires
        scheduler::handed_over(before, after, count),
    ensures
        scheduler::all_pending(after) == scheduler::all_pending(before),
        after.machines.global_queue@ == before.machines.global_queue@ + before.io_handler_queue@,
        same_processors_wait(before, after),
        count > 0 ==> before.io_handler_queue@.len() > 0,
        before.io_handler_queue@.len() > 0 && before.machines.spinning_processor_count == 0
            && before.machines.idle_processor_count > 0 ==> count > 0,
{
    broadcast use vstd::seq_lib::group_to_multiset_ensures;

    vstd::seq_lib::lemma_multiset_commutative(
        before.machines.global_queue@,
        before.io_handler_queue@,
    );
    assert(after.io_handler_queue@ =~= Seq::<Handle>::empty());
    assert(scheduler::all_pending(after) =~= scheduler::all_pending(before));
}

proof fn lemma_handled<R: FnOnce(usize, usize) -> bool, D: FnOnce()>(
    trace: Seq<Scheduler>,
    events: Seq<Event<R, D>>,
    n: int,
)
    requires
        0 <= n < trace.len() <= events.len() + 1,
        forall|i: int| 0 <= i < trace.len() ==> (#[trigger] trace[i]).wf(),
        scheduler::handled_in_order(trace, events),
    ensures
        scheduler::all_pending(trace[n]) == scheduler::all_pending(trace[0]).add(
            sent_along(events.take(n)).to_multiset(),
        ),
    decreases n,
{
    broadcast use vstd::seq_lib::group_to_multiset_ensures;

    if n == 0 {
        assert(scheduler::all_pending(trace[0]) =~= scheduler::all_pending(trace[0]).add(
            sent_along(events.take(0)).to_multiset(),
        ));
    } else {
        lemma_handled(trace, events, n - 1);
        let event = events[n - 1];
        let before = trace[n - 1];
        let after = trace[n];
        assert(scheduler::event_handled(trace[n - 1], trace[n - 1 + 1], events[n - 1]));
        assert(events.take(n).drop_last() =~= events.take(n - 1));
        assert(events.take(n).last() == event);
        assert(before.wf());
        match event {
            Event::Message(msg) => {
                message_loses_no_coroutine(before, after, msg);
            },
            Event::Ready(token, ready) => {
                event_loses_no_coroutine(before, after, token, ready);
            },
        }
        assert(scheduler::all_pending(trace[n]) =~= scheduler::all_pending(trace[0]).add(
            sent_along(events.take(n)).to_multiset(),
        ));
    }
}

/// Whoever sleeps until a time that has come is woken up by a tick.
pub proof fn due_sleeper_is_woken(before: Scheduler, after: Scheduler, now: LocalTime, i: int)
    requires
        before.wf(),
        after.same_but_sleepers(before),
        scheduler::ticked(before, after, now),
        0 <= i < before.timer@.len(),
        before.timer@[i].expected_wakeup_time.spec_not_after(now),
    ensures
        before.timer@[i].value matches TimerWaitType::Handle(hdl)
            ==> after.io_handler_queue@.contains(hdl),
{
    broadcast use vstd::seq_lib::group_to_multiset_ensures;

    if let TimerWaitType::Handle(hdl) = before.timer@[i].value {
        tick_loses_no_coroutine(before, after, now);
        let n = before.timer@.len() - after.timer@.len();
        let due = before.timer@.take(n);
        if i >= n {
            assert(after.timer@[i - n] == before.timer@[i]);
        }
        let values = due.map_values(|t: SleepingTask<TimerWaitType>| t.value);
        assert(values[i] == TimerWaitType::Handle(hdl));
        assert(values.contains(TimerWaitType::Handle(hdl)));
        assert(after.io_handler_queue@.to_multiset().count(hdl) > 0);
    }
}

/// A whole round of the event loop loses no coroutine: whoever was pending still is, together with
/// those that came with messages. Nothing whose time has come sleeps on, and nobody who was woken
/// up waits to be handed over to the processors.
pub proof fn round_loses_no_coroutine<R: FnOnce(usize, usize) -> bool, D: FnOnce()>(
    before: Scheduler,
    after: Scheduler,
    events: Seq<Event<R, D>>,
    now: LocalTime,
    count: usize,
)
    requires
        scheduler::round_done(before, after, events, now, count),
    ensures
        scheduler::all_pending(after) == scheduler::all_pending(before).add(
            sent_along(events).to_multiset(),
        ),
        after.io_handler_queue@.len() == 0,
        forall|i: int|
            0 <= i < after.timer@.len() ==> !(
            #[trigger] after.timer@[i]).expected_wakeup_time.spec_not_after(now),
{
    let (trace, woken) = choose|trace: Seq<Scheduler>, woken: Scheduler| #[trigger]
        scheduler::round_of(before, after, events, now, count, trace, woken);
    let n = events.len() as int;
    assert(trace.last() == trace[n]);
    assert(trace[n].wf());
    lemma_handled(trace, events, n);
    assert(events.take(n) =~= events);
    tick_loses_no_coroutine(trace.last(), woken, now);
    handing_over_loses_no_coroutine(woken, after, count);
}

/// A coroutine that goes to sleep is pending from then on, parked, and no other one is touched. It
/// sleeps for no less than the time that it asked for: a tick before that leaves it asleep, and
/// the first tick that is not before that wakes it up.
pub proof fn coroutine_sleeps_as_long_as_it_asked_for(
    before: Scheduler,
    asleep: Scheduler,
    after: Scheduler,
    id: int,
    now: LocalTime,
    delay: u64,
    later: LocalTime,
)
    requires
        before.wf(),
        asleep.wf(),
        0 <= id < before.machines.processors@.len(),
        scheduler::put_to_sleep(before, asleep, id, now, delay),
        after.same_but_sleepers(asleep),
        scheduler::ticked(asleep, after, later),
        later.nanos < 1_000_000_000,
    ensures
        asleep.machines.processors@[id].current_coro is None,
        asleep.timer.spec_next_number() > before.timer.spec_next_number(),
        same_processors_wait(before, asleep),
        exists|coro: Handle|
            {
                &&& #[trigger] coro.spec_id()
                    == before.machines.processors@[id].current_coro->0.spec_id()
                &&& coro.spec_state() == State::Parked
                &&& scheduler::all_pending(asleep) == scheduler::all_pending(before).insert(coro)
                &&& later.instant() < now.instant() + delay * 1_000_000 ==> exists|i: int|
                    0 <= i < after.timer@.len() && (#[trigger] after.timer@[i]).value
                        == TimerWaitType::Handle(coro)
                &&& later.instant() >= now.instant() + delay * 1_000_000
                    ==> after.io_handler_queue@.contains(coro)
            },
{
    let timeout = Timeout { number: before.timer.spec_next_number() };
    let coro = choose|coro: Handle|
        {
            &&& #[trigger] coro.moved_to(
                before.machines.processors@[id].current_coro->0,
                State::Parked,
            )
            &&& Timer::put_to_sleep(
                before.timer@,
                asleep.timer@,
                now,
                delay,
                TimerWaitType::Handle(coro),
                timeout,
            )
        };
    let wakeup = choose|wakeup: LocalTime|
        wakeup.instant() == now.instant() + delay * 1_000_000 && wakeup.nanos < 1_000_000_000
            && #[trigger] Timer::added(
            before.timer@,
            asleep.timer@,
            SleepingTask {
                value: TimerWaitType::Handle(coro),
                expected_wakeup_time: wakeup,
                timeout,
            },
        );
    let task = SleepingTask {
        value: TimerWaitType::Handle(coro),
        expected_wakeup_time: wakeup,
        timeout,
    };
    let k = choose|k: int|
        0 <= k <= before.timer@.len() && asleep.timer@ == #[trigger] before.timer@.insert(k, task)
            && (forall|i: int|
            0 <= i < k ==> (#[trigger] before.timer@[i]).expected_wakeup_time.spec_not_after(wakeup))
            && (forall|i: int|
            k <= i < before.timer@.len() ==> !(
            #[trigger] before.timer@[i]).expected_wakeup_time.spec_not_after(wakeup));
    assert(asleep.timer@[k] == task);
    lemma_sleeper_came(before.timer@, k, task);
    lemma_current_not_pending(
        before.machines.processors@,
        asleep.machines.processors@,
        id,
    );
    assert(scheduler::all_pending(asleep) =~= scheduler::all_pending(before).insert(coro));
    if later.instant() < now.instant() + delay * 1_000_000 {
        assert(!wakeup.spec_not_after(later));
        let n = choose|n: int| #[trigger] scheduler::ticked_by(asleep, after, later, n);
        assert(k >= n);
        assert(after.timer@[k - n].value == TimerWaitType::Handle(coro));
    } else {
        assert(wakeup.spec_not_after(later));
        due_sleeper_is_woken(asleep, after, later, k);
    }
    assert(coro.spec_id() == before.machines.processors@[id].current_coro->0.spec_id());
}

proof fn lemma_sleeper_came(
    before: Seq<SleepingTask<TimerWaitType>>,
    k: int,
    task: SleepingTask<TimerWaitType>,
)
    requires
        0 <= k <= before.len(),
    ensures
        pending::sleeping_in(before.insert(k, task)) == (match task.value {
            TimerWaitType::Handle(hdl) => pending::sleeping_in(before).insert(hdl),
            TimerWaitType::Waiter { .. } => pending::sleeping_in(before),
        }),
    decreases before.len(),
{
    let after = before.insert(k, task);
    if k == before.len() {
        assert(after.drop_last() =~= before);
    } else {
        lemma_sleeper_came(before.drop_last(), k, task);
        assert(after.drop_last() =~= before.drop_last().insert(k, task));
        assert(after.last() == before.last());
        assert(pending::sleeping_in(after) =~= (match task.value {
            TimerWaitType::Handle(hdl) => pending::sleeping_in(before).insert(hdl),
            TimerWaitType::Waiter { .. } => pending::sleeping_in(before),
        }));
    }
}

/// What runs on a processor does not count among what is pending there.
proof fn lemma_current_not_pending(before: Seq<Processor>, after: Seq<Processor>, id: int)
    requires
        scheduler::changed_current(before, after, id),
    ensures
        pending::run_nexts(after) == pending::run_nexts(before),
        machines::in_local_queues(after) == machines::in_local_queues(before),
{
    lemma_same_work(before, after);
}

proof fn lemma_same_work(before: Seq<Processor>, after: Seq<Processor>)
    requires
        after.len() == before.len(),
        forall|i: int|
            0 <= i < before.len() ==> (#[trigger] after[i]).run_next == before[i].run_next
                && after[i].queue@ == before[i].queue@,
    ensures
        pending::run_nexts(after) == pending::run_nexts(before),
        machines::in_local_queues(after) == machines::in_local_queues(before),
    decreases before.len(),
{
    if before.len() > 0 {
        assert forall|i: int| 0 <= i < before.len() - 1 implies (
        #[trigger] after.drop_last()[i]).run_next == before.drop_last()[i].run_next
            && after.drop_last()[i].queue@ == before.drop_last()[i].queue@ by {
            assert(after[i].run_next == before[i].run_next);
        }
        assert(after[after.len() - 1].run_next == before[before.len() - 1].run_next);
        lemma_same_work(before.drop_last(), after.drop_last());
    }
}

/// Those that wait on objects, when one more coroutine waits on one of them.
proof fn lemma_waits_on(
    before: StatesMap,
    after: StatesMap,
    key: usize,
    ready_type: ReadyType,
    coro: Handle,
)
    requires
        before.dom().contains(key),
        after == before.insert(key, after[key]),
        after[key] == before[key].with_condvar(ready_type, after[key].condvar(ready_type)),
        condvar::waiting_in(after[key].condvar(ready_type).waiters@) == condvar::waiting_in(
            before[key].condvar(ready_type).waiters@,
        ).insert(coro),
    ensures
        pending::waiting_in(after) == pending::waiting_in(before).insert(coro),
{
    lemma_object_changed(before, after, key);
    assert(after[key].waiting() =~= before[key].waiting().insert(coro));
    let a = pending::waiting_in(after);
    let b = pending::waiting_in(before);
    assert forall|hdl: Handle| #[trigger] a.count(hdl) == b.insert(coro).count(hdl) by {
        assert(a.add(before[key].waiting()).count(hdl) == b.add(after[key].waiting()).count(hdl));
    }
    assert(a =~= b.insert(coro));
}

/// A coroutine that waits on an object is pending from then on, parked, and no other one is
/// touched. If it was the only one that waited for this, the next event of this kind on the object
/// wakes it up, whatever other events come with it, and no event on another object does.
pub proof fn waiting_coroutine_is_woken_by_its_event(
    before: Scheduler,
    waits: Scheduler,
    after: Scheduler,
    id: int,
    key: usize,
    ready_type: ReadyType,
    waiter: usize,
    token: usize,
    events: Ready,
)
    requires
        before.wf(),
        waits.wf(),
        0 <= id < before.machines.processors@.len(),
        before.ready_states@.dom().contains(key),
        scheduler::waits_for(before, waits, id, key, ready_type),
        waits.timer == before.timer,
        condvar::waited(
            before.ready_states@[key].condvar(ready_type),
            waits.ready_states@[key].condvar(ready_type),
            before.machines.processors@[id],
            waits.machines.processors@[id],
            Some(waiter),
        ),
        before.ready_states@[key].condvar(ready_type).list.head is None,
        waits.slab@.dom().contains(token),
        scheduler::object_ready(waits, after, token, events),
    ensures
        waits.machines.processors@[id].current_coro is None,
        same_processors_wait(before, waits),
        exists|coro: Handle|
            {
                let told = scheduler::waiter_at(after.ready_states@, key, ready_type, waiter);
                let bit: usize = match ready_type {
                    ReadyType::Readable => 1,
                    ReadyType::Writable => 2,
                };
                &&& #[trigger] coro.spec_id()
                    == before.machines.processors@[id].current_coro->0.spec_id()
                &&& coro.spec_state() == State::Parked
                &&& scheduler::all_pending(waits) == scheduler::all_pending(before).insert(coro)
                &&& told is Some
                &&& (waits.slab@[token] == key && events.bits & bit == bit) ==> {
                    &&& told->0.handle is None
                    &&& told->0.state == WaiterState::Succeeded
                    &&& after.io_handler_queue@.contains(coro)
                }
                &&& !(waits.slab@[token] == key && events.bits & bit == bit) ==> {
                    &&& told->0.handle == Some(coro)
                    &&& told->0.state == WaiterState::Empty
                }
            },
{
    let b = before.ready_states@[key].condvar(ready_type);
    let w = waits.ready_states@[key].condvar(ready_type);
    let coro = choose|coro: Handle|
        {
            &&& #[trigger] coro.moved_to(
                before.machines.processors@[id].current_coro->0,
                State::Parked,
            )
            &&& condvar::waits(b, w, waiter, coro)
        };
    assert(before.ready_states@[key].wf());
    assert(waits.ready_states@.dom().contains(key));
    assert(waits.ready_states@[key].wf());
    condvar::waiting_adds_one_coroutine(b, w, waiter, coro);
    lemma_waits_on(before.ready_states@, waits.ready_states@, key, ready_type, coro);
    lemma_current_not_pending(before.machines.processors@, waits.machines.processors@, id);
    assert(scheduler::all_pending(waits) =~= scheduler::all_pending(before).insert(coro));
    object_event_wakes_the_longest_waiting(waits, after, token, events, ready_type, key);
    if waits.slab@[token] == key {
        let at = waits.ready_states@[key];
        let end = after.ready_states@[key];
        let had = waits.io_handler_queue@;
        let has = after.io_handler_queue@;
        let middle = choose|middle: Seq<Handle>| #[trigger]
            ready::notified_in_turn(at, end, events, had, middle, has);
        match ready_type {
            ReadyType::Readable => {
                if events.bits & 1 == 1 {
                    condvar::notification_wakes_the_longest_waiting(
                        at.readable,
                        end.readable,
                        had,
                        middle,
                    );
                }
            },
            ReadyType::Writable => {
                if events.bits & 2 == 2 {
                    condvar::notification_wakes_the_longest_waiting(
                        at.writable,
                        end.writable,
                        middle,
                        has,
                    );
                }
            },
        }
    }
    assert(coro.spec_id() == before.machines.processors@[id].current_coro->0.spec_id());
}

/// A coroutine that waits on an object, but not longer than a given time, is pending from then on,
/// parked. A tick before that time leaves it waiting. The first tick that is not before that time
/// tells it that the time ran out, and wakes it up.
pub proof fn waiting_coroutine_is_woken_by_its_timeout(
    before: Scheduler,
    waits: Scheduler,
    after: Scheduler,
    id: int,
    key: usize,
    ready_type: ReadyType,
    waiter: usize,
    now: LocalTime,
    delay: u64,
    later: LocalTime,
)
    requires
        before.wf(),
        waits.wf(),
        0 <= id < before.machines.processors@.len(),
        before.ready_states@.dom().contains(key),
        scheduler::waits_for(before, waits, id, key, ready_type),
        condvar::waited_timeout(
            before.ready_states@[key].condvar(ready_type),
            waits.ready_states@[key].condvar(ready_type),
            before.timer,
            waits.timer,
            before.machines.processors@[id],
            waits.machines.processors@[id],
            ready_type,
            key,
            now,
            delay,
            Some(waiter),
        ),
        after.same_but_sleepers(waits),
        scheduler::ticked(waits, after, later),
        later.nanos < 1_000_000_000,
    ensures
        waits.machines.processors@[id].current_coro is None,
        same_processors_wait(before, waits),
        exists|coro: Handle|
            {
                let told = scheduler::waiter_at(after.ready_states@, key, ready_type, waiter);
                &&& #[trigger] coro.spec_id()
                    == before.machines.processors@[id].current_coro->0.spec_id()
                &&& coro.spec_state() == State::Parked
                &&& scheduler::all_pending(waits) == scheduler::all_pending(before).insert(coro)
                &&& told is Some
                &&& later.instant() >= now.instant() + delay * 1_000_000 ==> {
                    &&& told->0.handle is None
                    &&& told->0.state == WaiterState::Timeout
                    &&& after.io_handler_queue@.contains(coro)
                }
                &&& later.instant() < now.instant() + delay * 1_000_000 ==> {
                    &&& told->0.handle == Some(coro)
                    &&& told->0.state == WaiterState::Empty
                }
            },
{
    let b = before.ready_states@[key].condvar(ready_type);
    let w = waits.ready_states@[key].condvar(ready_type);
    let timeout = Timeout { number: before.timer.spec_next_number() };
    let value = TimerWaitType::Waiter { states: key, ready_type, waiter };
    let coro = choose|coro: Handle|
        {
            &&& #[trigger] coro.moved_to(
                before.machines.processors@[id].current_coro->0,
                State::Parked,
            )
            &&& condvar::waits_timeout(b, w, waiter, coro, timeout)
        };
    assert(before.ready_states@[key].wf());
    assert(condvar::waits_timeout(b, w, waiter, coro, timeout));
    condvar::waiting_adds_one_coroutine(b, w, waiter, coro);
    lemma_waits_on(before.ready_states@, waits.ready_states@, key, ready_type, coro);
    lemma_current_not_pending(before.machines.processors@, waits.machines.processors@, id);
    let wakeup = choose|wakeup: LocalTime|
        wakeup.instant() == now.instant() + delay * 1_000_000 && wakeup.nanos < 1_000_000_000
            && #[trigger] Timer::added(
            before.timer@,
            waits.timer@,
            SleepingTask { value, expected_wakeup_time: wakeup, timeout },
        );
    let task = SleepingTask { value, expected_wakeup_time: wakeup, timeout };
    let k = choose|k: int|
        0 <= k <= before.timer@.len() && waits.timer@ == #[trigger] before.timer@.insert(k, task)
            && (forall|i: int|
            0 <= i < k ==> (#[trigger] before.timer@[i]).expected_wakeup_time.spec_not_after(wakeup))
            && (forall|i: int|
            k <= i < before.timer@.len() ==> !(
            #[trigger] before.timer@[i]).expected_wakeup_time.spec_not_after(wakeup));
    assert(waits.timer@[k] == task);
    lemma_sleeper_came(before.timer@, k, task);
    assert(scheduler::all_pending(waits) =~= scheduler::all_pending(before).insert(coro));
    assert(scheduler::waiter_at(waits.ready_states@, key, ready_type, waiter) is Some);
    tick_tells_those_whose_time_has_come(waits, after, later, key, ready_type, waiter);
    if later.instant() >= now.instant() + delay * 1_000_000 {
        assert(wakeup.spec_not_after(later));
        assert(waits.timer@[k].value == value);
    } else {
        assert(!wakeup.spec_not_after(later));
        assert forall|i: int|
            0 <= i < waits.timer@.len() && (#[trigger] waits.timer@[i]).value == value implies i
            == k by {
            assert(scheduler::sleeper_wf(waits.timer@[i], waits.ready_states@));
            assert(scheduler::sleeper_wf(waits.timer@[k], waits.ready_states@));
            if i < k {
                assert(waits.timer@[i].timeout != waits.timer@[k].timeout);
            } else if i > k {
                assert(waits.timer@[k].timeout != waits.timer@[i].timeout);
            }
        }
    }
    assert(coro.spec_id() == before.machines.processors@[id].current_coro->0.spec_id());
}

/// As many processors wait and look for work as before, and they may wait as before.
pub open spec fn same_processors_wait(before: Scheduler, after: Scheduler) -> bool {
    &&& after.machines.idle_processor_count == before.machines.idle_processor_count
    &&& after.machines.spinning_processor_count == before.machines.spinning_processor_count
    &&& after.machines.stopping == before.machines.stopping
}

/// All coroutines that wait for a processor: those that are to run next, and those in the queues.
pub open spec fn queued_in(machines: Machines) -> Multiset<Handle> {
    ready_on(machines.processors@, machines.global_queue@)
}

/// All coroutines that are to run next on these processors, are in their queues, or in the global
/// one.
pub open spec fn ready_on(processors: Seq<Processor>, global: Seq<Handle>) -> Multiset<Handle> {
    pending::run_nexts(processors).add(machines::in_local_queues(processors)).add(
        global.to_multiset(),
    )
}

/// When what is to run next changes on one processor only, the coroutines that are to run next
/// change by as much.
proof fn lemma_one_run_next_changes(
    before: Seq<Processor>,
    after: Seq<Processor>,
    id: int,
    hdl: Handle,
)
    requires
        0 <= id < before.len(),
        after.len() == before.len(),
        forall|i: int|
            0 <= i < before.len() && i != id ==> (#[trigger] after[i]).run_next
                == before[i].run_next,
    ensures
        pending::run_nexts(after).count(hdl) + pending::just(before[id].run_next).count(hdl)
            == pending::run_nexts(before).count(hdl) + pending::just(after[id].run_next).count(hdl),
    decreases before.len(),
{
    let last = before.len() - 1;
    let b = before.drop_last();
    let a = after.drop_last();
    if id == last {
        assert forall|i: int| 0 <= i < b.len() implies (#[trigger] a[i]).run_next
            == b[i].run_next by {
            assert(after[i].run_next == before[i].run_next);
        }
        lemma_same_run_nexts(b, a);
    } else {
        assert forall|i: int| 0 <= i < b.len() && i != id implies (#[trigger] a[i]).run_next
            == b[i].run_next by {
            assert(after[i].run_next == before[i].run_next);
        }
        lemma_one_run_next_changes(b, a, id, hdl);
        assert(after[last].run_next == before[last].run_next);
    }
}

proof fn lemma_same_run_nexts(before: Seq<Processor>, after: Seq<Processor>)
    requires
        after.len() == before.len(),
        forall|i: int|
            0 <= i < before.len() ==> (#[trigger] after[i]).run_next == before[i].run_next,
    ensures
        pending::run_nexts(after) == pending::run_nexts(before),
    decreases before.len(),
{
    if before.len() > 0 {
        let b = before.drop_last();
        let a = after.drop_last();
        assert forall|i: int| 0 <= i < b.len() implies (#[trigger] a[i]).run_next
            == b[i].run_next by {
            assert(after[i].run_next == before[i].run_next);
        }
        assert(after[after.len() - 1].run_next == before[before.len() - 1].run_next);
        lemma_same_run_nexts(b, a);
    }
}

/// Making a coroutine ready adds that one to those that wait for a processor, once, and nothing
/// else.
pub proof fn making_ready_adds_one_coroutine(
    before: Seq<Processor>,
    after: Seq<Processor>,
    global_before: Seq<Handle>,
    global_after: Seq<Handle>,
    id: int,
    coro: Handle,
)
    requires
        0 <= id < before.len(),
        before[id].queue@.len() <= QUEUE_SIZE,
        machines::made_ready(before, after, global_before, global_after, id, coro),
    ensures
        ready_on(after, global_after) == ready_on(before, global_before).insert(coro),
{
    machines::making_ready_keeps_every_coroutine(
        before,
        after,
        global_before,
        global_after,
        id,
        coro,
    );
    lemma_same_run_nexts(before, after);
    let a = ready_on(after, global_after);
    let b = ready_on(before, global_before).insert(coro);
    assert forall|hdl: Handle| #[trigger] a.count(hdl) == b.count(hdl) by {
        assert(machines::in_local_queues(after).add(global_after.to_multiset()).count(hdl)
            == machines::in_local_queues(before).add(global_before.to_multiset()).insert(
            coro,
        ).count(hdl));
    }
    assert(a =~= b);
}

/// Fetching coroutines takes away the one that is to run from those that wait for a processor, and
/// no other one.
proof fn lemma_fetched(
    before: Seq<Processor>,
    after: Seq<Processor>,
    global_before: Seq<Handle>,
    global_after: Seq<Handle>,
    id: int,
    next: Option<Handle>,
)
    requires
        0 <= id < before.len(),
        before[id].queue@.len() == 0,
        machines::fetched(before, after, global_before, global_after, id, next),
    ensures
        ready_on(before, global_before) == ready_on(after, global_after).add(pending::just(next)),
        forall|i: int| 0 <= i < before.len() ==> (#[trigger] after[i]).run_next == before[i].run_next,
        after.len() == before.len(),
{
    machines::fetching_keeps_every_coroutine(
        before,
        after,
        global_before,
        global_after,
        id,
        next,
    );
    assert forall|i: int| 0 <= i < before.len() implies (#[trigger] after[i]).run_next
        == before[i].run_next by {
        if let Some(hdl) = next {
            if !machines::no_local_work(before) {
                let victim = choose|victim: int| #[trigger]
                    machines::stolen(before, after, id, victim, hdl);
                assert(machines::stolen(before, after, id, victim, hdl));
            }
        }
    }
    lemma_same_run_nexts(before, after);
    let b = ready_on(before, global_before);
    let a = ready_on(after, global_after).add(pending::just(next));
    assert forall|hdl: Handle| #[trigger] b.count(hdl) == a.count(hdl) by {
        assert(machines::in_local_queues(before).add(global_before.to_multiset()).count(hdl)
            == machines::in_local_queues(after).add(global_after.to_multiset()).add(
            match next {
                Some(hdl) => Multiset::singleton(hdl),
                None => Multiset::empty(),
            },
        ).count(hdl));
    }
    assert(b =~= a);
}

/// Picking the next coroutine takes that one away from those that wait for a processor, once, and
/// no other one: wherever it was and whatever was fetched together with it.
pub proof fn picking_takes_one_coroutine(
    before: Seq<Processor>,
    after: Seq<Processor>,
    global_before: Seq<Handle>,
    global_after: Seq<Handle>,
    id: int,
    next: Option<Handle>,
)
    requires
        0 <= id < before.len(),
        machines::picked(before, after, global_before, global_after, id, next),
    ensures
        ready_on(before, global_before) == ready_on(after, global_after).add(pending::just(next)),
{
    broadcast use vstd::seq_lib::group_to_multiset_ensures;

    let a = ready_on(after, global_after).add(pending::just(next));
    let b = ready_on(before, global_before);
    if before[id].run_next is Some {
        assert(after.len() == before.len());
        machines::lemma_no_queue_changes(before, after);
        assert forall|hdl: Handle| #[trigger] a.count(hdl) == b.count(hdl) by {
            lemma_one_run_next_changes(before, after, id, hdl);
        }
        assert(a =~= b);
    } else if before[id].queue@.len() > 0 {
        machines::lemma_one_queue_changes(before, after, id);
        lemma_same_run_nexts(before, after);
        let queue = before[id].queue@;
        let rest = after[id].queue@;
        let first = queue.first();
        assert(queue =~= seq![first] + rest);
        vstd::seq_lib::lemma_multiset_commutative(seq![first], rest);
        assert(seq![first] =~= Seq::<Handle>::empty().push(first));
        assert forall|hdl: Handle| #[trigger] a.count(hdl) == b.count(hdl) by {
            assert(machines::in_local_queues(after).add(queue.to_multiset()).count(hdl)
                == machines::in_local_queues(before).add(rest.to_multiset()).count(hdl));
        }
        assert(a =~= b);
    } else {
        lemma_fetched(before, after, global_before, global_after, id, next);
    }
}

/// A processor that runs a coroutine has taken it from those that wait for a processor: it was
/// there once more before, and all others are still there.
pub proof fn running_takes_one_coroutine(before: Machines, after: Machines, id: int)
    requires
        0 <= id < before.processors@.len(),
        before.processors@[id].current_coro is None,
        machines::runs_picked(before, after, id),
    ensures
        exists|hdl: Handle|
            {
                &&& #[trigger] queued_in(before).count(hdl) > 0
                &&& queued_in(after) == queued_in(before).remove(hdl)
                &&& after.processors@[id].current_coro matches Some(coro) && coro.spec_id()
                    == hdl.spec_id() && coro.spec_state() == State::Running
            },
{
    let hdl = choose|hdl: Handle| #[trigger] machines::runs_picked_as(before, after, id, hdl);
    let bare = machines::with_current(after.processors@, id, None);
    picking_takes_one_coroutine(
        before.processors@,
        bare,
        before.global_queue@,
        after.global_queue@,
        id,
        Some(hdl),
    );
    lemma_same_work(bare, after.processors@);
    assert(queued_in(before).count(hdl) > 0);
    assert(queued_in(after) =~= queued_in(before).remove(hdl));
}

/// A coroutine that was only suspended is not lost: after it was put away it waits for a
/// processor, once more than before, together with all others. One that has finished does not run
/// any more. And nothing runs on the processor.
pub proof fn suspended_coroutine_runs_again(
    before: Machines,
    after: Machines,
    id: int,
    count: usize,
)
    requires
        before.wf(),
        0 <= id < before.processors@.len(),
        before.processors@[id].run_next is None,
        machines::put_away(before, after, id, count),
    ensures
        after.processors@[id].current_coro is None,
        match before.processors@[id].current_coro {
            Some(coro) if coro.spec_state() != State::Finished => queued_in(after) == queued_in(
                before,
            ).insert(coro),
            _ => queued_in(after) == queued_in(before),
        },
{
    let bare = machines::with_current(before.processors@, id, None);
    let now = after.processors@;
    assert(Machines::processor_wf(before.processors@[id], id, before.processors@.len()));
    before.processors@[id].queue.lemma_len();
    lemma_same_work(before.processors@, bare);
    match before.processors@[id].current_coro {
        None => {},
        Some(coro) => {
            if coro.spec_state() == State::Finished {
                lemma_same_work(bare, now);
            } else if bare[id].queue@.len() > 0 {
                making_ready_adds_one_coroutine(
                    bare,
                    now,
                    before.global_queue@,
                    after.global_queue@,
                    id,
                    coro,
                );
            } else {
                let middle = choose|middle: Seq<Processor>| #[trigger]
                    machines::fetched_then_ready(
                        bare,
                        middle,
                        now,
                        before.global_queue@,
                        after.global_queue@,
                        id,
                        coro,
                    );
                let next = now[id].run_next;
                let aside = machines::with_run_next(now, id, None);
                lemma_fetched(
                    bare,
                    middle,
                    before.global_queue@,
                    after.global_queue@,
                    id,
                    next,
                );
                making_ready_adds_one_coroutine(
                    middle,
                    aside,
                    after.global_queue@,
                    after.global_queue@,
                    id,
                    coro,
                );
                machines::lemma_no_queue_changes(aside, now);
                let a = queued_in(after);
                let b = queued_in(before).insert(coro);
                assert forall|hdl: Handle| #[trigger] a.count(hdl) == b.count(hdl) by {
                    lemma_one_run_next_changes(aside, now, id, hdl);
                    assert(aside[id].run_next is None);
                    assert(ready_on(aside, after.global_queue@).count(hdl) == ready_on(
                        middle,
                        after.global_queue@,
                    ).insert(coro).count(hdl));
                    assert(ready_on(bare, before.global_queue@).count(hdl) == ready_on(
                        middle,
                        after.global_queue@,
                    ).add(pending::just(next)).count(hdl));
                }
                assert(a =~= b);
            }
        },
    }
}

/// An object that asks to be registered gets a token that no other object has, and ready states of
/// its own on which nobody waits; its callback is told exactly these. If there is no token, or the
/// callback refuses, nothing is registered. Either way the other objects keep their tokens and
/// their states.
pub proof fn registered_object_has_a_token_of_its_own<
    R: FnOnce(usize, usize) -> bool,
    D: FnOnce(),
>(before: Scheduler, after: Scheduler, msg: RegisterMessage<R>)
    requires
        before.wf(),
        scheduler::message_handled::<R, D>(before, after, Message::Register(msg)),
    ensures
        forall|token: usize| #[trigger]
            before.slab@.dom().contains(token) ==> after.slab@.dom().contains(token)
                && after.slab@[token] == before.slab@[token],
        forall|key: usize| #[trigger]
            before.ready_states@.dom().contains(key) ==> after.ready_states@.dom().contains(key)
                && after.ready_states@[key] == before.ready_states@[key],
        after.slab@ == before.slab@ ==> after.ready_states@ == before.ready_states@,
        after.slab@ != before.slab@ ==> exists|token: usize, key: usize| #[trigger]
            call_ensures(msg.cb, (token, key), true) && {
                &&& !before.slab@.dom().contains(token)
                &&& !before.ready_states@.dom().contains(key)
                &&& after.slab@ == before.slab@.insert(token, key)
                &&& after.ready_states@.dom() == before.ready_states@.dom().insert(key)
                &&& after.ready_states@[key].waiting() == Multiset::<Handle>::empty()
                &&& before.slab.grown() == seq![token] + after.slab.vacant()
            },
        after.slab@ == before.slab@ ==> after.slab.vacant() == before.slab.grown(),
        after.slab@ == before.slab@ && before.slab.vacant().len() > 0 ==> exists|
            token: usize,
            key: usize,
        | #[trigger] call_ensures(msg.cb, (token, key), false),
{
    if before.slab.grown().len() != 0 {
        let token = before.slab.grown()[0];
        let (key, done) = choose|key: usize, done: bool| #[trigger]
            call_ensures(msg.cb, (token, key), done) && !before.ready_states@.dom().contains(key)
                && (if done {
                scheduler::registered(before, after, key)
            } else {
                scheduler::not_registered(before, after)
            });
        if done {
            let states = after.ready_states@[key];
            assert(states.condvar(ReadyType::Readable).waiters@ == Map::<usize, Waiter>::empty());
            assert(states.condvar(ReadyType::Writable).waiters@ == Map::<usize, Waiter>::empty());
            condvar::lemma_nobody_waits(states.readable.waiters@);
            condvar::lemma_nobody_waits(states.writable.waiters@);
            assert(states.waiting() =~= Multiset::<Handle>::empty());
            assert(after.ready_states@.dom() =~= before.ready_states@.dom().insert(key));
            assert(after.slab@.dom().contains(token));
            assert(after.slab@ != before.slab@);
            assert(seq![token] + after.slab.vacant() =~= before.slab.grown());
            assert(call_ensures(msg.cb, (token, key), true));
        } else {
            assert(call_ensures(msg.cb, (token, key), false));
        }
    }
}

/// A new coroutine is pending, once, ready to run for the first time, with a number that no
/// coroutine before it had, and is counted as one more that has not ended. Without a stack for it
/// nothing comes and nothing is counted.
pub proof fn spawning_adds_one_coroutine(
    before: Scheduler,
    after: Scheduler,
    id: int,
    opts: Options,
    result: Result<usize, StackUnavailable>,
)
    requires
        before.wf(),
        0 <= id < before.machines.processors@.len(),
        before.spawned < usize::MAX,
        before.work_count < usize::MAX,
        scheduler::scheduler_spawned(before, after, id, opts, result),
    ensures
        same_processors_wait(before, after),
        result is Err ==> {
            &&& scheduler::all_pending(after) == scheduler::all_pending(before)
            &&& after.spawned == before.spawned
            &&& after.work_count == before.work_count
            &&& result->Err_0.size == opts.stack_size
        },
        result is Ok ==> {
            &&& after.spawned == before.spawned + 1
            &&& after.work_count == before.work_count + 1
            &&& result->Ok_0 > 0 <==> before.machines.spinning_processor_count == 0
                && before.machines.idle_processor_count > 0
            &&& exists|coro: Handle|
                {
                    &&& scheduler::all_pending(after) == #[trigger] scheduler::all_pending(
                        before,
                    ).insert(coro)
                    &&& coro.spec_id() == before.spawned
                    &&& coro.spec_state() == State::Suspended
                    &&& coro.spec_coro().spec_name() == opts.name
                    &&& coro.spec_coro().spec_stack() matches Some(stack) && stack.spec_len()
                        >= opts.stack_size
                }
        },
{
    let b = before.machines.processors@;
    let a = after.machines.processors@;
    assert(Machines::processor_wf(b[id], id, b.len()));
    b[id].queue.lemma_len();
    match result {
        Err(_) => {
            lemma_same_work(b, a);
        },
        Ok(_) => {
            let (coro, pool) = choose|coro: Handle, pool: StackPool| #[trigger]
                machines::spawned_as(
                    before.machines,
                    after.machines,
                    id,
                    before.spawned,
                    opts,
                    coro,
                    pool,
                );
            let pooled = machines::with_pool(b, id, pool);
            lemma_same_work(b, pooled);
            making_ready_adds_one_coroutine(
                pooled,
                a,
                before.machines.global_queue@,
                after.machines.global_queue@,
                id,
                coro,
            );
            let x = scheduler::all_pending(after);
            let y = scheduler::all_pending(before).insert(coro);
            assert forall|hdl: Handle| #[trigger] x.count(hdl) == y.count(hdl) by {
                assert(ready_on(a, after.machines.global_queue@).count(hdl) == ready_on(
                    pooled,
                    before.machines.global_queue@,
                ).insert(coro).count(hdl));
            }
            assert(x =~= y);
        },
    }
}

/// When the scheduler starts, the main coroutine is the only one that comes: it is pending, and all
/// processors are there, with nothing to do yet but to get it from the global queue.
pub proof fn starting_adds_the_main_coroutine(before: Scheduler, after: Scheduler, coro: Handle)
    requires
        before.wf(),
        before.machines.processors@.len() == 0,
        before.spawned < usize::MAX,
        before.work_count < usize::MAX,
        scheduler::started_with(before, after, coro),
    ensures
        after.is_running,
        after.spawned == before.spawned + 1,
        after.work_count == before.work_count + 1,
        after.machines.processors@.len() == before.expected_worker_count,
        same_processors_wait(before, after),
        exists|token: usize|
            {
                &&& !(#[trigger] before.slab@.dom().contains(token))
                &&& after.slab@.dom() == before.slab@.dom().insert(token)
                &&& before.slab.vacant().len() > 0 ==> before.slab.vacant() == seq![token]
                    + after.slab.vacant()
                &&& forall|other: usize| #[trigger]
                    before.slab@.dom().contains(other) ==> after.slab@[other] == before.slab@[other]
            },
        scheduler::all_pending(after) == scheduler::all_pending(before).insert(coro),
        forall|id: int|
            0 <= id < after.machines.processors@.len() ==> (
            #[trigger] after.machines.processors@[id]).current_coro is None
                && after.machines.has_work(id),
{
    broadcast use vstd::seq_lib::group_to_multiset_ensures;

    let token = before.slab.vacant()[0];
    let key = after.slab@[token];
    lemma_states_came(before.ready_states@, after.ready_states@, key);
    let a = after.machines.processors@;
    assert forall|i: int| 0 <= i < a.len() implies (#[trigger] a[i]).queue@.len() == 0
        && a[i].run_next is None && a[i].current_coro is None by {
        assert(machines::idle_processor(a[i], before.maximum_stack_memory_limit));
    }
    pending::lemma_processors_idle(a);
    pending::lemma_processors_idle(before.machines.processors@);
    assert(scheduler::all_pending(after) =~= scheduler::all_pending(before).insert(coro));
    assert(after.machines.global_queue@.len() > 0);
    assert(!before.slab@.dom().contains(token));
    assert(after.slab@.dom() =~= before.slab@.dom().insert(token));
    if before.slab.vacant().len() > 0 {
        assert(seq![token] + after.slab.vacant() =~= before.slab.vacant());
    }
}

/// A coroutine is running after its processor has taken it up, and nothing that is pending
/// otherwise has changed.
pub proof fn whoever_runs_is_not_pending(before: Scheduler, after: Scheduler, id: int)
    requires
        0 <= id < before.machines.processors@.len(),
        before.machines.processors@[id].current_coro is None,
        after == (Scheduler { machines: after.machines, ..before }),
        machines::runs_picked(before.machines, after.machines, id),
    ensures
        exists|hdl: Handle|
            {
                &&& #[trigger] scheduler::all_pending(before).count(hdl) > 0
                &&& scheduler::all_pending(after) == scheduler::all_pending(before).remove(hdl)
                &&& after.machines.processors@[id].current_coro matches Some(coro)
                    && coro.spec_id() == hdl.spec_id() && coro.spec_state() == State::Running
            },
{
    running_takes_one_coroutine(before.machines, after.machines, id);
    let b = queued_in(before.machines);
    let a = queued_in(after.machines);
    let hdl = choose|hdl: Handle|
        {
            &&& #[trigger] b.count(hdl) > 0
            &&& a == b.remove(hdl)
            &&& after.machines.processors@[id].current_coro matches Some(coro) && coro.spec_id()
                == hdl.spec_id() && coro.spec_state() == State::Running
        };
    let x = scheduler::all_pending(after);
    let y = scheduler::all_pending(before).remove(hdl);
    assert(scheduler::all_pending(before).count(hdl) > 0);
    assert forall|h: Handle| #[trigger] x.count(h) == y.count(h) by {
        assert(a.count(h) == b.remove(hdl).count(h));
    }
    assert(x =~= y);
}

/// A wait that was ended by a notification is not reported as a timeout, and its timeout cannot wake
/// up anybody any more. One that was ended by its timeout is reported as one. Either way its waiter
/// is gone, all others wait on, and no coroutine is lost with it.
pub proof fn wait_is_reported_as_it_ended(
    before: Scheduler,
    after: Scheduler,
    key: usize,
    ready_type: ReadyType,
    id: usize,
    timed_out: bool,
)
    requires
        before.wf(),
        scheduler::waiter_at(before.ready_states@, key, ready_type, id) matches Some(w)
            && w.handle is None && (forall|i: int|
            0 <= i < before.timer@.len() && Some((#[trigger] before.timer@[i]).timeout) == w.timeout
                ==> before.timer@[i].value is Waiter),
        scheduler::wait_ended(before, after, key, ready_type, id, timed_out),
    ensures
        ({
            let w = scheduler::waiter_at(before.ready_states@, key, ready_type, id)->0;
            &&& w.state == WaiterState::Timeout ==> timed_out
            &&& w.state == WaiterState::Succeeded ==> !timed_out
            &&& w.state == WaiterState::Succeeded ==> forall|i: int|
                0 <= i < after.timer@.len() ==> Some((#[trigger] after.timer@[i]).timeout)
                    != w.timeout
        }),
        scheduler::waiter_at(after.ready_states@, key, ready_type, id) is None,
        forall|k: usize, t: ReadyType, other: usize|
            !(k == key && t == ready_type && other == id) && (#[trigger] scheduler::waiter_at(
                before.ready_states@,
                k,
                t,
                other,
            )) is Some ==> {
                let then = scheduler::waiter_at(before.ready_states@, k, t, other)->0;
                scheduler::waiter_at(after.ready_states@, k, t, other) matches Some(now)
                    && now.handle == then.handle && now.state == then.state && now.timeout
                    == then.timeout
            },
        scheduler::all_pending(after) == scheduler::all_pending(before),
{
    let b = before.ready_states@[key].condvar(ready_type);
    let a = after.ready_states@[key].condvar(ready_type);
    let w = b.waiters@[id];
    assert(before.ready_states@[key].wf());
    condvar::ending_a_wait_takes_one_waiter(b.list, b.waiters@, id);
    assert(condvar::waiting_in(b.waiters@) =~= condvar::waiting_in(a.waiters@));
    lemma_object_changed(before.ready_states@, after.ready_states@, key);
    assert(after.ready_states@[key].waiting() =~= before.ready_states@[key].waiting());
    let x = scheduler::all_pending(after);
    let y = scheduler::all_pending(before);
    let waits = before.ready_states@[key].waiting();
    if !timed_out && w.timeout is Some && before.timer.pending(w.timeout->0) {
        let timeout = w.timeout->0;
        Timer::only_the_cancelled_one_goes(before.timer, timeout);
        let k = choose|k: int|
            #![trigger before.timer@[k]]
            {
                &&& 0 <= k < before.timer@.len()
                &&& before.timer@[k].timeout == timeout
                &&& Timer::without(before.timer@, timeout) == before.timer@.take(k)
                    + before.timer@.skip(k + 1)
            };
        assert(scheduler::sleeper_wf(before.timer@[k], before.ready_states@));
        assert(after.timer@.insert(k, before.timer@[k]) =~= before.timer@);
        lemma_sleeper_came(after.timer@, k, before.timer@[k]);
    }
    assert forall|hdl: Handle| #[trigger] x.count(hdl) == y.count(hdl) by {
        assert(pending::waiting_in(after.ready_states@).add(waits).count(hdl)
            == pending::waiting_in(before.ready_states@).add(waits).count(hdl));
    }
    assert(x =~= y);
    assert forall|k: usize, t: ReadyType, other: usize|
        !(k == key && t == ready_type && other == id) && (#[trigger] scheduler::waiter_at(
            before.ready_states@,
            k,
            t,
            other,
        )) is Some implies {
        let then = scheduler::waiter_at(before.ready_states@, k, t, other)->0;
        scheduler::waiter_at(after.ready_states@, k, t, other) matches Some(now) && now.handle
            == then.handle && now.state == then.state && now.timeout == then.timeout
    } by {
        if k == key && t == ready_type {
            assert(b.waiters@.dom().contains(other));
        }
    }
}

/// The event loop neither misses what is to wake up nor wakes up for nothing: when it has waited for
/// its timeout, a tick finds something to wake up, and a millisecond earlier it would not. If
/// nothing sleeps, it still looks again after some time.
pub proof fn event_loop_waits_for_the_next_sleeper(
    before: Scheduler,
    after: Scheduler,
    now: LocalTime,
    later: LocalTime,
)
    requires
        before.wf(),
        now.nanos < 1_000_000_000,
        later.nanos < 1_000_000_000,
        before.timer@.len() > 0 ==> before.timer@[0].expected_wakeup_time.nanos < 1_000_000_000,
        after.same_but_sleepers(before),
        scheduler::ticked(before, after, later),
    ensures
        ({
            let ms = scheduler::spec_poll_timeout(before.timer@, now);
            let waited = later.secs * 1_000_000_000 + later.nanos - (now.secs * 1_000_000_000
                + now.nanos);
            &&& before.timer@.len() == 0 ==> ms == 1000
            &&& before.timer@.len() > 0 && waited >= ms * 1_000_000 && ms < usize::MAX
                ==> after.timer@.len() < before.timer@.len()
            &&& before.timer@.len() > 0 && 0 <= waited <= (ms - 1) * 1_000_000
                ==> after.timer@ == before.timer@
        }),
{
    tick_loses_no_coroutine(before, after, later);
    let n = before.timer@.len() - after.timer@.len();
    if before.timer@.len() > 0 {
        Timer::next_tick_is_neither_late_nor_early(before.timer, now, later);
        if n == 0 {
            assert(before.timer@.take(0) + after.timer@ =~= after.timer@);
        } else {
            assert(before.timer@.take(n)[0] == before.timer@[0]);
        }
    } else {
        assert(after.timer@ =~= before.timer@);
    }
}

/// A coroutine that has finished is not counted any more, and one that has only yielded still is;
/// the one that was suspended is pending again, and nobody else comes or goes.
pub proof fn only_finished_coroutines_are_uncounted(
    before: Scheduler,
    after: Scheduler,
    id: int,
    count: usize,
)
    requires
        before.wf(),
        before.work_count > 0,
        0 <= id < before.machines.processors@.len(),
        before.machines.processors@[id].run_next is None,
        scheduler::scheduler_yielded(before, after, id, count),
    ensures
        ({
            let finished = before.machines.processors@[id].current_coro matches Some(coro)
                && coro.spec_state() == State::Finished;
            &&& finished ==> after.work_count == before.work_count - 1
            &&& !finished ==> after.work_count == before.work_count
            &&& scheduler::all_pending(after) == (match before.machines.processors@[id].current_coro {
                Some(coro) if !finished => scheduler::all_pending(before).insert(coro),
                _ => scheduler::all_pending(before),
            })
        }),
        after.spawned == before.spawned,
        after.machines.processors@[id].current_coro is None,
        same_processors_wait(before, after),
{
    suspended_coroutine_runs_again(before.machines, after.machines, id, count);
    let a = queued_in(after.machines);
    let b = queued_in(before.machines);
    let x = scheduler::all_pending(after);
    let y = scheduler::all_pending(before);
    match before.machines.processors@[id].current_coro {
        Some(coro) if coro.spec_state() != State::Finished => {
            assert forall|hdl: Handle| #[trigger] x.count(hdl) == y.insert(coro).count(hdl) by {
                assert(a.count(hdl) == b.insert(coro).count(hdl));
            }
            assert(x =~= y.insert(coro));
        },
        _ => {
            assert forall|hdl: Handle| #[trigger] x.count(hdl) == y.count(hdl) by {
                assert(a.count(hdl) == b.count(hdl));
            }
            assert(x =~= y);
        },
    }
}

/// The main coroutine can be told by its name.
pub proof fn main_coroutine_is_named(hdl: Handle, id: usize, stack_size: usize)
    requires
        scheduler::is_main(hdl, id, stack_size),
    ensures
        hdl.spec_id() == id,
        hdl.spec_state() == State::Suspended,
        hdl.spec_coro().spec_name() matches Some(name) && name@ == seq!['<', 'm', 'a', 'i', 'n', '>'],
        hdl.spec_coro().spec_stack() matches Some(stack) && stack.spec_len() >= stack_size,
{
    reveal_strlit("<main>");
    assert("<main>"@ =~= seq!['<', 'm', 'a', 'i', 'n', '>']);
}

/// A coroutine that gives way while anything else waits for a processor does not go on at once: what
/// the processor runs next is something that was waiting before.
pub proof fn whoever_gives_way_does_not_go_on_at_once(
    before: Machines,
    after: Machines,
    id: int,
    count: usize,
    coro: Handle,
)
    requires
        before.wf(),
        0 <= id < before.processors@.len(),
        before.processors@[id].run_next is None,
        before.processors@[id].current_coro == Some(coro),
        coro.spec_state() != State::Finished,
        before.global_queue@.len() > 0 || exists|i: int|
            0 <= i < before.processors@.len() && (#[trigger] before.processors@[i]).queue@.len() > 0,
        machines::put_away(before, after, id, count),
    ensures
        ({
            let p = after.processors@[id];
            let next = if p.run_next is Some {
                p.run_next->0
            } else {
                p.queue@[0]
            };
            &&& p.run_next is Some || p.queue@.len() > 0
            &&& queued_in(before).count(next) > 0
        }),
{
    broadcast use vstd::seq_lib::group_to_multiset_ensures;

    let bare = machines::with_current(before.processors@, id, None);
    let now = after.processors@;
    assert(Machines::processor_wf(before.processors@[id], id, before.processors@.len()));
    before.processors@[id].queue.lemma_len();
    lemma_same_work(before.processors@, bare);
    let queue = before.processors@[id].queue@;
    if queue.len() > 0 {
        assert(bare[id].queue@ == queue);
        let k: int = if queue.len() < QUEUE_SIZE {
            0
        } else {
            QUEUE_SIZE as int / 2
        };
        assert(now[id].queue@[0] == queue[k]);
        assert(now[id].run_next is None);
        pending::lemma_counted_local(before.processors@, id);
        assert(machines::in_local_queues(before.processors@).count(queue[k]) > 0);
    } else {
        let middle = choose|middle: Seq<Processor>| #[trigger]
            machines::fetched_then_ready(
                bare,
                middle,
                now,
                before.global_queue@,
                after.global_queue@,
                id,
                coro,
            );
        let next = now[id].run_next;
        if next is None {
            assert forall|i: int| 0 <= i < before.processors@.len() implies (
            #[trigger] before.processors@[i]).queue@.len() == 0 by {
                assert(bare[i].queue@ == before.processors@[i].queue@);
            }
        }
        lemma_fetched(bare, middle, before.global_queue@, after.global_queue@, id, next);
        assert(ready_on(bare, before.global_queue@).count(next->0) > 0);
    }
}

/// A round that ends at an object that is not registered loses no coroutine either: those that came
/// with the messages before are pending, too.
pub proof fn broken_round_loses_no_coroutine<R: FnOnce(usize, usize) -> bool, D: FnOnce()>(
    before: Scheduler,
    after: Scheduler,
    events: Seq<Event<R, D>>,
    token: usize,
)
    requires
        scheduler::round_broken(before, after, events, token),
    ensures
        exists|n: int|
            {
                &&& 0 <= n < events.len()
                &&& #[trigger] events[n] matches Event::Ready(at, _) && at == token
                &&& !after.slab@.dom().contains(token)
                &&& scheduler::all_pending(after) == scheduler::all_pending(before).add(
                    sent_along(events.take(n)).to_multiset(),
                )
            },
{
    let trace = choose|trace: Seq<Scheduler>| #[trigger]
        scheduler::broken_at(before, after, trace, events, token);
    let n = trace.len() - 1;
    lemma_handled(trace, events, n);
    assert(trace[n] == after);
    assert(events[n] matches Event::Ready(at, _) && at == token);
}

/// The waiter is there, was notified, and its coroutine was handed out.
spec fn was_notified(states: StatesMap, key: usize, ready_type: ReadyType, id: usize) -> bool {
    scheduler::waiter_at(states, key, ready_type, id) matches Some(w) && w.state
        == WaiterState::Succeeded && w.handle is None
}

/// Once notified, a waiter stays so whatever else comes.
proof fn lemma_stays_notified<R: FnOnce(usize, usize) -> bool, D: FnOnce()>(
    before: Scheduler,
    after: Scheduler,
    event: Event<R, D>,
    key: usize,
    ready_type: ReadyType,
    id: usize,
)
    requires
        before.wf(),
        scheduler::event_handled(before, after, event),
        was_notified(before.ready_states@, key, ready_type, id),
    ensures
        was_notified(after.ready_states@, key, ready_type, id),
{
    let b = before.ready_states@;
    let a = after.ready_states@;
    match event {
        Event::Message(Message::Register(msg)) => {
            if before.slab.grown().len() != 0 {
                let (new, done) = choose|new: usize, done: bool| #[trigger]
                    call_ensures(msg.cb, (before.slab.grown()[0], new), done) && !b.dom().contains(
                        new,
                    ) && (if done {
                        scheduler::registered(before, after, new)
                    } else {
                        scheduler::not_registered(before, after)
                    });
                assert(new != key);
            }
        },
        Event::Message(_) => {},
        Event::Ready(token, events) => {
            let at = before.slab@[token];
            assert(b[at].wf());
            if at == key {
                ready::event_wakes_the_longest_waiting(
                    b[key],
                    a[key],
                    events,
                    before.io_handler_queue@,
                    after.io_handler_queue@,
                );
                let had = before.io_handler_queue@;
                let has = after.io_handler_queue@;
                let middle = choose|middle: Seq<Handle>| #[trigger]
                    ready::notified_in_turn(b[key], a[key], events, had, middle, has);
                if events.bits & 1 == 1 {
                    condvar::notification_wakes_the_longest_waiting(
                        b[key].readable,
                        a[key].readable,
                        had,
                        middle,
                    );
                }
                if events.bits & 2 == 2 {
                    condvar::notification_wakes_the_longest_waiting(
                        b[key].writable,
                        a[key].writable,
                        middle,
                        has,
                    );
                }
                let bc = b[key].condvar(ready_type);
                assert(bc.waiters@.dom().contains(id));
            }
        },
    }
}

proof fn lemma_all_stay_notified<R: FnOnce(usize, usize) -> bool, D: FnOnce()>(
    trace: Seq<Scheduler>,
    events: Seq<Event<R, D>>,
    from: int,
    n: int,
    key: usize,
    ready_type: ReadyType,
    id: usize,
)
    requires
        0 <= from <= n < trace.len() <= events.len() + 1,
        forall|i: int| 0 <= i < trace.len() ==> (#[trigger] trace[i]).wf(),
        scheduler::handled_in_order(trace, events),
        was_notified(trace[from].ready_states@, key, ready_type, id),
    ensures
        was_notified(trace[n].ready_states@, key, ready_type, id),
    decreases n - from,
{
    if n > from {
        lemma_all_stay_notified(trace, events, from, n - 1, key, ready_type, id);
        assert(scheduler::event_handled(trace[n - 1], trace[n - 1 + 1], events[n - 1]));
        assert(trace[n - 1].wf());
        lemma_stays_notified(trace[n - 1], trace[n], events[n - 1], key, ready_type, id);
    }
}

/// An event counts before a timeout that comes in the same round: whoever has waited longest for it
/// when the round begins with it was notified at the end, even if its time has come by then, and
/// whatever else comes in the round.
pub proof fn event_comes_before_the_timeout<R: FnOnce(usize, usize) -> bool, D: FnOnce()>(
    before: Scheduler,
    after: Scheduler,
    events: Seq<Event<R, D>>,
    now: LocalTime,
    count: usize,
    token: usize,
    ready: Ready,
    ready_type: ReadyType,
    id: usize,
)
    requires
        before.wf(),
        scheduler::round_done(before, after, events, now, count),
        events.len() > 0,
        events[0] == Event::<R, D>::Ready(token, ready),
        ({
            let bit: usize = match ready_type {
                ReadyType::Readable => 1,
                ReadyType::Writable => 2,
            };
            ready.bits & bit == bit
        }),
        before.slab@.dom().contains(token),
        before.ready_states@[before.slab@[token]].condvar(ready_type).list.head == Some(id),
        before.ready_states@[before.slab@[token]].condvar(ready_type).waiters@[id].state
            == WaiterState::Empty,
    ensures
        scheduler::waiter_at(
            after.ready_states@,
            before.slab@[token],
            ready_type,
            id,
        ) matches Some(w) && w.state == WaiterState::Succeeded && w.handle is None,
{
    let key = before.slab@[token];
    let (trace, woken) = choose|trace: Seq<Scheduler>, woken: Scheduler| #[trigger]
        scheduler::round_of(before, after, events, now, count, trace, woken);
    let n = events.len() as int;
    assert(scheduler::event_handled(trace[0], trace[1], events[0]));
    let first = trace[1];
    let b = before.ready_states@[key];
    let a = first.ready_states@[key];
    assert(b.wf());
    let had = before.io_handler_queue@;
    let has = first.io_handler_queue@;
    let middle = choose|middle: Seq<Handle>| #[trigger]
        ready::notified_in_turn(b, a, ready, had, middle, has);
    match ready_type {
        ReadyType::Readable => {
            condvar::notification_wakes_the_longest_waiting(b.readable, a.readable, had, middle);
        },
        ReadyType::Writable => {
            condvar::notification_wakes_the_longest_waiting(b.writable, a.writable, middle, has);
        },
    }
    assert(was_notified(first.ready_states@, key, ready_type, id));
    assert(trace[n] == trace.last());
    lemma_all_stay_notified(trace, events, 1, n, key, ready_type, id);
    assert(trace[n].wf());
    tick_tells_those_whose_time_has_come(trace[n], woken, now, key, ready_type, id);
}

/// The stack of a coroutine that has finished is not lost: if the pool of its processor has room for
/// it, the next one there who asks for a stack of its size gets this very one.
pub proof fn stack_of_a_finished_coroutine_is_used_again(
    before: Machines,
    after: Machines,
    id: int,
    count: usize,
    coro: Handle,
    stack: Stack,
    pool: StackPool,
    got: Option<Stack>,
)
    requires
        before.wf(),
        0 <= id < before.processors@.len(),
        before.processors@[id].current_coro == Some(coro),
        coro.spec_state() == State::Finished,
        coro.spec_coro().spec_stack() == Some(stack),
        before.processors@[id].stack_pool.high_mark() matches Some(high)
            ==> before.processors@[id].stack_pool.spec_total_size() + stack.spec_size() <= high,
        machines::put_away(before, after, id, count),
        after.processors@[id].stack_pool.allocated(pool, stack.spec_size(), got),
    ensures
        got == Some(stack),
        after.processors@[id].stack_pool.spec_total_size()
            == before.processors@[id].stack_pool.spec_total_size() + stack.spec_size(),
{
    assert(Machines::processor_wf(before.processors@[id], id, before.processors@.len()));
    stack_pool::stack_that_came_back_goes_out_next(
        before.processors@[id].stack_pool,
        after.processors@[id].stack_pool,
        pool,
        stack,
        got,
        0,
    );
}

/// While the pool of its processor has a stack of the size that it asks for, a new coroutine gets
/// the one that came back last, and does not fail for want of a stack.
pub proof fn new_coroutine_gets_a_stack_of_the_pool(
    before: Scheduler,
    after: Scheduler,
    id: int,
    opts: Options,
    result: Result<usize, StackUnavailable>,
    i: int,
)
    requires
        before.wf(),
        0 <= id < before.machines.processors@.len(),
        scheduler::scheduler_spawned(before, after, id, opts, result),
        0 <= i < before.machines.processors@[id].stack_pool@.len(),
        before.machines.processors@[id].stack_pool@[i].0 == opts.stack_size,
        before.machines.processors@[id].stack_pool@[i].1.len() > 0,
    ensures
        result is Ok,
        exists|coro: Handle|
            {
                &&& #[trigger] queued_in(after.machines).count(coro) > 0
                &&& coro.spec_id() == before.spawned
                &&& coro.spec_coro().spec_stack() == Some(
                    before.machines.processors@[id].stack_pool@[i].1.last(),
                )
            },
{
    let b = before.machines.processors@;
    assert(Machines::processor_wf(b[id], id, b.len()));
    b[id].queue.lemma_len();
    match result {
        Err(_) => {
            stack_pool::pool_hands_out_what_it_has(
                b[id].stack_pool,
                after.machines.processors@[id].stack_pool,
                opts.stack_size,
                None,
                i,
            );
        },
        Ok(_) => {
            let (coro, pool) = choose|coro: Handle, pool: StackPool| #[trigger]
                machines::spawned_as(
                    before.machines,
                    after.machines,
                    id,
                    before.spawned,
                    opts,
                    coro,
                    pool,
                );
            stack_pool::pool_hands_out_what_it_has(
                b[id].stack_pool,
                pool,
                opts.stack_size,
                coro.spec_coro().spec_stack(),
                i,
            );
            making_ready_adds_one_coroutine(
                machines::with_pool(b, id, pool),
                after.machines.processors@,
                before.machines.global_queue@,
                after.machines.global_queue@,
                id,
                coro,
            );
            assert(queued_in(after.machines).count(coro) > 0);
        },
    }
}

} // verus!
