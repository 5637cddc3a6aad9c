//! The scheduler: it runs coroutines on processors and wakes them up for I/O and timeouts.

use std::collections::VecDeque;

use vstd::multiset::Multiset;
use vstd::prelude::*;

use crate::coroutine::{Coroutine, Handle, HandleList, State};
use crate::options::Options;
use crate::runtime::machines;
use crate::runtime::machines::Machines;
use crate::runtime::processor::Processor;
use crate::runtime::run_queue::QUEUE_SIZE;
use crate::runtime::stack_pool::StackUnavailable;
use crate::runtime::timer;
use crate::runtime::timer::{local_now, LocalTime, SleepingTask, Timeout, Timer};
use crate::scheduler::ready::{Ready, ReadyStates, ReadyType};
use crate::scheduler::tokens::Tokens;
use crate::slots::Slots;
use crate::sync::condvar;
use crate::sync::condvar::{Waiter, WaiterState};

pub mod conservation;
pub mod pending;
pub mod ready;
pub mod tokens;

verus! {

/// The number of tokens that there are at first.
pub const FIRST_TOKENS: usize = 1024;

/// The most bytes of stacks that a processor keeps.
pub const MAX_STACK_MEMORY: usize = 2147483648;

/// The longest time, in milliseconds, that the event loop waits when nothing sleeps.
pub const DEFAULT_TICK_MS: u64 = 1000;

/// What waits in the timer.
pub enum TimerWaitType {
    /// A coroutine that sleeps.
    Handle(Handle),
    /// A waiter whose time runs out: the one with this number of those who wait for this on the
    /// object with these states.
    Waiter { states: usize, ready_type: ReadyType, waiter: usize },
}

/// Asks to register an object for a coroutine. This is up to the callback, which gets the token
/// and the number of the ready states.
pub struct RegisterMessage<R> {
    pub cb: R,
    pub coro: Handle,
}

/// Asks to deregister an object for a coroutine, which is up to the callback.
pub struct DeregisterMessage<D> {
    pub cb: D,
    pub coro: Handle,
    pub token: usize,
}

/// What is sent to the event loop.
pub enum Message<R, D> {
    /// Look at the timer again.
    Unfreeze,
    /// Register an object.
    Register(RegisterMessage<R>),
    /// Deregister an object.
    Deregister(DeregisterMessage<D>),
    /// Leave the loop.
    Shutdown,
}

/// The ready states by their numbers.
pub type StatesMap = Map<usize, ReadyStates>;

/// The waiter with this number of those who wait for this.
pub open spec fn waiter_at(
    states: StatesMap,
    key: usize,
    ready_type: ReadyType,
    id: usize,
) -> Option<Waiter> {
    if states.dom().contains(key) && states[key].condvar(ready_type).waiters@.dom().contains(id) {
        Some(states[key].condvar(ready_type).waiters@[id])
    } else {
        None
    }
}

/// The ready states are in order, and no coroutine that has finished waits.
pub open spec fn states_wf(states: StatesMap) -> bool {
    &&& forall|key: usize| #[trigger] states.dom().contains(key) ==> states[key].wf()
    &&& forall|key: usize, ready_type: ReadyType, id: usize|
        (#[trigger] waiter_at(states, key, ready_type, id)) matches Some(waiter)
            ==> machines::live_opt(waiter.handle)
}

/// What sleeps can still run, and a waiter that sleeps exists, waits with this timeout, and has
/// not been told that its time ran out.
pub open spec fn sleeper_wf(task: SleepingTask<TimerWaitType>, states: StatesMap) -> bool {
    match task.value {
        TimerWaitType::Handle(hdl) => hdl.spec_state() != State::Finished,
        TimerWaitType::Waiter { states: key, ready_type, waiter } => {
            &&& waiter_at(states, key, ready_type, waiter) matches Some(w)
            &&& w.timeout == Some(task.timeout)
            &&& w.state != WaiterState::Timeout
        },
    }
}

/// All sleepers are in order.
pub open spec fn sleepers_wf(
    sleeping: Seq<SleepingTask<TimerWaitType>>,
    states: StatesMap,
) -> bool {
    forall|i: int| 0 <= i < sleeping.len() ==> sleeper_wf(#[trigger] sleeping[i], states)
}

/// All coroutines that are pending: those that are to run next, those in the queues, those that
/// the event loop has woken up, those that sleep, and those that wait on an object.
pub open spec fn all_pending(s: Scheduler) -> Multiset<Handle> {
    pending::run_nexts(s.machines.processors@).add(
        machines::in_local_queues(s.machines.processors@),
    ).add(s.machines.global_queue@.to_multiset()).add(s.io_handler_queue@.to_multiset()).add(
        pending::sleeping_in(s.timer@),
    ).add(pending::waiting_in(s.ready_states@))
}

/// No coroutine that has finished is pending.
proof fn lemma_all_pending_live(s: Scheduler)
    requires
        s.wf(),
    ensures
        pending::all_live(all_pending(s)),
{
    let processors = s.machines.processors@;
    assert forall|i: int| 0 <= i < processors.len() implies machines::live(
        (#[trigger] processors[i]).queue@,
    ) && machines::live_opt(processors[i].run_next) by {
        assert(Machines::processor_wf(processors[i], i, processors.len()));
    }
    pending::lemma_processors_live(processors);
    pending::lemma_queue_live(s.machines.global_queue@);
    pending::lemma_queue_live(s.io_handler_queue@);
    pending::lemma_sleeping_live(s.timer@, s.ready_states@);
    pending::lemma_waiting_live(s.ready_states@, (usize::MAX + 1) as nat);
}

/// A coroutine that sleeps is pending: when the main function is left, it is handed out to be
/// unwound.
pub proof fn sleeping_coroutine_is_pending(s: Scheduler, i: int)
    requires
        0 <= i < s.timer@.len(),
        s.timer@[i].value is Handle,
    ensures
        all_pending(s).count(s.timer@[i].value->0) > 0,
{
    pending::lemma_counted_sleeping(s.timer@, i);
}

/// When nothing is pending nothing runs any more: no processor has work, and no coroutine sleeps
/// that could be woken up.
pub proof fn nothing_pending_never_runs(s: Scheduler, id: int, i: int)
    requires
        all_pending(s) == Multiset::<Handle>::empty(),
        0 <= id < s.machines.processors@.len(),
    ensures
        !s.machines.has_work(id),
        s.io_handler_queue@.len() == 0,
        0 <= i < s.timer@.len() ==> !(s.timer@[i].value is Handle),
{
    broadcast use vstd::seq_lib::group_to_multiset_ensures;

    let processors = s.machines.processors@;
    let none = all_pending(s);
    pending::lemma_counted_local(processors, id);
    if let Some(hdl) = processors[id].run_next {
        assert(none.count(hdl) > 0);
    }
    assert forall|k: int| 0 <= k < processors.len() implies (
    #[trigger] processors[k]).queue@.len() == 0 by {
        pending::lemma_counted_local(processors, k);
        if processors[k].queue@.len() > 0 {
            assert(none.count(processors[k].queue@[0]) > 0);
        }
    }
    if s.machines.global_queue@.len() > 0 {
        let hdl = s.machines.global_queue@[0];
        assert(s.machines.global_queue@.contains(hdl));
        assert(none.count(hdl) > 0);
    }
    if s.io_handler_queue@.len() > 0 {
        let hdl = s.io_handler_queue@[0];
        assert(s.io_handler_queue@.contains(hdl));
        assert(none.count(hdl) > 0);
    }
    if 0 <= i < s.timer@.len() {
        pending::lemma_counted_sleeping(s.timer@, i);
        if let TimerWaitType::Handle(hdl) = s.timer@[i].value {
            assert(none.count(hdl) > 0);
        }
    }
}

/// The coroutine scheduler.
pub struct Scheduler {
    /// How coroutines are made unless told otherwise.
    pub default_spawn_options: Options,
    /// The number of processors.
    pub expected_worker_count: usize,
    /// The most bytes of stacks that a processor keeps.
    pub maximum_stack_memory_limit: usize,
    /// The number of the ready states that are registered under a token.
    pub slab: Tokens,
    /// All ready states that are in use.
    pub ready_states: Slots<ReadyStates>,
    /// What sleeps.
    pub timer: Timer<TimerWaitType>,
    /// The processors and what they share.
    pub machines: Machines,
    /// The coroutines that the event loop has woken up.
    pub io_handler_queue: HandleList,
    /// The event loop is to go on.
    pub is_running: bool,
    /// The number of coroutines that were made so far.
    pub spawned: usize,
    /// The number of coroutines that have not ended yet.
    pub work_count: usize,
}

impl Scheduler {
    /// All parts are in order and fit together.
    pub open spec fn wf(&self) -> bool {
        &&& self.machines.wf()
        &&& self.timer.wf()
        &&& machines::live(self.io_handler_queue@)
        &&& states_wf(self.ready_states@)
        &&& sleepers_wf(self.timer@, self.ready_states@)
        &&& forall|token: usize| #[trigger]
            self.slab@.dom().contains(token) ==> self.ready_states@.dom().contains(
                self.slab@[token],
            )
    }

    /// A scheduler with default configurations.
    pub fn new() -> (scheduler: Scheduler)
        ensures
            scheduler.wf(),
            scheduler.default_spawn_options.stack_size == crate::options::DEFAULT_STACK,
            scheduler.default_spawn_options.name is None,
            scheduler.expected_worker_count == 1,
            scheduler.maximum_stack_memory_limit == MAX_STACK_MEMORY,
            scheduler.slab@ == Map::<usize, usize>::empty(),
            scheduler.slab.vacant() == tokens::indices(0, FIRST_TOKENS as nat),
            scheduler.ready_states@ == Map::<usize, ReadyStates>::empty(),
            scheduler.timer@.len() == 0,
            scheduler.timer.spec_next_number() == 0,
            scheduler.machines.processors@.len() == 0,
            scheduler.machines.global_queue@.len() == 0,
            scheduler.machines.idle_processor_count == 0,
            scheduler.machines.spinning_processor_count == 0,
            !scheduler.machines.stopping,
            scheduler.io_handler_queue@.len() == 0,
            !scheduler.is_running,
            scheduler.spawned == 0,
            scheduler.work_count == 0,
    {
        Scheduler {
            default_spawn_options: Options::default(),
            expected_worker_count: 1,
            maximum_stack_memory_limit: MAX_STACK_MEMORY,
            slab: Tokens::with_capacity(FIRST_TOKENS),
            ready_states: Slots::new(),
            timer: Timer::new(),
            machines: Machines::new(),
            io_handler_queue: HandleList::new(),
            is_running: false,
            spawned: 0,
            work_count: 0,
        }
    }

    /// Sets the number of workers.
    pub fn with_workers(self, workers: usize) -> (scheduler: Scheduler)
        requires
            workers >= 1,
        ensures
            scheduler == (Scheduler { expected_worker_count: workers, ..self }),
    {
        let mut scheduler = self;
        scheduler.expected_worker_count = workers;
        scheduler
    }

    /// Sets the default stack size.
    pub fn default_stack_size(self, default_stack_size: usize) -> (scheduler: Scheduler)
        ensures
            scheduler == (Scheduler {
                default_spawn_options: Options {
                    stack_size: default_stack_size,
                    ..self.default_spawn_options
                },
                ..self
            }),
    {
        let mut scheduler = self;
        let _ = scheduler.default_spawn_options.stack_size(default_stack_size);
        scheduler
    }

    /// The number of coroutines that have not ended yet.
    pub fn work_count(&self) -> (count: usize)
        ensures
            count == self.work_count,
    {
        self.work_count
    }

    /// The milliseconds from `now` on that the event loop may wait: until there is something to
    /// wake up, and not forever if nothing sleeps.
    pub fn poll_timeout_ms(&self, now: LocalTime) -> (ms: u64)
        ensures
            ms == spec_poll_timeout(self.timer@, now),
    {
        match self.timer.next_tick_in_ms(now) {
            Some(ms) => {
                if ms > usize::MAX as u64 {
                    usize::MAX as u64
                } else {
                    ms
                }
            },
            None => DEFAULT_TICK_MS,
        }
    }

    /// Wakes up everything whose time has come at `now`.
    pub fn tick(&mut self, now: LocalTime)
        requires
            old(self).wf(),
        ensures
            final(self).wf(),
            final(self).same_but_sleepers(*old(self)),
            ticked(*old(self), *final(self), now),
            all_pending(*final(self)) == all_pending(*old(self)),
            forall|i: int|
                0 <= i < final(self).timer@.len() ==> !(
                #[trigger] final(self).timer@[i]).expected_wakeup_time.spec_not_after(now),
            forall|i: int|
                0 <= i < old(self).timer@.len() && (
                #[trigger] old(self).timer@[i]).expected_wakeup_time.spec_not_after(now) ==> (old(
                    self,
                ).timer@[i].value matches TimerWaitType::Handle(hdl)
                    ==> final(self).io_handler_queue@.contains(hdl)),
    {
        let ghost all = self.timer@;
        let ghost states = self.ready_states@;
        let ghost mut n: int = 0;
        proof {
            assert(all.skip(0) =~= all);
            assert(all.take(0) =~= Seq::<SleepingTask<TimerWaitType>>::empty());
            assert(self.io_handler_queue@ =~= old(self).io_handler_queue@ + woken_by(
                all.take(0),
                states,
            ));
        }
        loop
            invariant
                self.wf(),
                old(self).wf(),
                self.same_but_sleepers(*old(self)),
                all == old(self).timer@,
                states == old(self).ready_states@,
                0 <= n <= all.len(),
                self.timer@ == all.skip(n),
                forall|i: int|
                    0 <= i < n ==> (#[trigger] all[i]).expected_wakeup_time.spec_not_after(now),
                self.io_handler_queue@ == old(self).io_handler_queue@ + woken_by(
                    all.take(n),
                    states,
                ),
                expired(states, self.ready_states@, all.take(n)),
            ensures
                !Timer::due(self.timer@, now),
            decreases all.len() - n,
        {
            let ghost before = *self;
            let awoken = self.timer.awake_at(now);
            proof {
                if awoken is Some {
                    assert(before.timer@[0] == all[n]);
                    assert(self.timer@ =~= all.skip(n + 1));
                    assert(all.take(n + 1).drop_last() =~= all.take(n));
                    assert(all.take(n + 1).last() == all[n]);
                    assert(sleeper_wf(before.timer@[0], before.ready_states@));
                    assert forall|i: int| 0 <= i < self.timer@.len() implies sleeper_wf(
                        #[trigger] self.timer@[i],
                        before.ready_states@,
                    ) by {
                        assert(self.timer@[i] == before.timer@[i + 1]);
                    }
                }
            }
            match awoken {
                Some(TimerWaitType::Handle(hdl)) => {
                    self.io_handler_queue.push_back(hdl);
                    proof {
                        lemma_expired_handle(states, self.ready_states@, all, n);
                        n = n + 1;
                    }
                },
                Some(TimerWaitType::Waiter { states: key, ready_type, waiter }) => {
                    let ghost w = before.ready_states@[key].condvar(ready_type).waiters@[waiter];
                    let hdl = self.ready_states.get_mut(key).condvar_mut(ready_type).expire(
                        waiter,
                    );
                    proof {
                        let after = self.ready_states@;
                        lemma_waiter_changed(
                            before.ready_states@,
                            after,
                            key,
                            ready_type,
                            waiter,
                            w.notified(WaiterState::Timeout),
                        );
                        lemma_states_changed(
                            before.ready_states@,
                            after,
                            key,
                            ready_type,
                            waiter,
                            w.notified(WaiterState::Timeout),
                        );
                        assert forall|i: int| 0 <= i < self.timer@.len() implies sleeper_wf(
                            #[trigger] self.timer@[i],
                            after,
                        ) by {
                            let task = self.timer@[i];
                            assert(sleeper_wf(task, before.ready_states@));
                            assert(task == before.timer@[i + 1]);
                            assert(before.timer@[i + 1].timeout != before.timer@[0].timeout);
                        }
                        lemma_waiters_sleep_once(
                            old(self).timer,
                            states,
                            n,
                            key,
                            ready_type,
                            waiter,
                        );
                        assert(waiter_at(before.ready_states@, key, ready_type, waiter)
                            == waiter_at(states, key, ready_type, waiter));
                        lemma_expired_waiter(
                            states,
                            before.ready_states@,
                            after,
                            all,
                            n,
                            key,
                            ready_type,
                            waiter,
                        );
                    }
                    if let Some(hdl) = hdl {
                        self.io_handler_queue.push_back(hdl);
                    }
                    proof {
                        n = n + 1;
                    }
                },
                None => {
                    break;
                },
            }
            proof {
                assert(self.io_handler_queue@ =~= old(self).io_handler_queue@ + woken_by(
                    all.take(n),
                    states,
                ));
            }
        }
        proof {
            assert(ticked_by(*old(self), *self, now, n));
            conservation::tick_loses_no_coroutine(*old(self), *self, now);
            assert forall|i: int|
                0 <= i < all.len() && (#[trigger] all[i]).expected_wakeup_time.spec_not_after(
                    now,
                ) implies (all[i].value matches TimerWaitType::Handle(hdl)
                ==> self.io_handler_queue@.contains(hdl)) by {
                conservation::due_sleeper_is_woken(*old(self), *self, now, i);
            }
        }
    }

    /// Begins to run: the main coroutine, named so, is in the global queue, the first token is
    /// taken for the event loop itself, and the processors are there.
    pub fn start(&mut self) -> (main: Result<usize, StackUnavailable>)
        requires
            old(self).wf(),
            old(self).machines.processors@.len() == 0,
            old(self).expected_worker_count <= usize::MAX / 2,
            old(self).slab.vacant().len() > 0,
        ensures
            final(self).wf(),
            match main {
                Err(unavailable) => {
                    &&& unavailable.size == old(self).default_spawn_options.stack_size
                    &&& *final(self) == *old(self)
                },
                Ok(id) => {
                    &&& id == old(self).spawned
                    &&& final(self).machines.global_queue@.len()
                        == old(self).machines.global_queue@.len() + 1
                    &&& is_main(
                        final(self).machines.global_queue@.last(),
                        id,
                        old(self).default_spawn_options.stack_size,
                    )
                    &&& started_with(
                        *old(self),
                        *final(self),
                        final(self).machines.global_queue@.last(),
                    )
                },
            },
    {
        let mut opts = self.default_spawn_options.clone();
        let _ = opts.name("<main>".to_owned());
        let made = Coroutine::spawn_opts(self.spawned, opts);
        self.start_with(made)
    }

    /// Begins to run with the main coroutine that was made for it, if there is one.
    pub fn start_with(&mut self, made: Result<Handle, StackUnavailable>) -> (main: Result<
        usize,
        StackUnavailable,
    >)
        requires
            old(self).wf(),
            old(self).machines.processors@.len() == 0,
            old(self).expected_worker_count <= usize::MAX / 2,
            old(self).slab.vacant().len() > 0,
            made matches Ok(coro) ==> coro.spec_state() != State::Finished,
        ensures
            final(self).wf(),
            match made {
                Err(unavailable) => {
                    &&& main == Err::<usize, StackUnavailable>(unavailable)
                    &&& *final(self) == *old(self)
                },
                Ok(coro) => {
                    &&& main == Ok::<usize, StackUnavailable>(old(self).spawned)
                    &&& started_with(*old(self), *final(self), coro)
                },
            },
    {
        let main = self.spawned;
        match made {
            Err(unavailable) => Err(unavailable),
            Ok(coro) => {
                self.is_running = true;
                self.count_coroutine();
                let ghost before = self.ready_states@;
                let states = ReadyStates::new();
                let key = self.ready_states.insert(states);
                proof {
                    lemma_states_added(before, self.timer@, key, states);
                }
                let _ = self.slab.insert(key);
                let _ = self.machines.push_global_queue(coro);
                self.machines.spawn(self.expected_worker_count, self.maximum_stack_memory_limit);
                Ok(main)
            },
        }
    }

    /// One more coroutine was made.
    fn count_coroutine(&mut self)
        ensures
            *final(self) == (Scheduler {
                spawned: old(self).spawned.wrapping_add(1),
                work_count: old(self).work_count.wrapping_add(1),
                ..*old(self)
            }),
    {
        self.spawned = self.spawned.wrapping_add(1);
        self.work_count = self.work_count.wrapping_add(1);
    }

    /// A coroutine has ended.
    pub fn coroutine_ended(&mut self)
        ensures
            *final(self) == (Scheduler {
                work_count: old(self).work_count.wrapping_sub(1),
                ..*old(self)
            }),
    {
        self.work_count = self.work_count.wrapping_sub(1);
    }

    /// An object has events for those who wait: one for each of them is woken up.
    pub fn io_ready(&mut self, token: usize, events: Ready)
        requires
            old(self).wf(),
            old(self).slab@.dom().contains(token),
        ensures
            final(self).wf(),
            object_ready(*old(self), *final(self), token, events),
            all_pending(*final(self)) == all_pending(*old(self)),
    {
        if let Some(key) = self.slab.get(token) {
            self.ready_states.get_mut(key).notify(events, &mut self.io_handler_queue);
            proof {
                lemma_notified_events(
                    old(self).ready_states@,
                    self.ready_states@,
                    self.timer@,
                    key,
                    events,
                    old(self).io_handler_queue@,
                    self.io_handler_queue@,
                );
                conservation::event_loses_no_coroutine(*old(self), *self, token, events);
            }
        }
    }

    /// A message for the event loop has come.
    pub fn io_notify<R: FnOnce(usize, usize) -> bool, D: FnOnce()>(&mut self, msg: Message<R, D>)
        requires
            old(self).wf(),
            message_wf(msg),
        ensures
            final(self).wf(),
            message_handled(*old(self), *final(self), msg),
    {
        match msg {
            Message::Unfreeze => {},
            Message::Register(RegisterMessage { cb, coro }) => {
                if let Some(token) = self.slab.next_token() {
                    let ghost before = self.ready_states@;
                    let states = ReadyStates::new();
                    let key = self.ready_states.insert(states);
                    proof {
                        lemma_states_added(before, self.timer@, key, states);
                    }
                    if cb(token, key) {
                        let _ = self.slab.insert(key);
                    } else {
                        let _ = self.ready_states.remove(key);
                        proof {
                            assert(self.ready_states@ =~= before);
                        }
                    }
                }
                self.io_handler_queue.push_back(coro);
            },
            Message::Deregister(DeregisterMessage { cb, coro, token }) => {
                let _ = self.slab.remove(token);
                cb();
                self.io_handler_queue.push_back(coro);
            },
            Message::Shutdown => {
                self.is_running = false;
            },
        }
    }

    /// One round of the event loop: everything that has come is handled in its order, then
    /// everything whose time has come at `now` is woken up, and what was woken up is handed over
    /// to the processors. Tells how many of them to wake up. If an object has events but is not
    /// registered, the round ends there with its token.
    pub fn run_once<R: FnOnce(usize, usize) -> bool, D: FnOnce()>(
        &mut self,
        events: VecDeque<Event<R, D>>,
        now: LocalTime,
    ) -> (result: Result<usize, usize>)
        requires
            old(self).wf(),
            forall|i: int| 0 <= i < events@.len() ==> event_wf(#[trigger] events@[i]),
        ensures
            final(self).wf(),
            match result {
                Ok(count) => round_done(*old(self), *final(self), events@, now, count),
                Err(token) => round_broken(*old(self), *final(self), events@, token),
            },
    {
        let ghost all = events@;
        let mut queue = events;
        let ghost mut trace: Seq<Scheduler> = seq![*self];
        proof {
            assert(all.skip(0) =~= all);
        }
        loop
            invariant
                self.wf(),
                all == events@,
                forall|i: int| 0 <= i < all.len() ==> event_wf(#[trigger] all[i]),
                1 <= trace.len() <= all.len() + 1,
                queue@ == all.skip(trace.len() - 1),
                trace[0] == *old(self),
                trace.last() == *self,
                forall|i: int| 0 <= i < trace.len() ==> (#[trigger] trace[i]).wf(),
                handled_in_order(trace, all),
            ensures
                trace.len() == all.len() + 1,
            decreases queue@.len(),
        {
            let ghost n = trace.len() - 1;
            let ghost before = *self;
            match queue.pop_front() {
                Some(event) => {
                    proof {
                        assert(event == all[n]);
                        assert(queue@ =~= all.skip(n + 1));
                    }
                    match event {
                        Event::Message(msg) => self.io_notify(msg),
                        Event::Ready(token, ready) => {
                            if self.slab.get(token).is_none() {
                                proof {
                                    assert(broken_at(*old(self), *self, trace, all, token));
                                }
                                return Err(token);
                            }
                            self.io_ready(token, ready)
                        },
                    }
                    proof {
                        assert(event_handled(before, *self, all[n]));
                        let more = trace.push(*self);
                        assert forall|i: int| 0 <= i < more.len() - 1 implies event_handled(
                            #[trigger] more[i],
                            more[i + 1],
                            all[i],
                        ) by {
                            if i < n {
                                assert(more[i] == trace[i]);
                                assert(event_handled(trace[i], trace[i + 1], all[i]));
                            }
                        }
                        trace = more;
                    }
                },
                None => {
                    break;
                },
            }
        }
        self.tick(now);
        let ghost ticked_state = *self;
        let count = self.append_io_handler_to_global_queue();
        proof {
            assert(round_of(
                *old(self),
                *self,
                all,
                now,
                count,
                trace,
                ticked_state,
            ));
        }
        Ok(count)
    }

    /// The ready states of an object that is gone are not needed any more.
    pub fn drop_states(&mut self, key: usize)
        requires
            old(self).wf(),
            old(self).ready_states@.dom().contains(key),
            old(self).ready_states@[key].nobody_waits(),
            forall|token: usize| #[trigger]
                old(self).slab@.dom().contains(token) ==> old(self).slab@[token] != key,
        ensures
            final(self).wf(),
            *final(self) == (Scheduler { ready_states: final(self).ready_states, ..*old(self) }),
            final(self).ready_states@ == old(self).ready_states@.remove(key),
    {
        let _ = self.ready_states.remove(key);
        proof {
            lemma_states_dropped(old(self).ready_states@, self.timer@, key);
        }
    }

    /// Hands what the event loop has woken up over to the processors; tells how many of them to
    /// wake up.
    pub fn append_io_handler_to_global_queue(&mut self) -> (count: usize)
        requires
            old(self).wf(),
        ensures
            final(self).wf(),
            handed_over(*old(self), *final(self), count),
    {
        self.machines.append_to_global_queue(&mut self.io_handler_queue)
    }

    /// Makes a coroutine with default options and makes it ready on a processor; tells how many
    /// times to wake up a processor.
    pub fn spawn(&mut self, id: usize) -> (result: Result<usize, StackUnavailable>)
        requires
            old(self).wf(),
            id < old(self).machines.processors@.len(),
        ensures
            final(self).wf(),
            scheduler_spawned(
                *old(self),
                *final(self),
                id as int,
                old(self).default_spawn_options,
                result,
            ),
    {
        let opts = self.default_spawn_options.clone();
        self.spawn_opts(id, opts)
    }

    /// Makes a coroutine and makes it ready on a processor; tells how many times to wake up a
    /// processor.
    pub fn spawn_opts(&mut self, id: usize, opts: Options) -> (result: Result<
        usize,
        StackUnavailable,
    >)
        requires
            old(self).wf(),
            id < old(self).machines.processors@.len(),
        ensures
            final(self).wf(),
            scheduler_spawned(*old(self), *final(self), id as int, opts, result),
    {
        let result = self.machines.spawn_opts(id, self.spawned, opts);
        if result.is_ok() {
            self.count_coroutine();
        }
        result
    }

    /// A coroutine is ready: it goes to the queue of a processor; tells how many processors to
    /// wake up.
    pub fn ready(&mut self, id: usize, coro: Handle) -> (count: usize)
        requires
            old(self).wf(),
            id < old(self).machines.processors@.len(),
            coro.spec_state() != State::Finished,
        ensures
            final(self).wf(),
            *final(self) == (Scheduler { machines: final(self).machines, ..*old(self) }),
            final(self).machines.same_counts(old(self).machines),
            machines::made_ready(
                old(self).machines.processors@,
                final(self).machines.processors@,
                old(self).machines.global_queue@,
                final(self).machines.global_queue@,
                id as int,
                coro,
            ),
            count == (if old(self).machines.processors@[id as int].queue@.len() < QUEUE_SIZE {
                0
            } else {
                old(self).machines.to_unpark(
                    final(self).machines.global_queue@.len() / (QUEUE_SIZE as nat / 2) + 1,
                )
            }),
    {
        self.machines.ready(id, coro)
    }

    /// The coroutine of a processor gives way.
    pub fn sched(&mut self, id: usize)
        requires
            old(self).wf(),
            id < old(self).machines.processors@.len(),
        ensures
            final(self).wf(),
            *final(self) == (Scheduler { machines: final(self).machines, ..*old(self) }),
            final(self).machines.same_counts(old(self).machines),
            final(self).machines.global_queue == old(self).machines.global_queue,
            changed_current(
                old(self).machines.processors@,
                final(self).machines.processors@,
                id as int,
            ),
            crate::runtime::processor::yielded(
                old(self).machines.processors@[id as int].current_coro,
                final(self).machines.processors@[id as int].current_coro,
                State::Suspended,
            ),
    {
        self.machines.processors[id].sched();
    }

    /// The coroutine of a processor is parked and sleeps for so many milliseconds.
    pub fn sleep_ms(&mut self, id: usize, delay: u64)
        requires
            old(self).wf(),
            id < old(self).machines.processors@.len(),
            old(self).machines.processors@[id as int].current_coro is Some,
            old(self).timer.spec_next_number() < u64::MAX,
        ensures
            final(self).wf(),
            exists|now: LocalTime|
                now.on_clock() && #[trigger] put_to_sleep(
                    *old(self),
                    *final(self),
                    id as int,
                    now,
                    delay,
                ),
    {
        let now = local_now();
        self.sleep_ms_from(id, now, delay)
    }

    /// The coroutine of a processor is parked and sleeps until so many milliseconds after `now`.
    pub fn sleep_ms_from(&mut self, id: usize, now: LocalTime, delay: u64)
        requires
            old(self).wf(),
            id < old(self).machines.processors@.len(),
            old(self).machines.processors@[id as int].current_coro is Some,
            old(self).timer.spec_next_number() < u64::MAX,
            now.on_clock(),
        ensures
            final(self).wf(),
            put_to_sleep(*old(self), *final(self), id as int, now, delay),
    {
        let coro = self.machines.processors[id].park();
        let timeout = self.timer.timeout_ms_from(now, TimerWaitType::Handle(coro), delay);
        proof {
            lemma_sleeper_added(
                old(self).timer@,
                self.timer@,
                self.ready_states@,
                now,
                delay,
                TimerWaitType::Handle(coro),
                timeout,
            );
        }
    }

    /// Takes something out of the timer without waking it up; tells whether it was still asleep.
    pub fn cancel_timeout(&mut self, timeout: Timeout) -> (found: bool)
        requires
            old(self).wf(),
        ensures
            final(self).wf(),
            *final(self) == (Scheduler { timer: final(self).timer, ..*old(self) }),
            found == old(self).timer.pending(timeout),
            found ==> final(self).timer@ == Timer::without(old(self).timer@, timeout),
            !found ==> final(self).timer@ == old(self).timer@,
    {
        let found = self.timer.clear(&timeout);
        proof {
            lemma_sleeper_removed(old(self).timer, self.ready_states@, timeout);
        }
        found
    }

    /// The coroutine of a processor waits until an object is ready, unless it is. The number is
    /// that of its waiter.
    pub fn wait(&mut self, id: usize, key: usize, ready_type: ReadyType) -> (waiter: Option<usize>)
        requires
            old(self).wf(),
            id < old(self).machines.processors@.len(),
            old(self).machines.processors@[id as int].current_coro is Some,
            old(self).ready_states@.dom().contains(key),
        ensures
            final(self).wf(),
            waits_for(*old(self), *final(self), id as int, key, ready_type),
            final(self).timer == old(self).timer,
            condvar::waited(
                old(self).ready_states@[key].condvar(ready_type),
                final(self).ready_states@[key].condvar(ready_type),
                old(self).machines.processors@[id as int],
                final(self).machines.processors@[id as int],
                waiter,
            ),
    {
        let waiter = self.ready_states.get_mut(key).wait(
            ready_type,
            &mut self.machines.processors[id],
        );
        proof {
            let before = old(self).ready_states@[key].condvar(ready_type);
            let after = self.ready_states@[key].condvar(ready_type);
            if let Some(w) = waiter {
                let coro = choose|coro: Handle|
                    {
                        &&& #[trigger] coro.moved_to(
                            old(self).machines.processors@[id as int].current_coro->0,
                            State::Parked,
                        )
                        &&& condvar::waits(before, after, w, coro)
                    };
                let middle = choose|middle: condvar::Condvar| #[trigger]
                    condvar::waits_after(before, middle, after, w, coro);
                assert(old(self).ready_states@[key].wf());
                condvar::enlisting_keeps_waiters(before, middle, w);
                assert(machines::live_opt(after.waiters@[w].handle));
                assert forall|other: usize| #[trigger]
                    before.waiters@.dom().contains(other) implies condvar::kept(
                    before.waiters@[other],
                    after.waiters@[other],
                ) by {
                    assert(condvar::kept(before.waiters@[other], middle.waiters@[other]));
                }
            }
            lemma_waiter_came(
                old(self).ready_states@,
                self.ready_states@,
                old(self).timer@,
                key,
                ready_type,
                waiter,
            );
        }
        waiter
    }

    /// The coroutine of a processor waits until an object is ready, but not longer than `delay`
    /// milliseconds from now on. The number is that of its waiter.
    pub fn wait_timeout(
        &mut self,
        id: usize,
        key: usize,
        ready_type: ReadyType,
        delay: u64,
    ) -> (waiter: Option<usize>)
        requires
            old(self).wf(),
            id < old(self).machines.processors@.len(),
            old(self).machines.processors@[id as int].current_coro is Some,
            old(self).ready_states@.dom().contains(key),
            old(self).timer.spec_next_number() < u64::MAX,
        ensures
            final(self).wf(),
            waits_for(*old(self), *final(self), id as int, key, ready_type),
            exists|now: LocalTime|
                now.on_clock() && #[trigger] condvar::waited_timeout(
                    old(self).ready_states@[key].condvar(ready_type),
                    final(self).ready_states@[key].condvar(ready_type),
                    old(self).timer,
                    final(self).timer,
                    old(self).machines.processors@[id as int],
                    final(self).machines.processors@[id as int],
                    ready_type,
                    key,
                    now,
                    delay,
                    waiter,
                ),
    {
        let waiter = self.ready_states.get_mut(key).wait_timeout(
            ready_type,
            delay,
            key,
            &mut self.timer,
            &mut self.machines.processors[id],
        );
        proof {
            let p_before = old(self).machines.processors@[id as int];
            let p_after = self.machines.processors@[id as int];
            let before = old(self).ready_states@[key].condvar(ready_type);
            let after = self.ready_states@[key].condvar(ready_type);
            let now = choose|now: LocalTime|
                now.on_clock() && #[trigger] condvar::waited_timeout(
                    before,
                    after,
                    old(self).timer,
                    self.timer,
                    p_before,
                    p_after,
                    ready_type,
                    key,
                    now,
                    delay,
                    waiter,
                );
            let timeout = Timeout { number: old(self).timer.spec_next_number() };
            if let Some(w) = waiter {
                let coro = choose|coro: Handle|
                    {
                        &&& #[trigger] coro.moved_to(p_before.current_coro->0, State::Parked)
                        &&& condvar::waits_timeout(before, after, w, coro, timeout)
                    };
                let middle = choose|middle: condvar::Condvar| #[trigger]
                    condvar::waits_timeout_after(before, middle, after, w, coro, timeout);
                assert(old(self).ready_states@[key].wf());
                condvar::enlisting_keeps_waiters(before, middle, w);
                assert(machines::live_opt(after.waiters@[w].handle));
                assert forall|other: usize| #[trigger]
                    before.waiters@.dom().contains(other) implies condvar::kept(
                    before.waiters@[other],
                    after.waiters@[other],
                ) by {
                    assert(condvar::kept(before.waiters@[other], middle.waiters@[other]));
                }
            }
            lemma_waiter_came(
                old(self).ready_states@,
                self.ready_states@,
                old(self).timer@,
                key,
                ready_type,
                waiter,
            );
            if let Some(w) = waiter {
                assert(waiter_at(self.ready_states@, key, ready_type, w) is Some);
                lemma_sleeper_added(
                    old(self).timer@,
                    self.timer@,
                    self.ready_states@,
                    now,
                    delay,
                    TimerWaitType::Waiter { states: key, ready_type, waiter: w },
                    timeout,
                );
            }
        }
        waiter
    }

    /// The last step of a wait with a timeout; tells whether the time ran out.
    pub fn end_wait_timeout(&mut self, key: usize, ready_type: ReadyType, id: usize) -> (timed_out:
        bool)
        requires
            old(self).wf(),
            waiter_at(old(self).ready_states@, key, ready_type, id) matches Some(w) && (w.state
                == WaiterState::Succeeded || w.state == WaiterState::Timeout),
        ensures
            final(self).wf(),
            wait_ended(*old(self), *final(self), key, ready_type, id, timed_out),
            timed_out == (waiter_at(old(self).ready_states@, key, ready_type, id)->0.state
                == WaiterState::Timeout),
            !sleeps_in(final(self).timer@, key, ready_type, id),
    {
        let timed_out = self.ready_states.get_mut(key).end_wait_timeout(
            ready_type,
            id,
            &mut self.timer,
        );
        proof {
            let before = old(self).ready_states@[key].condvar(ready_type);
            let waiter = before.waiters@[id];
            assert(waiter_at(old(self).ready_states@, key, ready_type, id) == Some(waiter));
            if let Some(timeout) = waiter.timeout {
                lemma_sleeper_removed(old(self).timer, old(self).ready_states@, timeout);
            }
            assert(sleepers_wf(self.timer@, old(self).ready_states@));
            assert forall|i: int| 0 <= i < self.timer@.len() implies (
            #[trigger] self.timer@[i]).value != (TimerWaitType::Waiter {
                states: key,
                ready_type,
                waiter: id,
            }) by {
                assert(sleeper_wf(self.timer@[i], old(self).ready_states@));
                if waiter.state != WaiterState::Timeout {
                    if let Some(timeout) = waiter.timeout {
                        lemma_sleeper_gone(old(self).timer, timeout);
                    }
                }
            }
            assert(old(self).ready_states@[key].wf());
            condvar::removing_keeps_waiters(before.list, before.waiters@, id);
            lemma_waiter_left(
                old(self).ready_states@,
                self.ready_states@,
                self.timer@,
                key,
                ready_type,
                id,
            );
        }
        timed_out
    }

    /// The last step of a wait without a timeout.
    pub fn end_wait(&mut self, key: usize, ready_type: ReadyType, id: usize)
        requires
            old(self).wf(),
            waiter_at(old(self).ready_states@, key, ready_type, id) matches Some(w) && w.timeout
                is None && w.prev is None && w.next is None,
            old(self).ready_states@[key].condvar(ready_type).list.head != Some(id),
            old(self).ready_states@[key].condvar(ready_type).list.tail != Some(id),
        ensures
            final(self).wf(),
            *final(self) == (Scheduler { ready_states: final(self).ready_states, ..*old(self) }),
            final(self).ready_states@ == old(self).ready_states@.insert(
                key,
                final(self).ready_states@[key],
            ),
            final(self).ready_states@[key] == old(self).ready_states@[key].with_condvar(
                ready_type,
                final(self).ready_states@[key].condvar(ready_type),
            ),
            ({
                let before = old(self).ready_states@[key].condvar(ready_type);
                let after = final(self).ready_states@[key].condvar(ready_type);
                &&& condvar::same_but_waiters(before, after)
                &&& after.waiters@ == before.waiters@.remove(id)
                &&& after.order() == before.order()
            }),
    {
        self.ready_states.get_mut(key).condvar_mut(ready_type).end_wait(id);
        proof {
            let waiter = waiter_at(old(self).ready_states@, key, ready_type, id)->0;
            assert forall|i: int| 0 <= i < self.timer@.len() implies (
            #[trigger] self.timer@[i]).value != (TimerWaitType::Waiter {
                states: key,
                ready_type,
                waiter: id,
            }) by {
                assert(sleeper_wf(self.timer@[i], old(self).ready_states@));
            }
            assert(old(self).ready_states@[key].wf());
            lemma_waiter_left(
                old(self).ready_states@,
                self.ready_states@,
                self.timer@,
                key,
                ready_type,
                id,
            );
        }
    }

    /// What follows when the coroutine of a processor has yielded; tells how many processors to
    /// wake up.
    pub fn yielded(&mut self, id: usize) -> (count: usize)
        requires
            old(self).wf(),
            id < old(self).machines.processors@.len(),
            old(self).machines.processors@[id as int].run_next is None,
            old(self).machines.processors@[id as int].can_be_put_away(),
        ensures
            final(self).wf(),
            scheduler_yielded(*old(self), *final(self), id as int, count),
    {
        let finished = match &self.machines.processors[id].current_coro {
            Some(coro) => coro.is_finished(),
            None => false,
        };
        let count = self.machines.yielded(id);
        if finished {
            self.coroutine_ended();
        }
        count
    }

    /// The end, after the event loop was left: hands out all coroutines that are pending, wherever
    /// they are, to be unwound. Nothing is left to run, to sleep or to wait.
    pub fn finish(&mut self) -> (pending: Vec<Handle>)
        requires
            old(self).wf(),
            !old(self).is_running,
            forall|i: int|
                0 <= i < old(self).machines.processors@.len() ==> (
                #[trigger] old(self).machines.processors@[i]).current_coro is None,
        ensures
            final(self).wf(),
            pending@.to_multiset() == all_pending(*old(self)),
            all_pending(*final(self)) == Multiset::<Handle>::empty(),
            machines::live(pending@),
            *final(self) == (Scheduler {
                machines: final(self).machines,
                io_handler_queue: final(self).io_handler_queue,
                timer: final(self).timer,
                ready_states: final(self).ready_states,
                ..*old(self)
            }),
            final(self).machines.same_counts(old(self).machines),
            final(self).machines.processors@.len() == old(self).machines.processors@.len(),
            forall|i: int|
                0 <= i < final(self).machines.processors@.len() ==> pending::shut_down(
                    old(self).machines.processors@[i],
                    #[trigger] final(self).machines.processors@[i],
                ),
            final(self).timer.spec_next_number() == old(self).timer.spec_next_number(),
            final(self).ready_states@.dom() == old(self).ready_states@.dom(),
            forall|key: usize| #[trigger]
                final(self).ready_states@.dom().contains(key) ==> final(self).ready_states@[key].nobody_waits(),
    {
        let mut pending: Vec<Handle> = Vec::new();
        pending::take_local(&mut self.machines, &mut pending);
        pending::take_list(&mut self.machines.global_queue, &mut pending);
        self.machines.global_queue_size = 0;
        pending::take_list(&mut self.io_handler_queue, &mut pending);
        pending::take_sleepers(&mut self.timer, &mut pending);
        pending::take_waiting(&mut self.ready_states, &mut pending);
        proof {
            lemma_all_pending_live(*old(self));
            assert(Seq::<Handle>::empty().to_multiset() =~= Multiset::<Handle>::empty()) by {
                broadcast use vstd::seq_lib::group_to_multiset_ensures;

            }
            assert(pending@.to_multiset() =~= all_pending(*old(self)));
            pending::lemma_live_queue(pending@);
            assert forall|key: usize, ready_type: ReadyType, id: usize| (#[trigger] waiter_at(
                self.ready_states@,
                key,
                ready_type,
                id,
            )) is None by {
                if self.ready_states@.dom().contains(key) {
                    assert(self.ready_states@[key].nobody_waits());
                    assert(self.ready_states@[key].condvar(ready_type).waiters@ == Map::<
                        usize,
                        Waiter,
                    >::empty());
                }
            }
            pending::lemma_processors_idle(self.machines.processors@);
            pending::lemma_nobody_waits(self.ready_states@, (usize::MAX + 1) as nat);
            assert(all_pending(*self) =~= Multiset::<Handle>::empty());
        }
        pending
    }

    /// Puts a coroutine into the global queue; tells how many processors to wake up.
    pub fn push_global_queue(&mut self, hdl: Handle) -> (count: usize)
        requires
            old(self).wf(),
            hdl.spec_state() != State::Finished,
        ensures
            final(self).wf(),
            *final(self) == (Scheduler { machines: final(self).machines, ..*old(self) }),
            final(self).machines.processors == old(self).machines.processors,
            final(self).machines.same_counts(old(self).machines),
            final(self).machines.global_queue@ == old(self).machines.global_queue@.push(hdl),
            count == old(self).machines.to_unpark(
                final(self).machines.global_queue@.len() / (QUEUE_SIZE as nat / 2) + 1,
            ),
    {
        self.machines.push_global_queue(hdl)
    }

    /// Puts a batch of coroutines into the global queue; tells how many processors to wake up.
    pub fn push_global_queue_iter(&mut self, batch: Vec<Handle>) -> (count: usize)
        requires
            old(self).wf(),
            machines::live(batch@),
        ensures
            final(self).wf(),
            *final(self) == (Scheduler { machines: final(self).machines, ..*old(self) }),
            final(self).machines.processors == old(self).machines.processors,
            final(self).machines.same_counts(old(self).machines),
            final(self).machines.global_queue@ == old(self).machines.global_queue@ + batch@,
            count == old(self).machines.to_unpark(
                final(self).machines.global_queue@.len() / (QUEUE_SIZE as nat / 2) + 1,
            ),
    {
        self.machines.push_global_queue_iter(batch)
    }

    /// The length of the global queue.
    pub fn global_queue_size(&self) -> (size: usize)
        requires
            self.wf(),
        ensures
            size == self.machines.global_queue@.len(),
    {
        self.machines.global_queue_size
    }

    /// How many processors to wake up for a global queue of this length.
    pub fn unpark_processors_with_queue_size(&self, size: usize) -> (count: usize)
        ensures
            count == self.machines.to_unpark(size as nat / (QUEUE_SIZE as nat / 2) + 1),
    {
        self.machines.unpark_processors_with_queue_size(size)
    }

    /// How many of the waiting processors to wake up, of at most `max`.
    pub fn unpark_processor_maybe(&self, max: usize) -> (count: usize)
        ensures
            count == self.machines.to_unpark(max as nat),
    {
        self.machines.unpark_processor_maybe(max)
    }

    /// Everything but the tokens, the ready states and what was woken up is as in `other`.
    pub open spec fn same_but_tokens(&self, other: Scheduler) -> bool {
        *self == (Scheduler {
            slab: self.slab,
            ready_states: self.ready_states,
            io_handler_queue: self.io_handler_queue,
            ..other
        })
    }

    /// Everything but what sleeps and waits, and what was woken up, is as in `other`.
    pub open spec fn same_but_sleepers(&self, other: Scheduler) -> bool {
        *self == (Scheduler {
            timer: self.timer,
            ready_states: self.ready_states,
            io_handler_queue: self.io_handler_queue,
            ..other
        })
    }
}

/// The milliseconds from `now` on that the event loop may wait.
pub open spec fn spec_poll_timeout(
    sleeping: Seq<SleepingTask<TimerWaitType>>,
    now: LocalTime,
) -> int {
    if sleeping.len() == 0 {
        DEFAULT_TICK_MS as int
    } else {
        let ms = timer::spec_ms_until(now, sleeping[0].expected_wakeup_time);
        if ms > usize::MAX {
            usize::MAX as int
        } else {
            ms
        }
    }
}

/// What becomes of the coroutine of a processor that has yielded, and of the number of coroutines
/// that have not ended.
pub open spec fn scheduler_yielded(
    before: Scheduler,
    after: Scheduler,
    id: int,
    count: usize,
) -> bool {
    &&& after.machines.same_counts(before.machines)
    &&& machines::put_away(before.machines, after.machines, id, count)
    &&& after == (Scheduler {
        machines: after.machines,
        work_count: match before.machines.processors@[id].current_coro {
            Some(coro) if coro.spec_state() == State::Finished => before.work_count.wrapping_sub(
                1,
            ),
            _ => before.work_count,
        },
        ..before
    })
}

/// The event loop runs, the first token is taken for it, the coroutine is at the back of the global
/// queue and counted, and the processors are there with nothing to do. All else is as before.
pub open spec fn started_with(before: Scheduler, after: Scheduler, coro: Handle) -> bool {
    let token = before.slab.vacant()[0];
    let key = after.slab@[token];
    &&& after == (Scheduler {
        slab: after.slab,
        ready_states: after.ready_states,
        machines: after.machines,
        is_running: true,
        spawned: before.spawned.wrapping_add(1),
        work_count: before.work_count.wrapping_add(1),
        ..before
    })
    &&& !before.slab@.dom().contains(token)
    &&& after.slab@ == before.slab@.insert(token, key)
    &&& after.slab.vacant() == before.slab.vacant().drop_first()
    &&& !before.ready_states@.dom().contains(key)
    &&& after.ready_states@ == before.ready_states@.insert(key, after.ready_states@[key])
    &&& after.ready_states@[key].nobody_waits()
    &&& after.machines.same_counts(before.machines)
    &&& after.machines.global_queue@ == before.machines.global_queue@.push(coro)
    &&& after.machines.processors@.len() == before.expected_worker_count
    &&& forall|i: int|
        0 <= i < before.expected_worker_count ==> machines::idle_processor(
            #[trigger] after.machines.processors@[i],
            before.maximum_stack_memory_limit,
        )
}

/// The main coroutine, ready to run for the first time.
pub open spec fn is_main(hdl: Handle, id: usize, stack_size: usize) -> bool {
    &&& hdl.spec_id() == id
    &&& hdl.spec_state() == State::Suspended
    &&& hdl.spec_coro().spec_name() matches Some(name) && name@ == "<main>"@
    &&& hdl.spec_coro().spec_stack() matches Some(stack) && stack.spec_size() == stack_size
        && stack.spec_len() >= stack_size
}

/// Something that has come to the event loop.
pub enum Event<R, D> {
    /// A message.
    Message(Message<R, D>),
    /// The object with this token has events.
    Ready(usize, Ready),
}

/// The coroutine of a message can still run, and its callback can be called.
pub open spec fn message_wf<R: FnOnce(usize, usize) -> bool, D: FnOnce()>(
    msg: Message<R, D>,
) -> bool {
    match msg {
        Message::Register(msg) => {
            &&& msg.coro.spec_state() != State::Finished
            &&& forall|token: usize, key: usize| call_requires(msg.cb, (token, key))
        },
        Message::Deregister(msg) => {
            &&& msg.coro.spec_state() != State::Finished
            &&& call_requires(msg.cb, ())
        },
        _ => true,
    }
}

/// If it is a message, it is in order.
pub open spec fn event_wf<R: FnOnce(usize, usize) -> bool, D: FnOnce()>(
    event: Event<R, D>,
) -> bool {
    event matches Event::Message(msg) ==> message_wf(msg)
}

/// What the event loop does with a message.
pub open spec fn message_handled<R: FnOnce(usize, usize) -> bool, D: FnOnce()>(
    before: Scheduler,
    after: Scheduler,
    msg: Message<R, D>,
) -> bool {
    match msg {
        Message::Unfreeze => after == before,
        Message::Register(msg) => {
            &&& after.same_but_tokens(before)
            &&& after.io_handler_queue@ == before.io_handler_queue@.push(msg.coro)
            &&& if before.slab.grown().len() == 0 {
                not_registered(before, after)
            } else {
                exists|key: usize, done: bool| #[trigger]
                    call_ensures(msg.cb, (before.slab.grown()[0], key), done)
                        && !before.ready_states@.dom().contains(key) && (if done {
                        registered(before, after, key)
                    } else {
                        not_registered(before, after)
                    })
            }
        },
        Message::Deregister(msg) => {
            &&& after.same_but_tokens(before)
            &&& after.io_handler_queue@ == before.io_handler_queue@.push(msg.coro)
            &&& after.slab@ == before.slab@.remove(msg.token)
            &&& after.slab.vacant() == (if before.slab@.dom().contains(msg.token) {
                seq![msg.token] + before.slab.vacant()
            } else {
                before.slab.vacant()
            })
            &&& after.ready_states == before.ready_states
            &&& call_ensures(msg.cb, (), ())
        },
        Message::Shutdown => after == (Scheduler { is_running: false, ..before }),
    }
}

/// What the event loop does when an object has events: for each of them one that waits is woken
/// up.
pub open spec fn object_ready(
    before: Scheduler,
    after: Scheduler,
    token: usize,
    events: Ready,
) -> bool {
    let key = before.slab@[token];
    &&& after.same_but_sleepers(before)
    &&& after.timer == before.timer
    &&& after.ready_states@ == before.ready_states@.insert(key, after.ready_states@[key])
    &&& ready::notified_events(
        before.ready_states@[key],
        after.ready_states@[key],
        events,
        before.io_handler_queue@,
        after.io_handler_queue@,
    )
}

/// What the event loop does with something that has come.
pub open spec fn event_handled<R: FnOnce(usize, usize) -> bool, D: FnOnce()>(
    before: Scheduler,
    after: Scheduler,
    event: Event<R, D>,
) -> bool {
    match event {
        Event::Message(msg) => message_handled(before, after, msg),
        Event::Ready(token, ready) => {
            &&& before.slab@.dom().contains(token)
            &&& object_ready(before, after, token, ready)
        },
    }
}

/// The first events were handled one after the other, with these states between them.
pub open spec fn handled_in_order<R: FnOnce(usize, usize) -> bool, D: FnOnce()>(
    trace: Seq<Scheduler>,
    events: Seq<Event<R, D>>,
) -> bool {
    forall|i: int|
        0 <= i < trace.len() - 1 ==> event_handled(#[trigger] trace[i], trace[i + 1], events[i])
}

/// What was woken up went to the back of the global queue.
pub open spec fn handed_over(before: Scheduler, after: Scheduler, count: usize) -> bool {
    &&& after == (Scheduler {
        machines: after.machines,
        io_handler_queue: after.io_handler_queue,
        ..before
    })
    &&& after.io_handler_queue@.len() == 0
    &&& after.machines.processors == before.machines.processors
    &&& after.machines.same_counts(before.machines)
    &&& after.machines.global_queue@ == before.machines.global_queue@ + before.io_handler_queue@
    &&& count == (if before.io_handler_queue@.len() == 0 {
        0
    } else {
        before.machines.to_unpark(
            after.machines.global_queue@.len() / (QUEUE_SIZE as nat / 2) + 1,
        )
    })
}

/// A whole round of the event loop.
pub open spec fn round_done<R: FnOnce(usize, usize) -> bool, D: FnOnce()>(
    before: Scheduler,
    after: Scheduler,
    events: Seq<Event<R, D>>,
    now: LocalTime,
    count: usize,
) -> bool {
    exists|trace: Seq<Scheduler>, woken: Scheduler| #[trigger]
        round_of(before, after, events, now, count, trace, woken)
}

/// A whole round of the event loop, with these states in between.
pub open spec fn round_of<R: FnOnce(usize, usize) -> bool, D: FnOnce()>(
    before: Scheduler,
    after: Scheduler,
    events: Seq<Event<R, D>>,
    now: LocalTime,
    count: usize,
    trace: Seq<Scheduler>,
    woken: Scheduler,
) -> bool {
    &&& trace.len() == events.len() + 1
    &&& trace[0] == before
    &&& forall|i: int| 0 <= i < trace.len() ==> (#[trigger] trace[i]).wf()
    &&& handled_in_order(trace, events)
    &&& woken.same_but_sleepers(trace.last())
    &&& ticked(trace.last(), woken, now)
    &&& handed_over(woken, after, count)
}

/// A round of the event loop that ended at an object that is not registered.
pub open spec fn round_broken<R: FnOnce(usize, usize) -> bool, D: FnOnce()>(
    before: Scheduler,
    after: Scheduler,
    events: Seq<Event<R, D>>,
    token: usize,
) -> bool {
    exists|trace: Seq<Scheduler>| #[trigger] broken_at(before, after, trace, events, token)
}

/// A round of the event loop that ended at an object that is not registered, with these states
/// in between.
pub open spec fn broken_at<R: FnOnce(usize, usize) -> bool, D: FnOnce()>(
    before: Scheduler,
    after: Scheduler,
    trace: Seq<Scheduler>,
    events: Seq<Event<R, D>>,
    token: usize,
) -> bool {
    &&& 1 <= trace.len() <= events.len()
    &&& trace[0] == before
    &&& trace.last() == after
    &&& forall|i: int| 0 <= i < trace.len() ==> (#[trigger] trace[i]).wf()
    &&& handled_in_order(trace, events)
    &&& events[trace.len() - 1] matches Event::Ready(t, _) && t == token
    &&& !after.slab@.dom().contains(token)
}

/// New ready states are registered under the token that was to be given away next.
pub open spec fn registered(before: Scheduler, after: Scheduler, key: usize) -> bool {
    let tokens = before.slab.grown();
    &&& !before.slab@.dom().contains(tokens[0])
    &&& after.slab@ == before.slab@.insert(tokens[0], key)
    &&& after.slab.vacant() == tokens.drop_first()
    &&& after.ready_states@ == before.ready_states@.insert(key, after.ready_states@[key])
    &&& after.ready_states@[key].nobody_waits()
}

/// Nothing was registered, but there are more tokens if there was none.
pub open spec fn not_registered(before: Scheduler, after: Scheduler) -> bool {
    &&& after.slab@ == before.slab@
    &&& after.slab.vacant() == before.slab.grown()
    &&& after.ready_states@ == before.ready_states@
}

/// Every waiter of the states before is still there, and so is every sleeper.
proof fn lemma_waiters_kept(
    before: StatesMap,
    after: StatesMap,
    sleeping: Seq<SleepingTask<TimerWaitType>>,
)
    requires
        sleepers_wf(sleeping, before),
        forall|key: usize, ready_type: ReadyType, id: usize|
            (#[trigger] waiter_at(before, key, ready_type, id)) matches Some(w) ==> waiter_at(
                after,
                key,
                ready_type,
                id,
            ) matches Some(now) && condvar::kept(w, now),
    ensures
        sleepers_wf(sleeping, after),
{
    assert forall|i: int| 0 <= i < sleeping.len() implies sleeper_wf(#[trigger] sleeping[i], after) by {
        assert(sleeper_wf(sleeping[i], before));
        if let TimerWaitType::Waiter { states, ready_type, waiter } = sleeping[i].value {
            assert(waiter_at(before, states, ready_type, waiter) is Some);
        }
    }
}

/// New states with nobody waiting keep everything in order.
proof fn lemma_states_added(
    before: StatesMap,
    sleeping: Seq<SleepingTask<TimerWaitType>>,
    key: usize,
    states: ReadyStates,
)
    requires
        states_wf(before),
        sleepers_wf(sleeping, before),
        !before.dom().contains(key),
        states.wf(),
        states.nobody_waits(),
    ensures
        states_wf(before.insert(key, states)),
        sleepers_wf(sleeping, before.insert(key, states)),
{
    let after = before.insert(key, states);
    assert forall|k: usize, t: ReadyType, i: usize| #[trigger]
        waiter_at(after, k, t, i) == waiter_at(before, k, t, i) by {
        if k == key {
            assert(states.condvar(t).waiters@ == Map::<usize, Waiter>::empty());
        }
    }
    assert forall|k: usize, t: ReadyType, i: usize|
        (#[trigger] waiter_at(before, k, t, i)) is Some implies waiter_at(after, k, t, i)
        == waiter_at(before, k, t, i) by {
        assert(waiter_at(after, k, t, i) == waiter_at(before, k, t, i));
    }
    assert forall|k: usize, t: ReadyType, i: usize|
        (#[trigger] waiter_at(after, k, t, i)) is Some implies machines::live_opt(
        waiter_at(after, k, t, i)->0.handle,
    ) by {
        assert(waiter_at(before, k, t, i) is Some);
    }
    lemma_waiters_kept(before, after, sleeping);
}

/// States with nobody waiting can go.
proof fn lemma_states_dropped(
    before: StatesMap,
    sleeping: Seq<SleepingTask<TimerWaitType>>,
    key: usize,
)
    requires
        states_wf(before),
        sleepers_wf(sleeping, before),
        before.dom().contains(key),
        before[key].nobody_waits(),
    ensures
        states_wf(before.remove(key)),
        sleepers_wf(sleeping, before.remove(key)),
{
    let after = before.remove(key);
    assert forall|k: usize, t: ReadyType, i: usize| #[trigger]
        waiter_at(before, k, t, i) is Some implies waiter_at(after, k, t, i) == waiter_at(
        before,
        k,
        t,
        i,
    ) by {
        if k == key {
            assert(before[key].condvar(t).waiters@ == Map::<usize, Waiter>::empty());
        }
    }
    assert forall|k: usize, t: ReadyType, i: usize|
        (#[trigger] waiter_at(after, k, t, i)) is Some implies machines::live_opt(
        waiter_at(after, k, t, i)->0.handle,
    ) by {
        assert(waiter_at(before, k, t, i) is Some);
    }
    lemma_waiters_kept(before, after, sleeping);
}

/// Notifying those who wait for one object keeps everything in order.
proof fn lemma_notified_events(
    before: StatesMap,
    after: StatesMap,
    sleeping: Seq<SleepingTask<TimerWaitType>>,
    key: usize,
    events: Ready,
    handles_before: Seq<Handle>,
    handles_after: Seq<Handle>,
)
    requires
        states_wf(before),
        sleepers_wf(sleeping, before),
        before.dom().contains(key),
        after == before.insert(key, after[key]),
        after[key].wf(),
        machines::live(handles_before),
        ready::notified_events(before[key], after[key], events, handles_before, handles_after),
    ensures
        states_wf(after),
        sleepers_wf(sleeping, after),
        machines::live(handles_after),
{
    let middle = choose|middle: Seq<Handle>| #[trigger]
        ready::notified_in_turn(
            before[key],
            after[key],
            events,
            handles_before,
            middle,
            handles_after,
        );
    let b = before[key];
    let a = after[key];
    assert(b.wf());
    if events.spec_contains(Ready { bits: 1 }) {
        condvar::notifying_keeps_waiters(b.readable, a.readable, handles_before, middle);
    }
    if events.spec_contains(Ready { bits: 2 }) {
        condvar::notifying_keeps_waiters(b.writable, a.writable, middle, handles_after);
    }
    assert forall|t: ReadyType, i: usize| #[trigger]
        waiter_at(before, key, t, i) is Some implies machines::live_opt(
        waiter_at(before, key, t, i)->0.handle,
    ) by {}
    assert(machines::live(middle)) by {
        if middle != handles_before {
            let id = choose|id: usize|
                #![trigger b.readable.waiters@.dom().contains(id)]
                b.readable.waiters@.dom().contains(id) && b.readable.waiters@[id].handle is Some
                    && middle == handles_before.push(b.readable.waiters@[id].handle->0);
            assert(waiter_at(before, key, ReadyType::Readable, id) is Some);
        }
    }
    assert(machines::live(handles_after)) by {
        if handles_after != middle {
            let id = choose|id: usize|
                #![trigger b.writable.waiters@.dom().contains(id)]
                b.writable.waiters@.dom().contains(id) && b.writable.waiters@[id].handle is Some
                    && handles_after == middle.push(b.writable.waiters@[id].handle->0);
            assert(waiter_at(before, key, ReadyType::Writable, id) is Some);
        }
    }
    assert forall|k: usize, t: ReadyType, i: usize|
        (#[trigger] waiter_at(before, k, t, i)) is Some implies waiter_at(
        after,
        k,
        t,
        i,
    ) matches Some(now) && condvar::kept(waiter_at(before, k, t, i)->0, now) by {
        if k == key {
            assert(b.condvar(t).waiters@.dom().contains(i));
        }
    }
    assert forall|k: usize, t: ReadyType, i: usize|
        (#[trigger] waiter_at(after, k, t, i)) is Some implies machines::live_opt(
        waiter_at(after, k, t, i)->0.handle,
    ) by {
        if k == key {
            assert(b.condvar(t).waiters@.dom().contains(i));
        }
        assert(waiter_at(before, k, t, i) is Some);
    }
    assert forall|k: usize| #[trigger] after.dom().contains(k) implies after[k].wf() by {
        assert(before.dom().contains(k));
    }
    lemma_waiters_kept(before, after, sleeping);
}

/// A new coroutine is ready on a processor, and is counted; or there was no stack for it.
pub open spec fn scheduler_spawned(
    before: Scheduler,
    after: Scheduler,
    id: int,
    opts: Options,
    result: Result<usize, StackUnavailable>,
) -> bool {
    &&& after.machines.same_counts(before.machines)
    &&& match result {
        Err(unavailable) => {
            &&& after == (Scheduler { machines: after.machines, ..before })
            &&& machines::spawn_failed(before.machines, after.machines, id, opts, unavailable)
        },
        Ok(count) => {
            &&& after == (Scheduler {
                machines: after.machines,
                spawned: before.spawned.wrapping_add(1),
                work_count: before.work_count.wrapping_add(1),
                ..before
            })
            &&& machines::spawned(before.machines, after.machines, id, before.spawned, opts)
            &&& count == machines::woken_by_spawn(before.machines, after.machines, id)
        },
    }
}

/// Only the running coroutine of one processor has changed.
pub open spec fn changed_current(before: Seq<Processor>, after: Seq<Processor>, id: int) -> bool {
    &&& machines::same_elsewhere(before, after, id)
    &&& after[id].same_but_current(before[id])
}

/// The coroutine of a processor was parked and sleeps.
pub open spec fn put_to_sleep(
    before: Scheduler,
    after: Scheduler,
    id: int,
    now: LocalTime,
    delay: u64,
) -> bool {
    &&& after == (Scheduler { machines: after.machines, timer: after.timer, ..before })
    &&& after.machines.same_counts(before.machines)
    &&& after.machines.global_queue == before.machines.global_queue
    &&& changed_current(before.machines.processors@, after.machines.processors@, id)
    &&& after.machines.processors@[id].current_coro is None
    &&& after.timer.spec_next_number() == before.timer.spec_next_number() + 1
    &&& exists|coro: Handle|
        {
            &&& #[trigger] coro.moved_to(
                before.machines.processors@[id].current_coro->0,
                State::Parked,
            )
            &&& Timer::put_to_sleep(
                before.timer@,
                after.timer@,
                now,
                delay,
                TimerWaitType::Handle(coro),
                Timeout { number: before.timer.spec_next_number() },
            )
        }
}

/// Only the coroutine of one processor and those who wait for this on one object have changed,
/// and maybe the timer.
pub open spec fn waits_for(
    before: Scheduler,
    after: Scheduler,
    id: int,
    key: usize,
    ready_type: ReadyType,
) -> bool {
    &&& after == (Scheduler {
        machines: after.machines,
        ready_states: after.ready_states,
        timer: after.timer,
        ..before
    })
    &&& after.machines.same_counts(before.machines)
    &&& after.machines.global_queue == before.machines.global_queue
    &&& changed_current(before.machines.processors@, after.machines.processors@, id)
    &&& after.ready_states@ == before.ready_states@.insert(key, after.ready_states@[key])
    &&& after.ready_states@[key] == before.ready_states@[key].with_condvar(
        ready_type,
        after.ready_states@[key].condvar(ready_type),
    )
}

/// A wait with a timeout has ended: its waiter is dropped, and its timeout is cancelled if the time
/// did not run out.
pub open spec fn wait_ended(
    before: Scheduler,
    after: Scheduler,
    key: usize,
    ready_type: ReadyType,
    id: usize,
    timed_out: bool,
) -> bool {
    let b = before.ready_states@[key].condvar(ready_type);
    let a = after.ready_states@[key].condvar(ready_type);
    let waiter = b.waiters@[id];
    &&& after.same_but_sleepers(before)
    &&& after.io_handler_queue == before.io_handler_queue
    &&& after.ready_states@ == before.ready_states@.insert(key, after.ready_states@[key])
    &&& after.ready_states@[key] == before.ready_states@[key].with_condvar(ready_type, a)
    &&& a.token == b.token
    &&& a.notified == b.notified
    &&& a.list == b.list.removed(b.waiters@, id)
    &&& a.waiters@ == b.list.waiters_removed(b.waiters@, id).remove(id)
    &&& timed_out == (waiter.state == WaiterState::Timeout)
    &&& after.timer@ == (if !timed_out && waiter.timeout is Some && before.timer.pending(
        waiter.timeout->0,
    ) {
        Timer::without(before.timer@, waiter.timeout->0)
    } else {
        before.timer@
    })
}

/// One more sleeper that is in order keeps them all in order.
proof fn lemma_sleeper_added(
    before: Seq<SleepingTask<TimerWaitType>>,
    after: Seq<SleepingTask<TimerWaitType>>,
    states: StatesMap,
    now: LocalTime,
    delay: u64,
    value: TimerWaitType,
    timeout: Timeout,
)
    requires
        sleepers_wf(before, states),
        Timer::put_to_sleep(before, after, now, delay, value, timeout),
        match value {
            TimerWaitType::Handle(hdl) => hdl.spec_state() != State::Finished,
            TimerWaitType::Waiter { states: key, ready_type, waiter } => {
                &&& waiter_at(states, key, ready_type, waiter) matches Some(w)
                &&& w.timeout == Some(timeout)
                &&& w.state != WaiterState::Timeout
            },
        },
    ensures
        sleepers_wf(after, states),
{
    let wakeup = choose|wakeup: LocalTime|
        wakeup.instant() == now.instant() + delay * 1_000_000 && wakeup.nanos < 1_000_000_000
            && #[trigger] Timer::added(
            before,
            after,
            SleepingTask { value, expected_wakeup_time: wakeup, timeout },
        );
    let task = SleepingTask { value, expected_wakeup_time: wakeup, timeout };
    let k = choose|k: int|
        0 <= k <= before.len() && after == #[trigger] before.insert(k, task) && (forall|i: int|
            0 <= i < k ==> (#[trigger] before[i]).expected_wakeup_time.spec_not_after(
                task.expected_wakeup_time,
            )) && (forall|i: int|
            k <= i < before.len() ==> !(#[trigger] before[i]).expected_wakeup_time.spec_not_after(
                task.expected_wakeup_time,
            ));
    assert forall|i: int| 0 <= i < after.len() implies sleeper_wf(#[trigger] after[i], states) by {
        if i < k {
            assert(after[i] == before[i]);
        } else if i > k {
            assert(after[i] == before[i - 1]);
        }
    }
}

/// Without one of them the sleepers are still in order.
proof fn lemma_sleeper_removed(
    timer: Timer<TimerWaitType>,
    states: StatesMap,
    timeout: Timeout,
)
    requires
        sleepers_wf(timer@, states),
    ensures
        timer.pending(timeout) ==> sleepers_wf(Timer::without(timer@, timeout), states),
{
    if timer.pending(timeout) {
        let k = choose|k: int| 0 <= k < timer@.len() && (#[trigger] timer@[k]).timeout == timeout;
        let after = timer@.remove(k);
        assert forall|i: int| 0 <= i < after.len() implies sleeper_wf(#[trigger] after[i], states) by {
            if i < k {
                assert(after[i] == timer@[i]);
            } else {
                assert(after[i] == timer@[i + 1]);
            }
        }
    }
}

/// A timeout that was taken out is not there any more.
proof fn lemma_sleeper_gone(timer: Timer<TimerWaitType>, timeout: Timeout)
    requires
        timer.wf(),
    ensures
        timer.pending(timeout) ==> forall|i: int|
            0 <= i < Timer::without(timer@, timeout).len() ==> (#[trigger] Timer::without(
                timer@,
                timeout,
            )[i]).timeout != timeout,
        !timer.pending(timeout) ==> forall|i: int|
            0 <= i < timer@.len() ==> (#[trigger] timer@[i]).timeout != timeout,
{
    if timer.pending(timeout) {
        let k = choose|k: int| 0 <= k < timer@.len() && (#[trigger] timer@[k]).timeout == timeout;
        let after = timer@.remove(k);
        assert forall|i: int| 0 <= i < after.len() implies (#[trigger] after[i]).timeout
            != timeout by {
            if i < k {
                assert(after[i] == timer@[i]);
            } else {
                assert(after[i] == timer@[i + 1]);
            }
        }
    }
}

/// A wait keeps everything in order.
proof fn lemma_waiter_came(
    before: StatesMap,
    after: StatesMap,
    sleeping: Seq<SleepingTask<TimerWaitType>>,
    key: usize,
    ready_type: ReadyType,
    waiter: Option<usize>,
)
    requires
        states_wf(before),
        sleepers_wf(sleeping, before),
        before.dom().contains(key),
        after == before.insert(key, after[key]),
        after[key].wf(),
        after[key] == before[key].with_condvar(ready_type, after[key].condvar(ready_type)),
        ({
            let b = before[key].condvar(ready_type).waiters@;
            let a = after[key].condvar(ready_type).waiters@;
            match waiter {
                None => a == b,
                Some(id) => {
                    &&& a.dom() =~= b.dom().insert(id)
                    &&& !b.dom().contains(id)
                    &&& machines::live_opt(a[id].handle)
                    &&& forall|other: usize| #[trigger]
                        b.dom().contains(other) ==> condvar::kept(b[other], a[other])
                },
            }
        }),
    ensures
        states_wf(after),
        sleepers_wf(sleeping, after),
{
    let b = before[key].condvar(ready_type).waiters@;
    let a = after[key].condvar(ready_type).waiters@;
    assert forall|k: usize, t: ReadyType, i: usize|
        (#[trigger] waiter_at(before, k, t, i)) is Some implies waiter_at(
        after,
        k,
        t,
        i,
    ) matches Some(now) && condvar::kept(waiter_at(before, k, t, i)->0, now) by {
        if k == key && t == ready_type {
            assert(b.dom().contains(i));
        }
    }
    assert forall|k: usize, t: ReadyType, i: usize|
        (#[trigger] waiter_at(after, k, t, i)) is Some implies machines::live_opt(
        waiter_at(after, k, t, i)->0.handle,
    ) by {
        if k == key && t == ready_type {
            if waiter != Some(i) {
                assert(b.dom().contains(i));
                assert(waiter_at(before, k, t, i) is Some);
            }
        } else {
            assert(waiter_at(before, k, t, i) is Some);
        }
    }
    assert forall|k: usize| #[trigger] after.dom().contains(k) implies after[k].wf() by {
        assert(before.dom().contains(k));
    }
    lemma_waiters_kept(before, after, sleeping);
}

/// The end of a wait keeps everything in order if the waiter does not sleep any more.
proof fn lemma_waiter_left(
    before: StatesMap,
    after: StatesMap,
    sleeping: Seq<SleepingTask<TimerWaitType>>,
    key: usize,
    ready_type: ReadyType,
    id: usize,
)
    requires
        states_wf(before),
        sleepers_wf(sleeping, before),
        before.dom().contains(key),
        after == before.insert(key, after[key]),
        after[key].wf(),
        after[key] == before[key].with_condvar(ready_type, after[key].condvar(ready_type)),
        forall|i: int|
            0 <= i < sleeping.len() ==> (#[trigger] sleeping[i]).value != (TimerWaitType::Waiter {
                states: key,
                ready_type,
                waiter: id,
            }),
        ({
            let b = before[key].condvar(ready_type).waiters@;
            let a = after[key].condvar(ready_type).waiters@;
            &&& a.dom() =~= b.dom().remove(id)
            &&& forall|other: usize| #[trigger]
                b.dom().contains(other) && other != id ==> condvar::kept(b[other], a[other])
        }),
    ensures
        states_wf(after),
        sleepers_wf(sleeping, after),
{
    let b = before[key].condvar(ready_type).waiters@;
    let a = after[key].condvar(ready_type).waiters@;
    assert forall|k: usize, t: ReadyType, i: usize|
        (#[trigger] waiter_at(before, k, t, i)) is Some && !(k == key && t == ready_type && i
            == id) implies waiter_at(after, k, t, i) matches Some(now) && condvar::kept(
        waiter_at(before, k, t, i)->0,
        now,
    ) by {
        if k == key && t == ready_type {
            assert(b.dom().contains(i));
        }
    }
    assert forall|k: usize, t: ReadyType, i: usize|
        (#[trigger] waiter_at(after, k, t, i)) is Some implies machines::live_opt(
        waiter_at(after, k, t, i)->0.handle,
    ) by {
        if k == key && t == ready_type {
            assert(b.dom().contains(i));
        }
        assert(waiter_at(before, k, t, i) is Some);
    }
    assert forall|k: usize| #[trigger] after.dom().contains(k) implies after[k].wf() by {
        assert(before.dom().contains(k));
    }
    assert forall|i: int| 0 <= i < sleeping.len() implies sleeper_wf(#[trigger] sleeping[i], after) by {
        assert(sleeper_wf(sleeping[i], before));
        if let TimerWaitType::Waiter { states, ready_type: t, waiter } = sleeping[i].value {
            assert(waiter_at(before, states, t, waiter) is Some);
        }
    }
}

/// The coroutines that are woken up when the time of all these has come: those that sleep, and
/// those of the waiters that still wait.
pub open spec fn woken_by(
    tasks: Seq<SleepingTask<TimerWaitType>>,
    states: StatesMap,
) -> Seq<Handle>
    decreases tasks.len(),
{
    if tasks.len() == 0 {
        Seq::empty()
    } else {
        let before = woken_by(tasks.drop_last(), states);
        match tasks.last().value {
            TimerWaitType::Handle(hdl) => before.push(hdl),
            TimerWaitType::Waiter {
                states: key,
                ready_type,
                waiter,
            } => match waiter_at(states, key, ready_type, waiter) {
                Some(w) => match w.handle {
                    Some(hdl) => before.push(hdl),
                    None => before,
                },
                None => before,
            },
        }
    }
}

/// The waiter is among those that sleep.
pub open spec fn sleeps_in(
    tasks: Seq<SleepingTask<TimerWaitType>>,
    key: usize,
    ready_type: ReadyType,
    id: usize,
) -> bool {
    exists|i: int|
        0 <= i < tasks.len() && (#[trigger] tasks[i]).value == (TimerWaitType::Waiter {
            states: key,
            ready_type,
            waiter: id,
        })
}

/// The waiters among the tasks were told that their time ran out, and the others stay as they
/// were.
pub open spec fn expired(
    before: StatesMap,
    after: StatesMap,
    tasks: Seq<SleepingTask<TimerWaitType>>,
) -> bool {
    &&& after.dom() == before.dom()
    &&& forall|key: usize, ready_type: ReadyType, id: usize| #[trigger]
        waiter_at(after, key, ready_type, id) == (match waiter_at(before, key, ready_type, id) {
            Some(w) => Some(
                if sleeps_in(tasks, key, ready_type, id) {
                    w.notified(WaiterState::Timeout)
                } else {
                    w
                },
            ),
            None => None,
        })
}

/// Everything whose time has come at `now` was woken up.
pub open spec fn ticked(before: Scheduler, after: Scheduler, now: LocalTime) -> bool {
    exists|n: int| #[trigger] ticked_by(before, after, now, n)
}

/// The first `n` sleepers, which are those whose time has come at `now`, were woken up.
pub open spec fn ticked_by(before: Scheduler, after: Scheduler, now: LocalTime, n: int) -> bool {
    let tasks = before.timer@.take(n);
    &&& 0 <= n <= before.timer@.len()
    &&& forall|i: int|
        0 <= i < n ==> (#[trigger] before.timer@[i]).expected_wakeup_time.spec_not_after(now)
    &&& n < before.timer@.len() ==> !before.timer@[n].expected_wakeup_time.spec_not_after(now)
    &&& after.timer@ == before.timer@.skip(n)
    &&& after.io_handler_queue@ == before.io_handler_queue@ + woken_by(tasks, before.ready_states@)
    &&& expired(before.ready_states@, after.ready_states@, tasks)
}

/// Changing one waiter leaves all others as they were.
proof fn lemma_waiter_changed(
    before: StatesMap,
    after: StatesMap,
    key: usize,
    ready_type: ReadyType,
    id: usize,
    w: Waiter,
)
    requires
        before.dom().contains(key),
        after == before.insert(key, after[key]),
        after[key] == before[key].with_condvar(ready_type, after[key].condvar(ready_type)),
        after[key].condvar(ready_type).waiters@ == before[key].condvar(ready_type).waiters@.insert(
            id,
            w,
        ),
    ensures
        after.dom() == before.dom(),
        forall|k: usize, t: ReadyType, i: usize| #[trigger]
            waiter_at(after, k, t, i) == (if k == key && t == ready_type && i == id {
                Some(w)
            } else {
                waiter_at(before, k, t, i)
            }),
{
    assert(after.dom() =~= before.dom());
    assert forall|k: usize, t: ReadyType, i: usize| #[trigger]
        waiter_at(after, k, t, i) == (if k == key && t == ready_type && i == id {
            Some(w)
        } else {
            waiter_at(before, k, t, i)
        }) by {
        if k == key {
            if t == ready_type {
            } else {
                assert(after[key].condvar(t) == before[key].condvar(t));
            }
        }
    }
}

/// Changing one waiter keeps the states in order.
proof fn lemma_states_changed(
    before: StatesMap,
    after: StatesMap,
    key: usize,
    ready_type: ReadyType,
    id: usize,
    w: Waiter,
)
    requires
        states_wf(before),
        before.dom().contains(key),
        after == before.insert(key, after[key]),
        after[key] == before[key].with_condvar(ready_type, after[key].condvar(ready_type)),
        after[key].condvar(ready_type).wf(),
        after[key].condvar(ready_type).waiters@ == before[key].condvar(ready_type).waiters@.insert(
            id,
            w,
        ),
        machines::live_opt(w.handle),
    ensures
        states_wf(after),
{
    lemma_waiter_changed(before, after, key, ready_type, id, w);
    assert forall|k: usize| #[trigger] after.dom().contains(k) implies after[k].wf() by {
        assert(before.dom().contains(k));
        if k == key {
            assert(before[key].wf());
        }
    }
    assert forall|k: usize, t: ReadyType, i: usize|
        (#[trigger] waiter_at(after, k, t, i)) is Some implies machines::live_opt(
        waiter_at(after, k, t, i)->0.handle,
    ) by {
        assert(waiter_at(before, k, t, i) matches Some(waiter) ==> machines::live_opt(
            waiter.handle,
        ));
    }
}

/// One more task is among the first ones.
proof fn lemma_sleeps_in_step(
    all: Seq<SleepingTask<TimerWaitType>>,
    n: int,
    key: usize,
    ready_type: ReadyType,
    id: usize,
)
    requires
        0 <= n < all.len(),
    ensures
        sleeps_in(all.take(n + 1), key, ready_type, id) <==> sleeps_in(
            all.take(n),
            key,
            ready_type,
            id,
        ) || all[n].value == (TimerWaitType::Waiter { states: key, ready_type, waiter: id }),
{
    let value = TimerWaitType::Waiter { states: key, ready_type, waiter: id };
    if sleeps_in(all.take(n), key, ready_type, id) {
        let i = choose|i: int| 0 <= i < n && (#[trigger] all.take(n)[i]).value == value;
        assert(all.take(n + 1)[i].value == value);
    }
    if all[n].value == value {
        assert(all.take(n + 1)[n].value == value);
    }
    if sleeps_in(all.take(n + 1), key, ready_type, id) {
        let i = choose|i: int| 0 <= i < n + 1 && (#[trigger] all.take(n + 1)[i]).value == value;
        if i < n {
            assert(all.take(n)[i].value == value);
        }
    }
}

/// A coroutine that wakes up changes no waiter.
proof fn lemma_expired_handle(
    before: StatesMap,
    after: StatesMap,
    all: Seq<SleepingTask<TimerWaitType>>,
    n: int,
)
    requires
        0 <= n < all.len(),
        all[n].value is Handle,
        expired(before, after, all.take(n)),
    ensures
        expired(before, after, all.take(n + 1)),
{
    assert forall|key: usize, ready_type: ReadyType, id: usize| #[trigger]
        waiter_at(after, key, ready_type, id) == (match waiter_at(before, key, ready_type, id) {
            Some(w) => Some(
                if sleeps_in(all.take(n + 1), key, ready_type, id) {
                    w.notified(WaiterState::Timeout)
                } else {
                    w
                },
            ),
            None => None,
        }) by {
        lemma_sleeps_in_step(all, n, key, ready_type, id);
    }
}

/// A waiter that is told that its time ran out is one more of those that were.
proof fn lemma_expired_waiter(
    before: StatesMap,
    middle: StatesMap,
    after: StatesMap,
    all: Seq<SleepingTask<TimerWaitType>>,
    n: int,
    key: usize,
    ready_type: ReadyType,
    id: usize,
)
    requires
        0 <= n < all.len(),
        all[n].value == (TimerWaitType::Waiter { states: key, ready_type, waiter: id }),
        expired(before, middle, all.take(n)),
        waiter_at(middle, key, ready_type, id) is Some,
        after.dom() == middle.dom(),
        forall|k: usize, t: ReadyType, i: usize| #[trigger]
            waiter_at(after, k, t, i) == (if k == key && t == ready_type && i == id {
                Some(
                    waiter_at(middle, key, ready_type, id)->0.notified(WaiterState::Timeout),
                )
            } else {
                waiter_at(middle, k, t, i)
            }),
    ensures
        expired(before, after, all.take(n + 1)),
{
    assert forall|k: usize, t: ReadyType, i: usize| #[trigger]
        waiter_at(after, k, t, i) == (match waiter_at(before, k, t, i) {
            Some(w) => Some(
                if sleeps_in(all.take(n + 1), k, t, i) {
                    w.notified(WaiterState::Timeout)
                } else {
                    w
                },
            ),
            None => None,
        }) by {
        lemma_sleeps_in_step(all, n, k, t, i);
        assert(waiter_at(middle, k, t, i) == (match waiter_at(before, k, t, i) {
            Some(w) => Some(
                if sleeps_in(all.take(n), k, t, i) {
                    w.notified(WaiterState::Timeout)
                } else {
                    w
                },
            ),
            None => None,
        }));
    }
}

/// No waiter sleeps twice.
proof fn lemma_waiters_sleep_once(
    timer: Timer<TimerWaitType>,
    states: StatesMap,
    n: int,
    key: usize,
    ready_type: ReadyType,
    id: usize,
)
    requires
        timer.wf(),
        sleepers_wf(timer@, states),
        0 <= n < timer@.len(),
        timer@[n].value == (TimerWaitType::Waiter { states: key, ready_type, waiter: id }),
    ensures
        !sleeps_in(timer@.take(n), key, ready_type, id),
{
    if sleeps_in(timer@.take(n), key, ready_type, id) {
        let i = choose|i: int|
            0 <= i < n && (#[trigger] timer@.take(n)[i]).value == (TimerWaitType::Waiter {
                states: key,
                ready_type,
                waiter: id,
            });
        assert(sleeper_wf(timer@[i], states));
        assert(sleeper_wf(timer@[n], states));
        assert(timer@[i].timeout != timer@[n].timeout);
    }
}

} // verus!
