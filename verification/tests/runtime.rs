//! Coroutines as small programs: whenever one is run, its closure is called, and says how it goes
//! on.

use std::cell::RefCell;
use std::collections::HashMap;
use std::rc::Rc;

use coio::coroutine::{Handle, State};
use coio::join_handle::{Join, JoinHandleInner};
use coio::options::Options;
use coio::runtime::machines::ScheduleStep;
use coio::runtime::timer::LocalTime;
use coio::scheduler::Scheduler;
use coio::sync::mono_barrier::{
    CoroMonoBarrier, CoroMonoBarrierError, MonoBarrier, MonoBarrierError, Notified, Waiting,
};
use coio::sync::mpsc;
use coio::sync::mpsc::{Recv, RecvError, SendError, TryRecvError, TrySendError};
use coio::sync::mutex::Mutex;
use coio::sync::semaphore::Semaphore;
use coio::{Builder, GiveWay};

/// How a coroutine goes on.
enum Act {
    /// It gives way.
    Yield,
    /// It was parked.
    Parked,
    /// It is done.
    Finish,
}

type Body = Box<dyn FnMut(&mut World) -> Act>;

/// A scheduler and the programs of its coroutines.
struct World {
    scheduler: Scheduler,
    bodies: HashMap<usize, Body>,
    /// The processor that runs.
    id: usize,
    now: LocalTime,
    switches: usize,
}

impl World {
    fn new(workers: usize, main: Body) -> World {
        let mut scheduler = Scheduler::new().with_workers(workers).default_stack_size(4096);
        let id = scheduler.start().unwrap();
        let mut bodies = HashMap::new();
        bodies.insert(id, main);
        World {
            scheduler,
            bodies,
            id: 0,
            now: LocalTime { secs: 1_000_000, nanos: 0 },
            switches: 0,
        }
    }

    fn spawn(&mut self, body: Body) {
        let coro = self.scheduler.spawned;
        self.scheduler.spawn(self.id).unwrap();
        self.bodies.insert(coro, body);
    }

    fn ready(&mut self, coro: Handle) {
        self.scheduler.ready(self.id, coro);
    }

    fn processor(&mut self) -> &mut coio::runtime::processor::Processor {
        &mut self.scheduler.machines.processors[self.id]
    }

    fn sleep(&mut self, ms: u64) -> Act {
        let now = self.now;
        self.scheduler.sleep_ms_from(self.id, now, ms);
        Act::Parked
    }

    /// Runs everything that is ready, and lets time pass until nothing sleeps any more.
    fn run(&mut self) {
        loop {
            let mut busy = false;
            for id in 0..self.scheduler.machines.processors.len() {
                self.id = id;
                match self.scheduler.machines.schedule(id, None) {
                    ScheduleStep::Run => {
                        busy = true;
                        self.switches += 1;
                        let coro = self.processor().current_coroutine().unwrap().id();
                        let mut body = self.bodies.remove(&coro).unwrap();
                        match body(self) {
                            Act::Yield => {
                                assert_eq!(coio::sched(Some(self.processor())), GiveWay::Coroutine);
                                self.bodies.insert(coro, body);
                            }
                            Act::Parked => {
                                self.bodies.insert(coro, body);
                            }
                            Act::Finish => {
                                self.processor().yield_with(State::Finished);
                            }
                        }
                        self.scheduler.yielded(id);
                    }
                    ScheduleStep::Park => self.scheduler.machines.unparked(),
                    step => panic!("{:?}", step),
                }
            }
            if !busy {
                let ms = match self.scheduler.timer.next_tick_in_ms(self.now) {
                    None => return,
                    Some(ms) => ms,
                };
                assert_eq!(self.scheduler.poll_timeout_ms(self.now), ms);
                self.now = self.now.plus_ms(ms);
                let now = self.now;
                self.scheduler.tick(now);
                self.scheduler.append_io_handler_to_global_queue();
            }
        }
    }
}

/// Runs a main coroutine until everything has ended.
fn run(workers: usize, main: Body) -> World {
    let mut world = World::new(workers, main);
    world.run();
    assert_eq!(world.scheduler.work_count(), 0);
    world
}

#[test]
fn processor_sched_order() {
    let results = Rc::new(RefCell::new(Vec::with_capacity(4)));
    let expected = vec![0, 1, 2, 3];
    let shared = results.clone();
    let mut step = 0;
    run(1, Box::new(move |w: &mut World| {
        step += 1;
        if step == 1 {
            for i in 1..4 {
                let results = shared.clone();
                w.spawn(Box::new(move |_: &mut World| {
                    results.borrow_mut().push(i);
                    Act::Finish
                }));
            }
            shared.borrow_mut().push(0);
            return Act::Yield;
        }
        assert_eq!(*shared.borrow(), vec![0, 1, 2, 3]);
        Act::Finish
    }));
    assert_eq!(*results.borrow(), expected);
}

#[test]
fn processor_queue_overflow() {
    let counter = Rc::new(RefCell::new(0));
    let shared = counter.clone();
    let mut step = 0;
    run(1, Box::new(move |w: &mut World| {
        step += 1;
        if step == 1 {
            let mut opts = Options::new();
            opts.stack_size(32 * 1024);
            for _ in 0..300 {
                let counter = shared.clone();
                let coro = w.scheduler.spawned;
                w.scheduler.spawn_opts(0, opts.clone()).unwrap();
                w.bodies.insert(coro, Box::new(move |_: &mut World| {
                    *counter.borrow_mut() += 1;
                    Act::Finish
                }));
            }
        }
        if step <= 2 {
            return Act::Yield;
        }
        assert_eq!(*shared.borrow(), 300);
        Act::Finish
    }));
    assert_eq!(*counter.borrow(), 300);
}

#[test]
fn test_join_basic() {
    let handle = Rc::new(RefCell::new(JoinHandleInner::new()));
    let mut step = 0;
    run(1, Box::new(move |w: &mut World| {
        step += 1;
        if step == 1 {
            let sender = handle.clone();
            w.spawn(Box::new(move |w: &mut World| {
                if let Notified::Coroutine(coro) = sender.borrow_mut().push(1) {
                    w.ready(coro);
                }
                Act::Finish
            }));
            match handle.borrow_mut().pop(Some(w.processor())) {
                Join::Parked => return Act::Parked,
                _ => panic!("there is no result yet"),
            }
        }
        assert_eq!(handle.borrow_mut().take(), 1);
        Act::Finish
    }));
}

/// Ten coroutines hand over a result each, and the main one takes them in turn.
fn join_all(workers: usize) {
    let handles: Vec<_> =
        (0..10).map(|_| Rc::new(RefCell::new(JoinHandleInner::<Result<i32, ()>>::new()))).collect();
    let taken = Rc::new(RefCell::new(0));
    let count = taken.clone();
    let mut started = false;
    let mut parked = false;
    run(workers, Box::new(move |w: &mut World| {
        if !started {
            started = true;
            for h in handles.iter() {
                let h = h.clone();
                w.spawn(Box::new(move |w: &mut World| {
                    if let Notified::Coroutine(coro) = h.borrow_mut().push(Ok(1)) {
                        w.ready(coro);
                    }
                    Act::Finish
                }));
            }
        }
        while *count.borrow() < handles.len() {
            let h = handles[*count.borrow()].clone();
            let result = if parked {
                parked = false;
                h.borrow_mut().take()
            } else {
                match h.borrow_mut().pop(Some(w.processor())) {
                    Join::Done(result) => result,
                    _ => {
                        parked = true;
                        return Act::Parked;
                    }
                }
            };
            assert_eq!(result.unwrap(), 1);
            *count.borrow_mut() += 1;
        }
        Act::Finish
    }));
    assert_eq!(*taken.borrow(), 10);
}

#[test]
fn test_join_handle_basic() {
    for _ in 0..10 {
        let handle = Rc::new(RefCell::new(JoinHandleInner::<Result<i32, ()>>::new()));
        let joined = Rc::new(RefCell::new(false));
        let done = joined.clone();
        let mut parked = false;
        run(1, Box::new(move |w: &mut World| {
            if !parked {
                parked = true;
                let tx = handle.clone();
                w.spawn(Box::new(move |w: &mut World| {
                    match tx.borrow_mut().push(Ok(1)) {
                        Notified::Coroutine(coro) => w.ready(coro),
                        _ => panic!("the main coroutine waits"),
                    }
                    Act::Finish
                }));
                return match handle.borrow_mut().pop(Some(w.processor())) {
                    Join::Parked => Act::Parked,
                    _ => panic!("there is no result yet"),
                };
            }
            let value = handle.borrow_mut().take().unwrap();
            assert_eq!(value, 1);
            *done.borrow_mut() = true;
            Act::Finish
        }));
        assert!(*joined.borrow());
    }
}

#[test]
fn thread_joins_although_it_is_woken_up_for_nothing() {
    let mut handle = JoinHandleInner::<i32>::new();
    match handle.pop(None) {
        Join::Thread => {}
        _ => panic!("there is no result yet"),
    }
    match handle.woken() {
        Join::Thread => {}
        _ => panic!("there is still no result"),
    }
    match handle.push(5) {
        Notified::Thread => {}
        _ => panic!("a thread waits"),
    }
    match handle.woken() {
        Join::Done(value) => assert_eq!(value, 5),
        _ => panic!("the result is there"),
    }
    let mut handle = JoinHandleInner::<i32>::new();
    assert!(matches!(handle.push(6), Notified::Nobody));
    assert!(matches!(handle.pop(None), Join::Done(6)));
}

#[test]
fn test_join_handle_basic2() {
    join_all(1);
}

#[test]
fn test_join_handle_basic3() {
    join_all(4);
}

#[test]
fn test_sleep_ms() {
    let mut step = 0;
    let world = run(1, Box::new(move |w: &mut World| {
        step += 1;
        if step == 1 {
            return w.sleep(1000);
        }
        Act::Finish
    }));
    assert_eq!(world.now, LocalTime { secs: 1_000_001, nanos: 0 });
}

#[test]
fn sleep_ms_asks_the_clock() {
    let mut world = World::new(1, Box::new(|_: &mut World| Act::Finish));
    assert_eq!(world.scheduler.machines.schedule(0, None), ScheduleStep::Run);
    assert_eq!(coio::sleep_ms(Some(&mut world.scheduler), 0, 1000), GiveWay::Coroutine);
    assert!(world.scheduler.machines.processors[0].current_coroutine().is_none());
    assert!(world.scheduler.timer.next_tick_in_ms(LocalTime { secs: 0, nanos: 0 }).unwrap() > 1000);
    assert_eq!(coio::sleep_ms(None, 0, 1), GiveWay::Thread);
    assert_eq!(coio::sched(None), GiveWay::Thread);
}

#[test]
fn test_mono_barrier_thread_notify() {
    let mut barrier = MonoBarrier::new();
    let mut state = 0;
    assert_eq!(barrier.wait(None), Ok(Waiting::Thread));
    assert_eq!(state, 0);
    state = 1;
    match barrier.notify() {
        Notified::Thread => {}
        _ => panic!("a thread waits"),
    }
    assert_eq!(barrier.woken(), Ok(Waiting::Done));
    assert_eq!(state, 1);
}

#[test]
fn test_mono_barrier_thread_wait() {
    let mut barrier = MonoBarrier::new();
    match barrier.notify() {
        Notified::Nobody => {}
        _ => panic!("nobody waits"),
    }
    assert_eq!(barrier.wait(None), Ok(Waiting::Done));
}

#[test]
fn only_one_waits_at_a_mono_barrier() {
    let mut barrier = MonoBarrier::new();
    assert_eq!(barrier.wait(None), Ok(Waiting::Thread));
    // somebody else cannot wait
    assert_eq!(barrier.wait(None), Err(MonoBarrierError::Occupied));
    // the one that waits, and is woken up although nobody notified, waits on
    assert_eq!(barrier.woken(), Ok(Waiting::Thread));
    assert_eq!(barrier.woken(), Ok(Waiting::Thread));
    assert!(matches!(barrier.notify(), Notified::Thread));
    assert_eq!(barrier.woken(), Ok(Waiting::Done));
    // somebody else was faster, and a coroutine waits
    assert_eq!(barrier.wait(None), Ok(Waiting::Thread));
    assert!(matches!(barrier.notify(), Notified::Thread));
    assert_eq!(barrier.wait(None), Ok(Waiting::Done));
    assert_eq!(barrier.woken(), Ok(Waiting::Thread));
    assert!(matches!(barrier.notify(), Notified::Thread));
    assert_eq!(barrier.wait(None), Ok(Waiting::Done));
    let mut world = World::new(1, Box::new(|_: &mut World| Act::Finish));
    assert_eq!(world.scheduler.machines.schedule(0, None), ScheduleStep::Run);
    assert_eq!(barrier.wait(Some(world.processor())), Ok(Waiting::Parked));
    assert_eq!(barrier.woken(), Err(MonoBarrierError::Occupied));
    assert!(matches!(barrier.notify(), Notified::Coroutine(_)));
}

#[test]
fn test_mono_barrier_coroutine_notify() {
    let barrier = Rc::new(RefCell::new(MonoBarrier::new()));
    let state = Rc::new(RefCell::new(0));
    let mut step = 0;
    run(1, Box::new(move |w: &mut World| {
        step += 1;
        if step == 1 {
            let barrier2 = barrier.clone();
            let state2 = state.clone();
            w.spawn(Box::new(move |w: &mut World| {
                *state2.borrow_mut() = 1;
                if let Notified::Coroutine(coro) = barrier2.borrow_mut().notify() {
                    w.ready(coro);
                }
                Act::Finish
            }));
            assert_eq!(barrier.borrow_mut().wait(Some(w.processor())), Ok(Waiting::Parked));
            return Act::Parked;
        }
        assert_eq!(*state.borrow(), 1);
        Act::Finish
    }));
}

#[test]
fn test_mono_barrier_coroutine_wait() {
    let barrier = Rc::new(RefCell::new(MonoBarrier::new()));
    let state = Rc::new(RefCell::new(0));
    let seen = state.clone();
    run(1, Box::new(move |w: &mut World| {
        let barrier2 = barrier.clone();
        let state2 = state.clone();
        w.spawn(Box::new(move |w: &mut World| {
            assert_eq!(barrier2.borrow_mut().wait(Some(w.processor())), Ok(Waiting::Done));
            assert_eq!(*state2.borrow(), 1);
            *state2.borrow_mut() = 2;
            Act::Finish
        }));
        *state.borrow_mut() = 1;
        if let Notified::Coroutine(coro) = barrier.borrow_mut().notify() {
            w.ready(coro);
        }
        Act::Finish
    }));
    assert_eq!(*seen.borrow(), 2);
}

#[test]
fn test_coro_mono_barrier() {
    let barrier = Rc::new(RefCell::new(CoroMonoBarrier::new()));
    let state = Rc::new(RefCell::new(0));
    let mut step = 0;
    run(1, Box::new(move |w: &mut World| {
        step += 1;
        match step {
            1 => {
                assert!(barrier.borrow_mut().notify().is_none());
                assert!(barrier.borrow_mut().notify().is_none());
                assert!(barrier.borrow_mut().notify().is_none());

                assert_eq!(barrier.borrow_mut().wait(Some(w.processor())), Ok(false));

                let barrier2 = barrier.clone();
                let state2 = state.clone();
                let mut step = 0;
                w.spawn(Box::new(move |w: &mut World| {
                    if step == 0 {
                        *state2.borrow_mut() = 1;
                        if let Some(coro) = barrier2.borrow_mut().notify() {
                            w.ready(coro);
                        }
                    } else {
                        *state2.borrow_mut() = step + 1;
                    }
                    step += 1;
                    if step == 3 {
                        return Act::Finish;
                    }
                    assert_eq!(barrier2.borrow_mut().wait(Some(w.processor())), Ok(true));
                    Act::Parked
                }));
                assert_eq!(barrier.borrow_mut().wait(Some(w.processor())), Ok(true));
                Act::Parked
            }
            2 => {
                assert_eq!(*state.borrow(), 1);
                let coro = barrier.borrow_mut().notify();
                w.ready(coro.unwrap());
                w.sleep(10)
            }
            3 => {
                assert_eq!(*state.borrow(), 2);
                let coro = barrier.borrow_mut().notify();
                w.ready(coro.unwrap());
                w.sleep(10)
            }
            _ => {
                assert_eq!(*state.borrow(), 3);
                Act::Finish
            }
        }
    }));
}

#[test]
fn coro_mono_barrier_errors() {
    let mut barrier = CoroMonoBarrier::new();
    assert_eq!(barrier.wait(None), Err(CoroMonoBarrierError::MissingProcessor));
    let mut world = World::new(1, Box::new(|_: &mut World| Act::Finish));
    assert_eq!(world.scheduler.machines.schedule(0, None), ScheduleStep::Run);
    assert_eq!(barrier.wait(Some(world.processor())), Ok(true));
    world.spawn(Box::new(|_: &mut World| Act::Finish));
    world.scheduler.yielded(0);
    assert_eq!(world.scheduler.machines.schedule(0, None), ScheduleStep::Run);
    assert_eq!(barrier.wait(Some(world.processor())), Err(CoroMonoBarrierError::Occupied));
    assert!(world.processor().current_coroutine().is_some());
    assert_eq!(barrier.close().map(|h| h.id()), Some(0));
    assert!(barrier.close().is_none());
}

#[test]
fn test_channel_basic() {
    let channel = Rc::new(RefCell::new(mpsc::channel()));
    let tx = channel.clone();
    let mut world = run(1, Box::new(move |_: &mut World| {
        assert!(tx.borrow_mut().send(1).unwrap().is_none());
        tx.borrow_mut().drop_sender();
        Act::Finish
    }));
    match channel.borrow_mut().recv(world.processor()) {
        Ok(Recv::Received(value)) => assert_eq!(1, value),
        _ => panic!("a value was sent"),
    }
    assert_eq!(channel.borrow_mut().try_recv(), Err(TryRecvError::Disconnected));
    match channel.borrow_mut().recv(world.processor()) {
        Err(RecvError) => {}
        _ => panic!("there is no sender"),
    };
    channel.borrow_mut().clone_sender();
    assert_eq!(channel.borrow_mut().try_recv(), Err(TryRecvError::Empty));
    channel.borrow_mut().drop_receiver();
    match channel.borrow_mut().send(5) {
        Err(SendError(value)) => assert_eq!(value, 5),
        Ok(_) => panic!("there is no receiver"),
    };
}

#[test]
fn test_sync_channel_basic() {
    let channel = Rc::new(RefCell::new(mpsc::sync_channel(2)));
    let received = Rc::new(RefCell::new(Vec::new()));
    let got = received.clone();
    let mut step = 0;
    run(1, Box::new(move |w: &mut World| {
        step += 1;
        if step == 1 {
            let tx = channel.clone();
            w.spawn(Box::new(move |_: &mut World| {
                assert!(tx.borrow_mut().try_send(1).unwrap().is_none());
                assert!(tx.borrow_mut().try_send(2).unwrap().is_none());
                match tx.borrow_mut().try_send(3) {
                    Err(e) => assert_eq!(e, TrySendError::Full(3)),
                    Ok(_) => panic!("the channel is full"),
                }
                Act::Finish
            }));
            return Act::Yield;
        }
        if step == 2 {
            let (value, ready) = channel.borrow_mut().try_recv().unwrap();
            assert_eq!(value, 1);
            assert!(ready.is_none());
            assert_eq!(channel.borrow_mut().try_recv().unwrap().0, 2);
            match channel.borrow_mut().try_recv() {
                Err(e) => assert_eq!(e, TryRecvError::Empty),
                Ok(_) => panic!("the channel is empty"),
            }
            let tx = channel.clone();
            let mut next = 1;
            w.spawn(Box::new(move |w: &mut World| {
                while next < 10 {
                    match tx.borrow_mut().send(next, w.processor()) {
                        Ok(mpsc::Send::Sent(ready)) => {
                            if let Some(coro) = ready {
                                w.ready(coro);
                            }
                            next += 1;
                        }
                        Ok(mpsc::Send::Parked(value)) => {
                            assert_eq!(value, next);
                            return Act::Parked;
                        }
                        Err(_) => panic!("there is a receiver"),
                    }
                }
                Act::Finish
            }));
            return w.sleep(100);
        }
        while got.borrow().len() < 9 {
            match channel.borrow_mut().recv(w.processor()) {
                Ok(Recv::Received((value, ready))) => {
                    got.borrow_mut().push(value);
                    if let Some(coro) = ready {
                        w.ready(coro);
                    }
                }
                Ok(Recv::Parked) => return Act::Parked,
                Err(_) => panic!("there is a sender"),
            }
        }
        Act::Finish
    }));
    assert_eq!(*received.borrow(), (1..10).collect::<Vec<i32>>());
}

#[test]
fn channels_keep_the_order() {
    let mut channel = mpsc::channel();
    let mut bounded = mpsc::sync_channel(3);
    let mut received = Vec::new();
    for i in 0..10 {
        assert!(channel.send(i).is_ok());
        assert!(bounded.try_send(i).is_ok());
        if i % 3 != 0 {
            let first = channel.try_recv().unwrap();
            assert_eq!(bounded.try_recv().ok().unwrap().0, first);
            received.push(first);
        }
        if i >= 3 {
            received.extend(channel.try_recv().ok());
            let _ = bounded.try_recv();
        }
    }
    while let Ok(i) = channel.try_recv() {
        received.push(i);
    }
    assert_eq!(received, (0..10).collect::<Vec<i32>>());
}

#[test]
fn next_guard_has_what_the_last_one_left() {
    let mut mutex = Mutex::new(1);
    let mut guard = mutex.try_lock().ok().unwrap();
    assert!(mutex.try_lock().is_err());
    *guard.deref_mut() = 2;
    assert!(mutex.unlock(guard).is_none());
    let guard = mutex.try_lock().ok().unwrap();
    assert_eq!(*guard.deref(), 2);
}

#[test]
fn rendezvous_channel_is_always_full() {
    let mut channel = mpsc::sync_channel(0);
    match channel.try_send(1) {
        Err(e) => assert_eq!(e, TrySendError::Full(1)),
        Ok(_) => panic!("there is no room"),
    }
    channel.drop_receiver();
    match channel.try_send(1) {
        Err(e) => assert_eq!(e, TrySendError::Disconnected(1)),
        Ok(_) => panic!("there is no receiver"),
    }
}

#[test]
fn test_mutex() {
    let num = Rc::new(RefCell::new(Mutex::new(0)));
    let shared = num.clone();
    run(1, Box::new(move |w: &mut World| {
        for _ in 0..100 {
            let num = shared.clone();
            let mut left = 10;
            let mut guard = None;
            let mut waits = false;
            w.spawn(Box::new(move |w: &mut World| {
                if let Some(guard) = guard.take() {
                    if let Some(coro) = num.borrow_mut().unlock(guard) {
                        w.ready(coro);
                    }
                    left -= 1;
                }
                if left == 0 {
                    return Act::Finish;
                }
                let mut got = if waits {
                    waits = false;
                    num.borrow_mut().locked().ok().unwrap()
                } else {
                    match num.borrow_mut().lock(w.processor()) {
                        Some(got) => got.ok().unwrap(),
                        None => {
                            waits = true;
                            return Act::Parked;
                        }
                    }
                };
                *got.deref_mut() += 1;
                guard = Some(got);
                Act::Yield
            }));
        }
        Act::Finish
    }));
    assert_eq!(*num.borrow_mut().try_lock().ok().unwrap().deref(), 1000);
    assert!(num.borrow_mut().try_lock().is_err());
}

/// Ten coroutines want one of `count` permits each, and give way while they have it.
fn semaphore(count: usize) {
    let sema = Rc::new(RefCell::new(Semaphore::new(count)));
    let holders = Rc::new(RefCell::new(0));
    let order = Rc::new(RefCell::new(Vec::new()));
    let acquired = order.clone();
    run(1, Box::new(move |w: &mut World| {
        for id in 0..10 {
            let sema = sema.clone();
            let holders = holders.clone();
            let order = acquired.clone();
            let mut step = 0;
            w.spawn(Box::new(move |w: &mut World| {
                step += 1;
                if step == 1 && !sema.borrow_mut().acquire(w.processor()) {
                    return Act::Parked;
                }
                if step <= 2 && order.borrow().iter().all(|o| *o != id) {
                    order.borrow_mut().push(id);
                    *holders.borrow_mut() += 1;
                    assert!(*holders.borrow() <= count);
                    return Act::Yield;
                }
                *holders.borrow_mut() -= 1;
                if let Some(coro) = sema.borrow_mut().release() {
                    w.ready(coro);
                }
                Act::Finish
            }));
        }
        Act::Finish
    }));
    assert_eq!(*order.borrow(), (0..10).collect::<Vec<i32>>());
}

#[test]
fn binary_semaphore() {
    semaphore(1);
}

#[test]
fn basic_semaphore() {
    semaphore(5);
}

#[test]
fn try_acquire_never_waits() {
    assert_eq!(Semaphore::new(5).available(), 5);
    let mut sema = Semaphore::new(1);
    assert!(sema.try_acquire());
    assert!(!sema.try_acquire());
    assert!(sema.release().is_none());
    assert!(sema.try_acquire());
}

#[test]
fn builder_configures_the_coroutine() {
    let mut world = World::new(1, Box::new(|_: &mut World| Act::Finish));
    let builder = Builder::new().stack_size(8192).name("built".to_string());
    assert_eq!(builder.spawn(&mut world.scheduler, 0).unwrap(), 0);
    let queue = &mut world.scheduler.machines.processors[0].queue;
    let hdl = queue.pop_front().unwrap();
    assert_eq!(hdl.coro().name(), Some("built"));
    assert_eq!(world.scheduler.work_count(), 2);
    match Builder::new().stack_size(1 << 62).spawn(&mut world.scheduler, 0) {
        Err(unavailable) => assert_eq!(unavailable.size, 1 << 62),
        Ok(_) => panic!("no machine has that much memory"),
    }
    assert_eq!(world.scheduler.work_count(), 2);
}
