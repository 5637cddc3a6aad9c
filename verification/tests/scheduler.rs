use std::collections::VecDeque;

use coio::coroutine::{Coroutine, Handle, HandleList};
use coio::options::{Options, DEFAULT_STACK};
use coio::runtime::machines::ScheduleStep;
use coio::runtime::stack_pool::StackUnavailable;
use coio::runtime::timer::LocalTime;
use coio::scheduler::ready::{Ready, ReadyType};
use coio::scheduler::tokens::Tokens;
use coio::scheduler::{
    DeregisterMessage, Event, Message, RegisterMessage, Scheduler, FIRST_TOKENS, MAX_STACK_MEMORY,
};

const NOW: LocalTime = LocalTime { secs: 50, nanos: 0 };

type Register = Box<dyn FnOnce(usize, usize) -> bool>;
type Deregister = Box<dyn FnOnce()>;

fn handle(id: usize) -> Handle {
    let mut opts = Options::new();
    opts.stack_size(4096);
    Coroutine::spawn_opts(id, opts).unwrap()
}

fn started() -> Scheduler {
    let mut s = Scheduler::new();
    assert_eq!(s.start().unwrap(), 0);
    s
}

/// Registers an object, which gets this token.
fn register(s: &mut Scheduler, coro: usize, ok: bool) -> Option<usize> {
    let before = s.slab.next_token();
    let expected = before.unwrap();
    let msg: Message<Register, Deregister> = Message::Register(RegisterMessage {
        cb: Box::new(move |token, _| {
            assert_eq!(token, expected);
            ok
        }),
        coro: handle(coro),
    });
    s.io_notify(msg);
    if ok {
        before
    } else {
        None
    }
}

/// Has processor 0 run a new coroutine with this number.
fn run_one(s: &mut Scheduler) -> usize {
    let id = s.spawned;
    s.spawn(0).unwrap();
    loop {
        assert_eq!(s.machines.schedule(0, None), ScheduleStep::Run);
        if s.machines.processors[0].current_coroutine().unwrap().id() == id {
            return id;
        }
        let other = s.machines.processors[0].park();
        let _ = other;
        s.yielded(0);
    }
}

fn ids(list: &HandleList) -> Vec<usize> {
    let mut iter = list.iter();
    let mut ids = Vec::new();
    while let Some(hdl) = iter.next() {
        ids.push(hdl.id());
    }
    ids
}

#[test]
fn scheduler_has_its_defaults() {
    let s = Scheduler::new();
    assert_eq!(s.expected_worker_count, 1);
    assert_eq!(s.maximum_stack_memory_limit, MAX_STACK_MEMORY);
    assert_eq!(s.maximum_stack_memory_limit, 2 * 1024 * 1024 * 1024);
    assert_eq!(s.default_spawn_options.stack_size, DEFAULT_STACK);
    assert_eq!(s.work_count(), 0);
    assert_eq!(s.poll_timeout_ms(NOW), 1000);
    let s = s.with_workers(4).default_stack_size(8192);
    assert_eq!(s.expected_worker_count, 4);
    assert_eq!(s.default_spawn_options.stack_size, 8192);
}

#[test]
fn start_prepares_the_main_coroutine() {
    let mut s = Scheduler::new().with_workers(3);
    assert_eq!(s.start().unwrap(), 0);
    assert!(s.is_running);
    assert_eq!(s.machines.processors.len(), 3);
    assert_eq!(s.global_queue_size(), 1);
    assert_eq!(s.work_count(), 1);
    assert_eq!(s.slab.get(0), Some(0));
    assert_eq!(s.machines.schedule(2, None), ScheduleStep::Run);
    let main = s.machines.processors[2].current_coroutine().unwrap();
    assert_eq!(main.coro().name(), Some("<main>"));
    let mut s = Scheduler::new().default_stack_size(1 << 62);
    assert_eq!(s.start().unwrap_err().size, 1 << 62);
    assert!(!s.is_running);
}

#[test]
fn ready_types_are_events() {
    assert_eq!(Ready::from(ReadyType::Readable), Ready::readable());
    assert_eq!(Ready::from(ReadyType::Writable), Ready::writable());
    let both = Ready { bits: 3 };
    assert!(both.contains(Ready::readable()));
    assert!(both.contains(Ready::writable()));
    assert!(!Ready::readable().contains(both));
    assert!(!Ready { bits: 4 }.contains(Ready::readable()));
}

#[test]
fn tokens_double_when_they_run_out() {
    let mut tokens = Tokens::with_capacity(2);
    assert_eq!(tokens.next_token(), Some(0));
    assert_eq!(tokens.insert(10), Ok(0));
    assert_eq!(tokens.insert(11), Ok(1));
    assert_eq!(tokens.insert(12), Err(12));
    assert_eq!(tokens.next_token(), Some(2));
    assert_eq!(tokens.insert(12), Ok(2));
    assert_eq!(tokens.get(2), Some(12));
    assert_eq!(tokens.remove(1), Some(11));
    assert_eq!(tokens.remove(1), None);
    assert_eq!(tokens.get(1), None);
    // a token that came back is given away first
    assert_eq!(tokens.next_token(), Some(1));
    assert_eq!(tokens.insert(13), Ok(1));
    assert_eq!(tokens.next_token(), Some(3));
    let mut none = Tokens::with_capacity(0);
    assert_eq!(none.next_token(), None);
}

#[test]
fn objects_are_registered_and_deregistered() {
    let mut s = started();
    let token = register(&mut s, 20, true).unwrap();
    assert_eq!(token, 1);
    let key = s.slab.get(token).unwrap();
    assert!(register(&mut s, 21, false).is_none());
    assert_eq!(s.slab.next_token(), Some(2));
    assert_eq!(ids(&s.io_handler_queue), vec![20, 21]);
    let msg: Message<Register, Deregister> = Message::Deregister(DeregisterMessage {
        cb: Box::new(|| {}),
        coro: handle(22),
        token,
    });
    s.io_notify(msg);
    assert_eq!(s.slab.get(token), None);
    assert!(s.ready_states.contains(key));
    s.drop_states(key);
    assert!(!s.ready_states.contains(key));
    assert_eq!(s.append_io_handler_to_global_queue(), 0);
    assert_eq!(s.global_queue_size(), 4);
    assert_eq!(ids(&s.machines.global_queue), vec![0, 20, 21, 22]);
}

#[test]
fn slab_grows_for_many_objects() {
    let mut s = started();
    for i in 1..FIRST_TOKENS + 10 {
        assert_eq!(register(&mut s, i, true), Some(i));
    }
}

#[test]
fn events_wake_up_those_who_wait() {
    let mut s = started();
    let token = register(&mut s, 20, true).unwrap();
    s.append_io_handler_to_global_queue();
    let key = s.slab.get(token).unwrap();
    let reader = run_one(&mut s);
    let w1 = s.wait(0, key, ReadyType::Readable).unwrap();
    s.yielded(0);
    let writer = run_one(&mut s);
    let w2 = s.wait(0, key, ReadyType::Writable).unwrap();
    s.yielded(0);
    s.io_ready(token, Ready { bits: 4 });
    assert!(s.io_handler_queue.is_empty());
    s.io_ready(token, Ready { bits: 3 });
    assert_eq!(ids(&s.io_handler_queue), vec![reader, writer]);
    s.end_wait(key, ReadyType::Readable, w1);
    s.end_wait(key, ReadyType::Writable, w2);
    // an event that nobody waited for lets the next wait pass
    s.io_ready(token, Ready { bits: 1 });
    run_one(&mut s);
    assert!(s.wait(0, key, ReadyType::Readable).is_none());
}

#[test]
fn wait_for_an_object_times_out() {
    let mut s = started();
    let token = register(&mut s, 20, true).unwrap();
    let key = s.slab.get(token).unwrap();
    s.append_io_handler_to_global_queue();
    let late = run_one(&mut s);
    let w1 = s.wait_timeout(0, key, ReadyType::Readable, 10).unwrap();
    s.yielded(0);
    let far = LocalTime { secs: 9_000_000_000_000, nanos: 0 };
    assert_eq!(s.poll_timeout_ms(far), 0);
    s.tick(far);
    assert_eq!(ids(&s.io_handler_queue), vec![late]);
    assert!(s.end_wait_timeout(key, ReadyType::Readable, w1));
    s.append_io_handler_to_global_queue();

    let lucky = run_one(&mut s);
    let w2 = s.wait_timeout(0, key, ReadyType::Readable, 10).unwrap();
    s.yielded(0);
    s.io_ready(token, Ready::readable());
    assert_eq!(ids(&s.io_handler_queue), vec![lucky]);
    assert!(!s.end_wait_timeout(key, ReadyType::Readable, w2));
    // its timeout is gone
    assert_eq!(s.poll_timeout_ms(far), 1000);
}

#[test]
fn sleepers_can_be_called_off() {
    let mut s = started();
    run_one(&mut s);
    s.sleep_ms_from(0, NOW, 2500);
    s.yielded(0);
    assert_eq!(s.poll_timeout_ms(NOW), 2500);
    assert_eq!(s.poll_timeout_ms(NOW.plus_ms(2400)), 100);
    assert!(s.cancel_timeout(coio::runtime::timer::Timeout { number: 0 }));
    assert!(!s.cancel_timeout(coio::runtime::timer::Timeout { number: 0 }));
    s.tick(NOW.plus_ms(5000));
    assert!(s.io_handler_queue.is_empty());
}

#[test]
fn one_round_of_the_event_loop() {
    let mut s = started();
    let token = register(&mut s, 20, true).unwrap();
    let key = s.slab.get(token).unwrap();
    s.append_io_handler_to_global_queue();
    let waiting = run_one(&mut s);
    s.wait(0, key, ReadyType::Readable).unwrap();
    s.yielded(0);
    let sleeping = run_one(&mut s);
    s.sleep_ms_from(0, NOW, 5);
    s.yielded(0);
    s.machines.idle_processor_count = 1;
    let mut events: VecDeque<Event<Register, Deregister>> = VecDeque::new();
    events.push_back(Event::Message(Message::Unfreeze));
    events.push_back(Event::Ready(token, Ready::readable()));
    events.push_back(Event::Message(Message::Shutdown));
    let before = s.global_queue_size();
    assert_eq!(s.run_once(events, NOW.plus_ms(5)), Ok(1));
    assert!(!s.is_running);
    assert_eq!(s.global_queue_size(), before + 2);
    let queue = ids(&s.machines.global_queue);
    assert_eq!(queue[before..], [waiting, sleeping]);
    let mut events: VecDeque<Event<Register, Deregister>> = VecDeque::new();
    events.push_back(Event::Ready(500, Ready::readable()));
    assert_eq!(s.run_once(events, NOW), Err(500));
}

#[test]
fn counts_how_many_processors_to_wake_up() {
    let mut s = started();
    s.machines.idle_processor_count = 3;
    assert_eq!(s.unpark_processor_maybe(2), 2);
    assert_eq!(s.unpark_processors_with_queue_size(300), 3);
    assert_eq!(s.push_global_queue(handle(1)), 1);
    assert_eq!(s.push_global_queue_iter((0..200).map(handle).collect()), 2);
    assert_eq!(s.ready(0, handle(5)), 0);
    s.coroutine_ended();
    assert_eq!(s.work_count(), 0);
}

#[test]
fn everything_pending_is_handed_out_at_the_end() {
    let mut s = started();
    register(&mut s, 90, true).unwrap();
    let key = s.slab.get(1).unwrap();
    // one sleeps, two wait for the object, one of them not for long
    let sleeping = run_one(&mut s);
    s.sleep_ms_from(0, NOW, 10_000);
    s.yielded(0);
    let reading = run_one(&mut s);
    assert!(s.wait(0, key, ReadyType::Readable).is_some());
    s.yielded(0);
    let writing = run_one(&mut s);
    assert!(s.wait_timeout(0, key, ReadyType::Writable, 20_000).is_some());
    s.yielded(0);
    // one is in the global queue, one is queued, and one is to run next
    s.push_global_queue(handle(70));
    let queued = s.spawned;
    s.spawn(0).unwrap();
    s.machines.processors[0].run_next = Some(handle(80));
    s.is_running = false;
    s.machines.stop();
    assert!(!s.ready_states.get(key).is_unused());
    assert_eq!(s.timer.next_number(), 2);
    let mut pending: Vec<usize> = s.finish().iter().map(|h| h.id()).collect();
    pending.sort();
    // the main coroutine was never run
    let mut expected = vec![0, sleeping, reading, writing, queued, 70, 80, 90];
    expected.sort();
    assert_eq!(pending, expected);
    // nothing is left
    assert!(s.finish().is_empty());
    assert!(s.ready_states.get(key).is_unused());
    assert_eq!(s.timer.next_number(), 2);
    assert_eq!(s.machines.schedule(0, None), ScheduleStep::Again);
    assert_eq!(s.poll_timeout_ms(NOW), 1000);
    assert_eq!(s.slab.get(1), Some(key));
}

#[test]
fn start_keeps_the_configuration() {
    let mut s = Scheduler::new().with_workers(3).default_stack_size(8192);
    s.start().unwrap();
    assert_eq!(s.default_spawn_options.stack_size, 8192);
    assert_eq!(s.expected_worker_count, 3);
    assert_eq!(s.maximum_stack_memory_limit, MAX_STACK_MEMORY);
    assert_eq!(s.slab.next_token(), Some(1));
    assert!(s.is_running);
}

#[test]
fn start_depends_on_the_main_coroutine() {
    let mut s = Scheduler::new().with_workers(2);
    let refused = StackUnavailable { size: DEFAULT_STACK };
    assert_eq!(s.start_with(Err(refused)), Err(refused));
    assert!(!s.is_running);
    assert_eq!((s.spawned, s.work_count(), s.machines.processors.len()), (0, 0, 0));
    assert_eq!(s.start_with(Ok(handle(0))), Ok(0));
    assert!(s.is_running);
    assert_eq!((s.spawned, s.work_count(), s.machines.processors.len()), (1, 1, 2));
    assert_eq!(ids(&s.machines.global_queue), vec![0]);
    assert_eq!(s.slab.next_token(), Some(1));
    s.machines.spawn_made(1, handle(8));
    assert_eq!(s.machines.schedule(1, None), ScheduleStep::Run);
    assert_eq!(s.machines.processors[1].current_coroutine().unwrap().id(), 8);
}
