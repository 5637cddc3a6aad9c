use coio::coroutine::{Coroutine, Handle, State};
use coio::options::Options;
use coio::runtime::machines::{Machines, ScheduleStep};
use coio::runtime::processor::{ProcMessage, Processor};
use coio::runtime::run_queue::QUEUE_SIZE;

fn handle(id: usize) -> Handle {
    let mut opts = Options::new();
    opts.stack_size(4096);
    Coroutine::spawn_opts(id, opts).unwrap()
}

fn machines(count: usize) -> Machines {
    let mut machines = Machines::new();
    machines.spawn(count, 1 << 20);
    machines
}

fn ids(p: &mut Processor) -> Vec<usize> {
    let mut ids = Vec::new();
    while let Some(hdl) = p.queue.pop_front() {
        ids.push(hdl.id());
    }
    ids
}

#[test]
fn processors_start_idle() {
    let mut m = machines(3);
    assert_eq!(m.processors.len(), 3);
    for i in 0..3 {
        assert_eq!(m.processors[i].id(), i);
        assert!(m.processors[i].current_coroutine().is_none());
        assert_eq!(m.processors[i].queue.len(), 0);
    }
}

#[test]
fn idle_processor_parks_and_counts() {
    let mut m = machines(2);
    assert_eq!(m.schedule(0, None), ScheduleStep::Park);
    assert_eq!(m.idle_processor_count, 1);
    assert_eq!(m.unpark_processor_maybe(4), 1);
    assert_eq!(m.unpark_processor_maybe(0), 0);
    m.inc_spinning();
    assert_eq!(m.unpark_processor_maybe(4), 0);
    m.dec_spinning();
    m.unparked();
    assert_eq!(m.idle_processor_count, 0);
    m.stop();
    assert_eq!(m.schedule(0, None), ScheduleStep::Again);
    assert_eq!(m.schedule(0, Some(ProcMessage::Shutdown)), ScheduleStep::Leave);
    assert_eq!(m.idle_processor_count, 0);
}

#[test]
fn processor_runs_its_queue_first() {
    let mut m = machines(1);
    m.ready(0, handle(1));
    m.ready(0, handle(2));
    m.push_global_queue(handle(3));
    for expected in 1..4 {
        assert_eq!(m.schedule(0, None), ScheduleStep::Run);
        let coro = m.processors[0].current_coroutine().unwrap();
        assert_eq!(coro.id(), expected);
        assert_eq!(coro.state(), State::Running);
        coro.yield_with(State::Finished);
        assert_eq!(m.yielded(0), 0);
    }
    assert_eq!(m.processors[0].stack_pool.total_size(), 3 * 4096);
    assert_eq!(m.schedule(0, None), ScheduleStep::Park);
}

#[test]
fn thief_steals_from_the_only_busy_processor() {
    let mut m = machines(3);
    for i in 0..6 {
        m.ready(1, handle(i));
    }
    assert_eq!(m.schedule(0, None), ScheduleStep::Run);
    assert_eq!(m.processors[0].current_coroutine().unwrap().id(), 2);
    assert_eq!(ids(&mut m.processors[0]), vec![0, 1]);
    assert_eq!(ids(&mut m.processors[1]), vec![3, 4, 5]);
}

#[test]
fn steal_round_goes_by_the_order() {
    let mut m = machines(3);
    m.ready(1, handle(1));
    m.ready(2, handle(2));
    // the order from 2 on begins with processor 2
    assert_eq!(m.steal_round(0, 2).map(|h| h.id()), Some(2));
    assert_eq!(m.steal_round(0, 2).map(|h| h.id()), Some(1));
    assert!(m.steal_round(0, 2).is_none());
}

#[test]
fn global_queue_is_shared_out() {
    let mut m = machines(4);
    m.push_global_queue_iter((0..20).map(handle).collect());
    assert_eq!(m.global_queue_size, 20);
    // a fourth of the queue and one more, besides the one to run
    assert_eq!(m.global_queue_get_batch(0).map(|h| h.id()), Some(0));
    assert_eq!(ids(&mut m.processors[0]), vec![1, 2, 3, 4, 5, 6]);
    assert_eq!(m.global_queue_size, 13);
    let mut m = machines(1);
    m.push_global_queue_iter((0..600).map(handle).collect());
    assert_eq!(m.fetch_foreign_coroutines(0).map(|h| h.id()), Some(0));
    assert_eq!(m.processors[0].queue.len(), QUEUE_SIZE / 2);
    assert_eq!(m.global_queue_size, 600 - 1 - QUEUE_SIZE / 2);
}

#[test]
fn overflow_moves_on_to_the_global_queue() {
    let mut m = machines(2);
    m.idle_processor_count = 5;
    for i in 0..QUEUE_SIZE {
        assert_eq!(m.ready(0, handle(i)), 0);
    }
    // 129 coroutines in the global queue are worth two processors
    assert_eq!(m.ready(0, handle(1000)), 2);
    assert_eq!(m.global_queue_size, QUEUE_SIZE / 2 + 1);
    assert_eq!(m.processors[0].queue.len(), QUEUE_SIZE / 2);
    assert_eq!(m.unpark_processors_with_queue_size(0), 1);
    assert_eq!(m.unpark_processors_with_queue_size(640), 5);
}

#[test]
fn suspended_coroutine_lets_others_go_first() {
    let mut m = machines(2);
    m.ready(0, handle(1));
    assert_eq!(m.schedule(0, None), ScheduleStep::Run);
    m.ready(1, handle(2));
    m.processors[0].sched();
    m.yielded(0);
    assert_eq!(m.schedule(0, None), ScheduleStep::Run);
    assert_eq!(m.processors[0].current_coroutine().unwrap().id(), 2);
    m.processors[0].sched();
    m.yielded(0);
    assert_eq!(m.schedule(0, None), ScheduleStep::Run);
    assert_eq!(m.processors[0].current_coroutine().unwrap().id(), 1);
}

#[test]
fn spawned_coroutine_wakes_up_a_processor() {
    let mut m = machines(2);
    m.idle_processor_count = 1;
    assert_eq!(m.spawn_opts(0, 7, Options::new()).unwrap(), 1);
    m.idle_processor_count = 0;
    assert_eq!(m.spawn_opts(0, 8, Options::new()).unwrap(), 0);
    assert_eq!(ids(&mut m.processors[0]), vec![7, 8]);
    let mut opts = Options::new();
    opts.stack_size(1 << 62);
    assert_eq!(m.spawn_opts(0, 9, opts).unwrap_err().size, 1 << 62);
}

#[test]
fn shutdown_takes_everything_off() {
    let mut m = machines(1);
    for i in 0..3 {
        m.ready(0, handle(i));
    }
    m.processors[0].run_next = Some(handle(9));
    let pending: Vec<usize> = m.shutdown(0).iter().map(|h| h.id()).collect();
    assert_eq!(pending, vec![9, 2, 1, 0]);
    assert!(m.shutdown(0).is_empty());
}

#[test]
fn parked_coroutine_leaves_the_processor() {
    let mut m = machines(1);
    m.ready(0, handle(4));
    assert_eq!(m.schedule(0, None), ScheduleStep::Run);
    let coro = m.processors[0].park();
    assert_eq!(coro.id(), 4);
    assert_eq!(coro.state(), State::Parked);
    assert_eq!(m.yielded(0), 0);
    assert_eq!(m.schedule(0, None), ScheduleStep::Park);
}
