use coio::coroutine::{Coroutine, Handle, HandleList};
use coio::options::Options;
use coio::runtime::run_queue::{steal_plan, RunQueue, StealPlan, QUEUE_SIZE};

fn handle(id: usize) -> Handle {
    let mut opts = Options::new();
    opts.stack_size(4096);
    Coroutine::spawn_opts(id, opts).unwrap()
}

fn drain(queue: &mut RunQueue) -> Vec<usize> {
    let mut ids = Vec::new();
    while let Some(hdl) = queue.pop_front() {
        ids.push(hdl.id());
    }
    ids
}

#[test]
fn queue_is_first_in_first_out_around_the_end() {
    let mut queue = RunQueue::new();
    assert!(queue.is_empty());
    for round in 0..5 {
        for i in 0..200 {
            assert!(queue.push_back(handle(round * 1000 + i)).is_none());
        }
        assert_eq!(queue.len(), 200);
        let expected: Vec<usize> = (0..200).map(|i| round * 1000 + i).collect();
        assert_eq!(drain(&mut queue), expected);
    }
}

#[test]
fn full_queue_gives_half_of_it_away() {
    let mut queue = RunQueue::new();
    for i in 0..QUEUE_SIZE {
        assert!(queue.push_back(handle(i)).is_none());
    }
    let batch = queue.push_back(handle(999)).unwrap();
    let given: Vec<usize> = batch.iter().map(|h| h.id()).collect();
    let mut expected: Vec<usize> = (0..QUEUE_SIZE / 2).collect();
    expected.push(999);
    assert_eq!(given, expected);
    assert_eq!(drain(&mut queue), (QUEUE_SIZE / 2..QUEUE_SIZE).collect::<Vec<usize>>());
}

#[test]
fn thief_takes_half_and_runs_the_last_one() {
    let mut victim = RunQueue::new();
    let mut thief = RunQueue::new();
    for i in 0..5 {
        victim.push_back(handle(i));
    }
    let batch = victim.grab();
    assert_eq!(batch.len(), 3);
    assert_eq!(thief.absorb(batch).map(|h| h.id()), Some(2));
    assert_eq!(drain(&mut thief), vec![0, 1]);
    assert_eq!(drain(&mut victim), vec![3, 4]);
    assert!(victim.grab().is_empty());
    assert!(thief.absorb(Vec::new()).is_none());
}

#[test]
fn steal_plan_values() {
    assert_eq!(steal_plan(7, 7), StealPlan::Nothing);
    assert_eq!(steal_plan(7, 8), StealPlan::Take(1));
    assert_eq!(steal_plan(7, 9), StealPlan::Take(1));
    assert_eq!(steal_plan(usize::MAX, 2), StealPlan::Take(2));
    assert_eq!(steal_plan(0, QUEUE_SIZE), StealPlan::Take(QUEUE_SIZE / 2));
    assert_eq!(steal_plan(0, QUEUE_SIZE + 1), StealPlan::ReadAgain);
    assert_eq!(steal_plan(1, 0), StealPlan::Nothing);
}

#[test]
fn queue_extends_and_pops_from_both_ends() {
    let mut queue = RunQueue::new();
    let mut list = HandleList::new();
    list.extend(vec![handle(1), handle(2), handle(3)]);
    queue.extend(list);
    assert_eq!(queue.pop_back().map(|h| h.id()), Some(3));
    assert_eq!(queue.pop_front().map(|h| h.id()), Some(1));
    assert_eq!(queue.len(), 1);
    assert_eq!(queue.pop_back().map(|h| h.id()), Some(2));
    assert!(queue.pop_back().is_none());
}
