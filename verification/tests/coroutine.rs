use std::mem;

use coio::coroutine::{Coroutine, Handle, HandleList, State};
use coio::options::{Options, DEFAULT_STACK};
use coio::runtime::stack_pool::StackPool;

fn handle(id: usize) -> Handle {
    let mut opts = Options::new();
    opts.stack_size(16 * 1024);
    Coroutine::spawn_opts(id, opts).unwrap()
}

fn ids(list: &HandleList) -> Vec<usize> {
    let mut iter = list.iter();
    let mut ids = Vec::new();
    while let Some(hdl) = iter.next() {
        ids.push(hdl.id());
    }
    ids
}

#[test]
fn coroutine_size() {
    let size = 2 * mem::size_of::<usize>();
    assert_eq!(mem::size_of::<Handle>(), size);
    assert_eq!(mem::size_of::<Option<Handle>>(), size);
}

#[test]
fn options_are_kept() {
    let mut opts = Options::new();
    assert_eq!(opts.stack_size, DEFAULT_STACK);
    assert_eq!(opts.stack_size, 128 * 1024);
    assert!(opts.name.is_none());
    opts.stack_size(32 * 1024).name("worker".to_string());
    let opts = opts.clone();
    let hdl = Coroutine::spawn_opts(7, opts).unwrap();
    assert_eq!(hdl.id(), 7);
    assert_eq!(hdl.coro().name(), Some("worker"));
    assert_eq!(hdl.state(), State::Suspended);
    assert!(!hdl.is_finished());
    assert_eq!(Options::default().stack_size, DEFAULT_STACK);
}

#[test]
fn handle_changes_its_state() {
    let mut hdl = handle(1);
    hdl.resume();
    assert_eq!(hdl.state(), State::Running);
    hdl.yield_with(State::Parked);
    assert_eq!(hdl.state(), State::Parked);
    assert!(hdl.needs_unwind());
    hdl.yield_with(State::Finished);
    assert!(hdl.is_finished());
    assert!(!hdl.needs_unwind());
    let mut pool = StackPool::new(None, None);
    hdl.exit(Some(&mut pool));
    assert_eq!(pool.total_size(), 16 * 1024);
}

#[test]
fn spawning_takes_a_stack_from_the_pool() {
    let mut pool = StackPool::new(None, None);
    let mut opts = Options::new();
    opts.stack_size(16 * 1024);
    let mut hdl = Coroutine::spawn_opts_with_pool(1, opts.clone(), &mut pool).unwrap();
    hdl.yield_with(State::Finished);
    hdl.exit(Some(&mut pool));
    assert_eq!(pool.total_size(), 16 * 1024);
    let _again = Coroutine::spawn_opts_with_pool(2, opts, &mut pool).unwrap();
    assert_eq!(pool.total_size(), 0);
}

#[test]
fn handle_list_is_a_queue() {
    let mut list = HandleList::new();
    assert!(list.is_empty());
    for id in 0..4 {
        list.push_back(handle(id));
    }
    list.push_front(handle(9));
    assert_eq!(ids(&list), vec![9, 0, 1, 2, 3]);
    assert_eq!(list.len(), 5);
    assert_eq!(list.pop_front().map(|h| h.id()), Some(9));
    assert_eq!(list.pop_back().map(|h| h.id()), Some(3));
    assert_eq!(ids(&list), vec![0, 1, 2]);
}

#[test]
fn handle_list_splits_and_appends() {
    let mut list = HandleList::new();
    list.extend(vec![handle(0), handle(1), handle(2), handle(3)]);
    let mut front = list.split_off_front(3);
    assert_eq!(ids(&front), vec![0, 1, 2]);
    assert_eq!(ids(&list), vec![3]);
    front.append(&mut list);
    assert_eq!(ids(&front), vec![0, 1, 2, 3]);
    assert!(list.is_empty());
    let all = front.split_off_front(10);
    assert_eq!(all.len(), 4);
    assert!(front.is_empty());
    let mut iter = all.into_iter();
    assert_eq!(iter.count(), 4);
    assert_eq!(iter.next().map(|h| h.id()), Some(0));
    assert_eq!(iter.count(), 3);
}
