use coio::coroutine::{Coroutine, Handle, HandleList, State};
use coio::options::Options;
use coio::runtime::notifier::{Notifier, WaiterState as NotifierState};
use coio::runtime::processor::Processor;
use coio::runtime::timer::{LocalTime, Timeout, Timer};
use coio::scheduler::ready::ReadyType;
use coio::scheduler::TimerWaitType;
use coio::slots::Slots;
use coio::sync::condvar::{Condvar, Waiter, WaiterState};

const NOW: LocalTime = LocalTime { secs: 50, nanos: 0 };

fn handle(id: usize) -> Handle {
    let mut opts = Options::new();
    opts.stack_size(4096);
    Coroutine::spawn_opts(id, opts).unwrap()
}

/// A processor that runs a coroutine with this number.
fn running(id: usize) -> Processor {
    let mut p = Processor::new(0, 1 << 20);
    p.resume(handle(id));
    p
}

fn ids(list: HandleList) -> Vec<usize> {
    let mut iter = list.into_iter();
    let mut ids = Vec::new();
    while let Some(hdl) = iter.next() {
        assert_eq!(hdl.state(), State::Parked);
        ids.push(hdl.id());
    }
    ids
}

fn timed_wait(c: &mut Condvar, timer: &mut Timer<TimerWaitType>, id: usize) -> usize {
    c.wait_timeout_from(ReadyType::Readable, NOW, 10, 3, timer, &mut running(id)).unwrap()
}

#[test]
fn first_notification_of_a_waiter_counts() {
    let mut w = Waiter::new();
    assert!(w.try_wait(handle(1)).is_none());
    assert_eq!(w.notify(WaiterState::Timeout).map(|h| h.id()), Some(1));
    assert!(w.notify(WaiterState::Succeeded).is_none());
    assert_eq!(w.state(), WaiterState::Timeout);
    assert_eq!(w.try_wait(handle(2)).map(|h| h.id()), Some(2));
    w.set_timeout(Timeout { number: 4 });
    assert_eq!(w.take_timeout(), Some(Timeout { number: 4 }));
    assert_eq!(w.take_timeout(), None);
}

#[test]
fn longest_waiting_is_notified_first() {
    let mut c = Condvar::new();
    let mut waiters = Vec::new();
    for id in 1..4 {
        let mut p = running(id);
        waiters.push(c.wait(&mut p).unwrap());
        assert!(p.current_coroutine().is_none());
    }
    let mut list = HandleList::new();
    c.notify_one(&mut list);
    c.notify_one(&mut list);
    assert_eq!(ids(list), vec![1, 2]);
    c.end_wait(waiters[0]);
    c.end_wait(waiters[1]);
    let mut list = HandleList::new();
    c.notify_all(&mut list);
    assert_eq!(ids(list), vec![3]);
    c.end_wait(waiters[2]);
}

#[test]
fn notification_ahead_of_a_wait_lets_it_pass() {
    let mut c = Condvar::new();
    let mut list = HandleList::new();
    c.notify_one(&mut list);
    assert!(list.is_empty());
    let mut p = running(1);
    assert!(c.wait(&mut p).is_none());
    assert!(p.current_coroutine().is_some());
    assert!(c.wait(&mut p).is_some());
}

#[test]
fn notify_all_counts_everyone() {
    let mut c = Condvar::new();
    for id in 0..3 {
        c.wait(&mut running(id)).unwrap();
    }
    let mut list = HandleList::new();
    c.notify_all(&mut list);
    assert_eq!(ids(list), vec![0, 1, 2]);
    assert_eq!(c.notified, 3);
    let mut list = HandleList::new();
    c.notify_all(&mut list);
    assert_eq!(c.notified, 4);
    assert!(list.is_empty());
}

#[test]
fn late_notification_sends_a_parked_coroutine_back() {
    let mut c = Condvar::new();
    let token = c.begin_wait().unwrap();
    assert!(!c.check_token(token));
    c.notify_one(&mut HandleList::new());
    assert!(c.check_token(token));
    assert_eq!(c.park(token, handle(5)).err().map(|h| h.id()), Some(5));
}

#[test]
fn time_of_a_wait_runs_out() {
    let mut c = Condvar::new();
    let mut timer = Timer::new();
    let first = timed_wait(&mut c, &mut timer, 1);
    let second = timed_wait(&mut c, &mut timer, 2);
    match timer.awake_at(NOW.plus_ms(10)) {
        Some(TimerWaitType::Waiter { states, ready_type, waiter }) => {
            assert_eq!((states, ready_type, waiter), (3, ReadyType::Readable, first));
        }
        _ => panic!("the waiter sleeps"),
    }
    assert_eq!(c.expire(first).map(|h| h.id()), Some(1));
    let (result, timeout) = c.end_wait_timeout(first);
    assert!(result.err().unwrap().timed_out());
    assert!(timeout.is_none());
    // the other one still waits
    let mut list = HandleList::new();
    c.notify_one(&mut list);
    assert_eq!(ids(list), vec![2]);
    let (result, timeout) = c.end_wait_timeout(second);
    assert!(result.is_ok());
    assert_eq!(timeout, Some(Timeout { number: 1 }));
}

#[test]
fn end_of_a_notified_wait_leaves_the_others() {
    let mut c = Condvar::new();
    let mut timer = Timer::new();
    let first = timed_wait(&mut c, &mut timer, 1);
    let second = timed_wait(&mut c, &mut timer, 2);
    let third = timed_wait(&mut c, &mut timer, 3);
    c.notify_one(&mut HandleList::new());
    assert!(c.end_wait_timeout(first).0.is_ok());
    let mut list = HandleList::new();
    c.notify_one(&mut list);
    assert_eq!(ids(list), vec![2]);
    assert!(c.end_wait_timeout(second).0.is_ok());
    assert_eq!(c.expire(third).map(|h| h.id()), Some(3));
    assert!(c.end_wait_timeout(third).0.is_err());
    let mut list = HandleList::new();
    c.notify_all(&mut list);
    assert!(list.is_empty());
}

#[test]
fn notifying_all_is_notifying_one_after_the_other() {
    for n in 0..4 {
        let mut a = Condvar::new();
        let mut b = Condvar::new();
        for i in 0..n {
            a.wait(&mut running(i)).unwrap();
            b.wait(&mut running(i)).unwrap();
        }
        let mut all = HandleList::new();
        let mut one_by_one = HandleList::new();
        a.notify_all(&mut all);
        for _ in 0..std::cmp::max(n, 1) {
            b.notify_one(&mut one_by_one);
        }
        assert_eq!((a.token, a.notified), (b.token, b.notified));
        assert_eq!((a.list.head, a.list.tail), (b.list.head, b.list.tail));
        let woken = ids(all);
        assert_eq!(woken, (0..n).collect::<Vec<usize>>());
        assert_eq!(woken, ids(one_by_one));
    }
}

#[test]
fn clock_is_asked_when_a_wait_begins() {
    let mut c = Condvar::new();
    let mut timer = Timer::new();
    let id = c.wait_timeout(ReadyType::Writable, 1000, 0, &mut timer, &mut running(1)).unwrap();
    assert!(timer.next_tick_in_ms(LocalTime { secs: 0, nanos: 0 }).unwrap() > 1000);
    c.expire(id);
    assert!(c.end_wait_timeout(id).0.is_err());
}

#[test]
fn closing_hands_out_the_timeouts() {
    let mut c = Condvar::new();
    let mut timer = Timer::new();
    timed_wait(&mut c, &mut timer, 1);
    c.wait(&mut running(2)).unwrap();
    timed_wait(&mut c, &mut timer, 3);
    assert_eq!(c.close(), vec![Timeout { number: 0 }, Timeout { number: 1 }]);
    assert!(c.close().is_empty());
}

#[test]
fn slots_are_used_again() {
    let mut slots: Slots<&str> = Slots::new();
    assert!(slots.is_empty());
    assert_eq!(slots.insert("a"), 0);
    assert!(!slots.is_empty());
    assert_eq!(slots.insert("b"), 1);
    assert_eq!(slots.remove(0), Some("a"));
    assert_eq!(slots.remove(0), None);
    assert_eq!(slots.remove(7), None);
    assert!(!slots.contains(0));
    assert_eq!(slots.insert("c"), 0);
    assert_eq!(slots.insert("d"), 2);
    *slots.get_mut(1) = "e";
    assert_eq!(*slots.get(1), "e");
    assert_eq!(slots.end(), 3);
}

#[test]
fn notifier_wakes_up_the_last_one_first() {
    let mut n = Notifier::new();
    assert_eq!(NotifierState::default(), NotifierState::Empty);
    let first = n.wait(&mut running(1)).unwrap();
    let second = n.wait(&mut running(2)).unwrap();
    let third = n.wait(&mut running(3)).unwrap();
    assert_eq!(n.notify_one(NotifierState::Succeeded).map(|h| h.id()), Some(3));
    assert_eq!(n.end_wait(third), NotifierState::Succeeded);
    let mut list = HandleList::new();
    n.notify_all(NotifierState::Error, &mut list);
    assert_eq!(ids(list), vec![2, 1]);
    assert_eq!(n.end_wait(first), NotifierState::Error);
    assert_eq!(n.end_wait(second), NotifierState::Error);
    // one for the first notification, one for each of the two, and one more
    assert_eq!(n.notified, 4);
    assert!(n.wait(&mut running(4)).is_none());
    assert!(n.notify_one(NotifierState::Succeeded).is_none());
}

#[test]
fn notifier_waits_no_longer_than_told() {
    let mut n = Notifier::new();
    let mut timer = Timer::new();
    let first = n.wait_timeout(NOW, 10, &mut timer, &mut running(1));
    let second = n.wait_timeout(NOW, 20, &mut timer, &mut running(2));
    assert_eq!(timer.awake_at(NOW.plus_ms(10)), Some(first));
    let hdl = n.waiters.get_mut(first).notify(NotifierState::Timedout);
    assert_eq!(hdl.map(|h| h.id()), Some(1));
    assert_eq!(n.end_wait_timeout(first, &mut timer), NotifierState::Timedout);
    assert_eq!(n.notify_one(NotifierState::Succeeded).map(|h| h.id()), Some(2));
    assert_eq!(n.end_wait_timeout(second, &mut timer), NotifierState::Succeeded);
    assert_eq!(timer.next_tick_in_ms(NOW), None);
}
