use coio::runtime::timer::{LocalTime, Timeout, Timer};

fn at(secs: i64, nanos: u32) -> LocalTime {
    LocalTime { secs, nanos }
}

#[test]
fn local_times_are_ordered() {
    assert!(at(1, 5).not_after(&at(1, 5)));
    assert!(at(1, 5).not_after(&at(2, 0)));
    assert!(!at(2, 0).not_after(&at(1, 999_999_999)));
    assert_eq!(at(10, 0).plus_ms(1500), at(11, 500_000_000));
    assert_eq!(at(10, 600_000_000).plus_ms(400), at(11, 0));
    assert_eq!(at(10, 0).ms_until(&at(11, 1)), 1001);
    assert_eq!(at(10, 0).ms_until(&at(10, 0)), 0);
    assert_eq!(at(10, 0).ms_until(&at(9, 0)), 0);
    assert_eq!(at(i64::MIN, 0).ms_until(&at(i64::MAX, 0)), u64::MAX);
}

#[test]
fn sleepers_wake_up_in_time_and_in_order() {
    let mut timer: Timer<&str> = Timer::new();
    let now = at(100, 0);
    timer.timeout_ms_from(now, "late", 500);
    timer.timeout_ms_from(now, "early", 100);
    timer.timeout_ms_from(now, "early too", 100);
    assert_eq!(timer.next_tick_in_ms(now), Some(100));
    assert_eq!(timer.awake_at(now), None);
    let then = now.plus_ms(100);
    assert_eq!(timer.awake_at(then), Some("early"));
    assert_eq!(timer.awake_at(then), Some("early too"));
    assert_eq!(timer.awake_at(then), None);
    assert_eq!(timer.next_tick_in_ms(then), Some(400));
    assert_eq!(timer.awake_at(now.plus_ms(600)), Some("late"));
    assert_eq!(timer.next_tick_in_ms(then), None);
}

#[test]
fn timeout_can_be_taken_out() {
    let mut timer: Timer<usize> = Timer::new();
    let now = at(0, 0);
    let first = timer.timeout_ms_from(now, 1, 10);
    let second = timer.timeout_ms_from(now, 2, 20);
    assert_eq!(first, Timeout { number: 0 });
    assert!(timer.clear(&first));
    assert!(!timer.clear(&first));
    assert_eq!(timer.awake_at(now.plus_ms(30)), Some(2));
    assert!(!timer.clear(&second));
}

#[test]
fn clock_is_asked_for_the_time() {
    let mut timer: Timer<usize> = Timer::new();
    timer.timeout_ms(1, 0);
    timer.timeout_ms(2, 3_600_000);
    assert_eq!(timer.try_awake(), Some(1));
    assert_eq!(timer.try_awake(), None);
    // the clock does not stand at the beginning of time
    assert!(timer.next_tick_in_ms(at(0, 0)).unwrap() > 3_600_000);
}
