//! The timer: what sleeps until which time.

use std::collections::VecDeque;

use chrono::Local;
use vstd::prelude::*;

verus! {

/// The greatest number of seconds that a clock shows, counted from 1970 on in either direction.
pub const CLOCK_RANGE: i64 = 10_000_000_000_000;

/// A date and time of day at this place: the seconds since 1970 and the nanoseconds since the
/// last full second, which are over a thousand million during a leap second.
#[derive(Debug, Clone, Copy, PartialEq, Eq, Structural)]
pub struct LocalTime {
    pub secs: i64,
    pub nanos: u32,
}

impl LocalTime {
    /// The time is not after the other one.
    pub open spec fn spec_not_after(self, other: LocalTime) -> bool {
        self.secs < other.secs || (self.secs == other.secs && self.nanos <= other.nanos)
    }

    /// The nanoseconds since 1970.
    pub open spec fn instant(self) -> int {
        self.secs * 1_000_000_000 + self.nanos
    }

    /// A clock can show this time.
    pub open spec fn on_clock(self) -> bool {
        -CLOCK_RANGE <= self.secs <= CLOCK_RANGE && self.nanos < 2_000_000_000
    }

    /// What the clock shows.
    pub fn now() -> (now: LocalTime)
        ensures
            now.on_clock(),
    {
        local_now()
    }

    /// Whether the time is not after the other one.
    pub fn not_after(&self, other: &LocalTime) -> (b: bool)
        ensures
            b == self.spec_not_after(*other),
    {
        self.secs < other.secs || (self.secs == other.secs && self.nanos <= other.nanos)
    }

    /// The time that is so many milliseconds later.
    pub fn plus_ms(&self, ms: u64) -> (later: LocalTime)
        requires
            self.on_clock(),
        ensures
            later.instant() == self.instant() + ms * 1_000_000,
            later.nanos < 1_000_000_000,
            self.nanos < 1_000_000_000 ==> self.spec_not_after(later),
    {
        let nanos: u64 = self.nanos as u64 + (ms % 1000) * 1_000_000;
        LocalTime {
            secs: self.secs + (ms / 1000) as i64 + (nanos / 1_000_000_000) as i64,
            nanos: (nanos % 1_000_000_000) as u32,
        }
    }

    /// The milliseconds from this time until the other one, rounded up, as far as they can be
    /// counted; none if that is not later.
    pub fn ms_until(&self, other: &LocalTime) -> (ms: u64)
        ensures
            ms == spec_ms_until(*self, *other),
    {
        if other.not_after(self) {
            return 0;
        }
        let from: i128 = self.secs as i128 * 1_000_000_000 + self.nanos as i128;
        let to: i128 = other.secs as i128 * 1_000_000_000 + other.nanos as i128;
        if to <= from {
            return 0;
        }
        let ms: i128 = (to - from + 999_999) / 1_000_000;
        if ms > u64::MAX as i128 {
            u64::MAX
        } else {
            ms as u64
        }
    }
}

/// A length of time: seconds and nanoseconds.
#[derive(Debug, Clone, Copy, PartialEq, Eq, Structural)]
pub struct Span {
    pub secs: u64,
    pub nanos: u32,
}

impl Span {
    /// The full milliseconds, as far as they can be counted.
    pub open spec fn spec_as_ms(self) -> int {
        let ms = self.secs * 1000 + self.nanos as int / 1_000_000;
        if ms > u64::MAX {
            u64::MAX as int
        } else {
            ms
        }
    }

    /// The full milliseconds, as far as they can be counted.
    pub fn as_ms(&self) -> (ms: u64)
        ensures
            ms == self.spec_as_ms(),
    {
        let ms: u128 = self.secs as u128 * 1000 + self.nanos as u128 / 1_000_000;
        if ms > u64::MAX as u128 {
            u64::MAX
        } else {
            ms as u64
        }
    }
}

/// The milliseconds from one time until another one, rounded up, as far as they can be counted;
/// none if that is not later.
pub open spec fn spec_ms_until(from: LocalTime, to: LocalTime) -> int {
    if to.spec_not_after(from) || to.instant() <= from.instant() {
        0
    } else {
        let ms = (to.instant() - from.instant() + 999_999) / 1_000_000;
        if ms > u64::MAX {
            u64::MAX as int
        } else {
            ms
        }
    }
}

/// `chrono::Local::now` as a naive local time: what the clock on the wall shows. Nothing is said
/// of it but that it is within the dates that `NaiveDateTime` has.
#[verifier::external_body]
pub(crate) fn local_now() -> (now: LocalTime)
    ensures
        now.on_clock(),
{
    let now = Local::now().naive_local().and_utc();
    LocalTime { secs: now.timestamp(), nanos: now.timestamp_subsec_nanos() }
}

/// Names something that sleeps, so that it can be taken out of the timer again.
#[derive(Debug, Clone, Copy, PartialEq, Eq, Structural)]
pub struct Timeout {
    pub number: u64,
}

/// Something that sleeps until a certain time.
pub struct SleepingTask<T> {
    pub value: T,
    pub expected_wakeup_time: LocalTime,
    pub timeout: Timeout,
}

/// What sleeps, in the order in which it wakes up.
pub struct Timer<T> {
    sleeping_tasks: VecDeque<SleepingTask<T>>,
    next_number: u64,
}

impl<T> View for Timer<T> {
    type V = Seq<SleepingTask<T>>;

    /// What sleeps, in the order in which it wakes up.
    closed spec fn view(&self) -> Seq<SleepingTask<T>> {
        self.sleeping_tasks@
    }
}

impl<T> Timer<T> {
    /// The number that the next sleeper gets.
    pub closed spec fn spec_next_number(&self) -> u64 {
        self.next_number
    }

    /// The sleepers are in the order of their wake-up times and have different numbers, all of
    /// them given away before.
    pub open spec fn wf(&self) -> bool {
        &&& forall|i: int, j: int|
            0 <= i < j < self@.len() ==> (#[trigger] self@[i]).expected_wakeup_time.spec_not_after(
                (#[trigger] self@[j]).expected_wakeup_time,
            )
        &&& forall|i: int, j: int|
            0 <= i < j < self@.len() ==> (#[trigger] self@[i]).timeout != (
            #[trigger] self@[j]).timeout
        &&& forall|i: int|
            0 <= i < self@.len() ==> (#[trigger] self@[i]).timeout.number < self.spec_next_number()
    }

    /// The timeout is of something that sleeps.
    pub open spec fn pending(&self, timeout: Timeout) -> bool {
        exists|i: int| 0 <= i < self@.len() && (#[trigger] self@[i]).timeout == timeout
    }

    /// The sleepers with one more, which comes behind those that wake up no later.
    pub open spec fn added(
        before: Seq<SleepingTask<T>>,
        after: Seq<SleepingTask<T>>,
        task: SleepingTask<T>,
    ) -> bool {
        exists|i: int|
            0 <= i <= before.len() && after == #[trigger] before.insert(i, task) && (forall|k: int|
                0 <= k < i ==> (#[trigger] before[k]).expected_wakeup_time.spec_not_after(
                    task.expected_wakeup_time,
                )) && (forall|k: int|
                i <= k < before.len() ==> !(#[trigger] before[k]).expected_wakeup_time.spec_not_after(
                    task.expected_wakeup_time,
                ))
    }

    /// The sleepers with one more, which sleeps until `delay` milliseconds after `now`.
    pub open spec fn put_to_sleep(
        before: Seq<SleepingTask<T>>,
        after: Seq<SleepingTask<T>>,
        now: LocalTime,
        delay: u64,
        value: T,
        timeout: Timeout,
    ) -> bool {
        exists|wakeup: LocalTime|
            wakeup.instant() == now.instant() + delay * 1_000_000 && wakeup.nanos < 1_000_000_000
                && #[trigger] Self::added(
                before,
                after,
                SleepingTask { value, expected_wakeup_time: wakeup, timeout },
            )
    }

    /// What is to wake up first is due at `now`.
    pub open spec fn due(sleeping: Seq<SleepingTask<T>>, now: LocalTime) -> bool {
        sleeping.len() > 0 && sleeping[0].expected_wakeup_time.spec_not_after(now)
    }

    /// What is to wake up first was woken up if it is due at `now`.
    pub open spec fn woken_at(
        before: Seq<SleepingTask<T>>,
        after: Seq<SleepingTask<T>>,
        now: LocalTime,
        value: Option<T>,
    ) -> bool {
        &&& value is Some <==> Self::due(before, now)
        &&& value is None ==> after == before
        &&& value matches Some(value) ==> value == before[0].value && after == before.drop_first()
    }

    /// What sleeps after `timeout` was taken out.
    pub open spec fn without(before: Seq<SleepingTask<T>>, timeout: Timeout) -> Seq<
        SleepingTask<T>,
    > {
        before.remove(
            choose|i: int| 0 <= i < before.len() && (#[trigger] before[i]).timeout == timeout,
        )
    }

    /// A timer with nothing asleep.
    pub fn new() -> (timer: Timer<T>)
        ensures
            timer.wf(),
            timer@.len() == 0,
            timer.spec_next_number() == 0,
    {
        Timer { sleeping_tasks: VecDeque::new(), next_number: 0 }
    }

    /// Puts something to sleep until the given time.
    pub fn wait_until(&mut self, value: T, wakeup: LocalTime) -> (timeout: Timeout)
        requires
            old(self).wf(),
            old(self).spec_next_number() < u64::MAX,
        ensures
            final(self).wf(),
            final(self).spec_next_number() == old(self).spec_next_number() + 1,
            timeout.number == old(self).spec_next_number(),
            Self::added(
                old(self)@,
                final(self)@,
                SleepingTask { value, expected_wakeup_time: wakeup, timeout },
            ),
    {
        let timeout = Timeout { number: self.next_number };
        let mut lo: usize = 0;
        let mut hi: usize = self.sleeping_tasks.len();
        while lo < hi
            invariant
                self.wf(),
                lo <= hi <= self@.len(),
                forall|k: int|
                    0 <= k < lo ==> (#[trigger] self@[k]).expected_wakeup_time.spec_not_after(wakeup),
                forall|k: int|
                    hi <= k < self@.len() ==> !(
                    #[trigger] self@[k]).expected_wakeup_time.spec_not_after(wakeup),
            decreases hi - lo,
        {
            let mid = lo + (hi - lo) / 2;
            if self.sleeping_tasks[mid].expected_wakeup_time.not_after(&wakeup) {
                lo = mid + 1;
            } else {
                hi = mid;
            }
        }
        let ghost before = self@;
        let task = SleepingTask { value, expected_wakeup_time: wakeup, timeout };
        self.sleeping_tasks.insert(lo, task);
        self.next_number = self.next_number + 1;
        proof {
            assert(self@ == before.insert(lo as int, task));
        }
        timeout
    }

    /// Puts something to sleep for so many milliseconds.
    pub fn timeout_ms(&mut self, value: T, delay: u64) -> (timeout: Timeout)
        requires
            old(self).wf(),
            old(self).spec_next_number() < u64::MAX,
        ensures
            final(self).wf(),
            final(self).spec_next_number() == old(self).spec_next_number() + 1,
            timeout.number == old(self).spec_next_number(),
            exists|now: LocalTime|
                now.on_clock() && #[trigger] Self::put_to_sleep(
                    old(self)@,
                    final(self)@,
                    now,
                    delay,
                    value,
                    timeout,
                ),
    {
        let now = local_now();
        self.timeout_ms_from(now, value, delay)
    }

    /// Puts something to sleep until so many milliseconds after `now`.
    pub fn timeout_ms_from(&mut self, now: LocalTime, value: T, delay: u64) -> (timeout: Timeout)
        requires
            old(self).wf(),
            old(self).spec_next_number() < u64::MAX,
            now.on_clock(),
        ensures
            final(self).wf(),
            final(self).spec_next_number() == old(self).spec_next_number() + 1,
            timeout.number == old(self).spec_next_number(),
            Self::put_to_sleep(old(self)@, final(self)@, now, delay, value, timeout),
    {
        self.wait_until(value, now.plus_ms(delay))
    }

    /// Wakes up what is to wake up first, if it is time by now.
    pub fn try_awake(&mut self) -> (value: Option<T>)
        requires
            old(self).wf(),
        ensures
            final(self).wf(),
            final(self).spec_next_number() == old(self).spec_next_number(),
            exists|now: LocalTime|
                now.on_clock() && (value is Some <==> #[trigger] Self::due(old(self)@, now)),
            value is None ==> final(self)@ == old(self)@,
            value matches Some(value) ==> value == old(self)@[0].value && final(self)@
                == old(self)@.drop_first(),
    {
        let now = local_now();
        self.awake_at(now)
    }

    /// Wakes up what is to wake up first, if it is time at `now`.
    pub fn awake_at(&mut self, now: LocalTime) -> (value: Option<T>)
        requires
            old(self).wf(),
        ensures
            final(self).wf(),
            final(self).spec_next_number() == old(self).spec_next_number(),
            Self::woken_at(old(self)@, final(self)@, now, value),
    {
        if self.sleeping_tasks.len() > 0 && self.sleeping_tasks[0].expected_wakeup_time.not_after(
            &now,
        ) {
            let ghost before = self@;
            let first = self.sleeping_tasks.pop_front();
            proof {
                assert forall|i: int| 0 <= i < self@.len() implies (#[trigger] self@[i])
                    == before[i + 1] by {}
            }
            match first {
                Some(task) => Some(task.value),
                None => None,
            }
        } else {
            None
        }
    }

    /// The number that the next sleeper gets.
    pub fn next_number(&self) -> (number: u64)
        ensures
            number == self.spec_next_number(),
    {
        self.next_number
    }

    /// Takes out what is to wake up first, whether it is time or not.
    pub fn take_first(&mut self) -> (value: Option<T>)
        requires
            old(self).wf(),
        ensures
            final(self).wf(),
            final(self).spec_next_number() == old(self).spec_next_number(),
            value is Some <==> old(self)@.len() > 0,
            value is None ==> final(self)@ == old(self)@,
            value matches Some(value) ==> value == old(self)@[0].value && final(self)@
                == old(self)@.drop_first(),
    {
        let ghost before = self@;
        match self.sleeping_tasks.pop_front() {
            Some(task) => {
                proof {
                    assert forall|i: int| 0 <= i < self@.len() implies (#[trigger] self@[i])
                        == before[i + 1] by {}
                }
                Some(task.value)
            },
            None => None,
        }
    }

    /// The milliseconds from `now` until there is something to wake up, if anything sleeps.
    pub fn next_tick_in_ms(&self, now: LocalTime) -> (ms: Option<u64>)
        ensures
            ms is None <==> self@.len() == 0,
            ms matches Some(ms) ==> ms == spec_ms_until(now, self@[0].expected_wakeup_time),
    {
        if self.sleeping_tasks.len() > 0 {
            Some(now.ms_until(&self.sleeping_tasks[0].expected_wakeup_time))
        } else {
            None
        }
    }

    /// Takes something out without waking it up; tells whether it was still asleep.
    pub fn clear(&mut self, timeout: &Timeout) -> (found: bool)
        requires
            old(self).wf(),
        ensures
            final(self).wf(),
            final(self).spec_next_number() == old(self).spec_next_number(),
            found == old(self).pending(*timeout),
            found ==> final(self)@ == Self::without(old(self)@, *timeout),
            !found ==> final(self)@ == old(self)@,
    {
        let len = self.sleeping_tasks.len();
        let mut i: usize = 0;
        while i < len
            invariant
                *self == *old(self),
                self.wf(),
                i <= len == self@.len(),
                forall|k: int| 0 <= k < i ==> (#[trigger] self@[k]).timeout != *timeout,
            decreases len - i,
        {
            if self.sleeping_tasks[i].timeout == *timeout {
                let ghost before = self@;
                proof {
                    assert(before[i as int].timeout == *timeout);
                }
                let _ = self.sleeping_tasks.remove(i);
                proof {
                    assert(self@ == before.remove(i as int));
                }
                return true;
            }
            i = i + 1;
        }
        false
    }

    /// Everything that stays asleep when nothing more is awoken at `now` has to sleep beyond `now`.
    pub proof fn nothing_due_is_left_asleep(&self, now: LocalTime)
        requires
            self.wf(),
            !Self::due(self@, now),
        ensures
            forall|i: int|
                0 <= i < self@.len() ==> !(
                #[trigger] self@[i]).expected_wakeup_time.spec_not_after(now),
    {
    }

    /// Taking out what was just put to sleep leaves the timer as it was before.
    pub proof fn clear_undoes_wait(
        before: Seq<SleepingTask<T>>,
        after: Seq<SleepingTask<T>>,
        task: SleepingTask<T>,
    )
        requires
            Self::added(before, after, task),
            forall|i: int| 0 <= i < before.len() ==> (#[trigger] before[i]).timeout != task.timeout,
        ensures
            Self::without(after, task.timeout) == before,
    {
        let i = choose|i: int|
            0 <= i <= before.len() && after == #[trigger] before.insert(i, task) && (forall|k: int|
                0 <= k < i ==> (#[trigger] before[k]).expected_wakeup_time.spec_not_after(
                    task.expected_wakeup_time,
                )) && (forall|k: int|
                i <= k < before.len() ==> !(#[trigger] before[k]).expected_wakeup_time.spec_not_after(
                    task.expected_wakeup_time,
                ));
        assert(after[i].timeout == task.timeout);
        let j = choose|j: int| 0 <= j < after.len() && (#[trigger] after[j]).timeout
            == task.timeout;
        if j < i {
            assert(after[j] == before[j]);
        } else if j > i {
            assert(after[j] == before[j - 1]);
        }
        assert(after.remove(i) =~= before);
    }
}

/// Of two times one is not after the other, and if neither is, they are the same. Within a minute
/// without a leap second this is the order of the nanoseconds since 1970.
pub proof fn times_are_ordered(a: LocalTime, b: LocalTime, c: LocalTime)
    ensures
        a.spec_not_after(b) || b.spec_not_after(a),
        a.spec_not_after(b) && b.spec_not_after(a) ==> a == b,
        a.spec_not_after(b) && b.spec_not_after(c) ==> a.spec_not_after(c),
        a.nanos < 1_000_000_000 && b.nanos < 1_000_000_000 ==> (a.spec_not_after(b) <==> a.secs
            * 1_000_000_000 + a.nanos <= b.secs * 1_000_000_000 + b.nanos),
{
}

/// Whoever waits for the milliseconds until a time does not go on before that time, and would go
/// on before it with one millisecond less. If the time is not ahead there is nothing to wait for.
pub proof fn waiting_for_a_time_is_exact(from: LocalTime, to: LocalTime)
    requires
        from.nanos < 1_000_000_000,
        to.nanos < 1_000_000_000,
    ensures
        ({
            let ms = spec_ms_until(from, to);
            let ahead = to.secs * 1_000_000_000 + to.nanos - (from.secs * 1_000_000_000
                + from.nanos);
            &&& 0 <= ms <= u64::MAX
            &&& ahead <= 0 ==> ms == 0
            &&& ahead > 0 ==> (ms - 1) * 1_000_000 < ahead
            &&& ahead > 0 && ms < u64::MAX ==> ahead <= ms * 1_000_000
        }),
{
}

impl Span {
    /// The milliseconds of a length of time are the full ones: not more than it has, and no less
    /// by a whole one.
    pub proof fn only_full_milliseconds_count(self)
        ensures
            self.spec_as_ms() * 1_000_000 <= self.secs * 1_000_000_000 + self.nanos,
            self.spec_as_ms() < u64::MAX ==> self.secs * 1_000_000_000 + self.nanos < (
            self.spec_as_ms() + 1) * 1_000_000,
            0 <= self.spec_as_ms() <= u64::MAX,
    {
    }
}

impl<T> Timer<T> {
    /// Whatever is put to sleep sleeps from then on, once, and nothing else comes or goes. Nothing
    /// before it has to sleep longer, and nothing behind it as long or less.
    pub proof fn sleeper_takes_its_place(
        before: Seq<SleepingTask<T>>,
        after: Seq<SleepingTask<T>>,
        now: LocalTime,
        delay: u64,
        value: T,
        timeout: Timeout,
    )
        requires
            Self::put_to_sleep(before, after, now, delay, value, timeout),
        ensures
            after.len() == before.len() + 1,
            exists|k: int|
                #![trigger after[k]]
                {
                    &&& 0 <= k < after.len()
                    &&& after.remove(k) == before
                    &&& after[k].value == value
                    &&& after[k].timeout == timeout
                    &&& after[k].expected_wakeup_time.secs * 1_000_000_000
                        + after[k].expected_wakeup_time.nanos == now.secs * 1_000_000_000
                        + now.nanos + delay * 1_000_000
                    &&& forall|i: int|
                        0 <= i < k ==> (#[trigger] after[i]).expected_wakeup_time.spec_not_after(
                            after[k].expected_wakeup_time,
                        )
                    &&& forall|i: int|
                        k < i < after.len() ==> !(
                        #[trigger] after[i]).expected_wakeup_time.spec_not_after(
                            after[k].expected_wakeup_time,
                        )
                },
    {
        let wakeup = choose|wakeup: LocalTime|
            wakeup.instant() == now.instant() + delay * 1_000_000 && wakeup.nanos < 1_000_000_000
                && #[trigger] Self::added(
                before,
                after,
                SleepingTask { value, expected_wakeup_time: wakeup, timeout },
            );
        let task = SleepingTask { value, expected_wakeup_time: wakeup, timeout };
        let k = choose|k: int|
            0 <= k <= before.len() && after == #[trigger] before.insert(k, task) && (forall|i: int|
                0 <= i < k ==> (#[trigger] before[i]).expected_wakeup_time.spec_not_after(wakeup))
                && (forall|i: int|
                k <= i < before.len() ==> !(#[trigger] before[i]).expected_wakeup_time.spec_not_after(
                    wakeup,
                ));
        assert(after[k] == task);
        assert(after.remove(k) =~= before);
        assert forall|i: int| 0 <= i < k implies (
        #[trigger] after[i]).expected_wakeup_time.spec_not_after(after[k].expected_wakeup_time) by {
            assert(after[i] == before[i]);
        }
        assert forall|i: int| k < i < after.len() implies !(
        #[trigger] after[i]).expected_wakeup_time.spec_not_after(after[k].expected_wakeup_time) by {
            assert(after[i] == before[i - 1]);
        }
    }

    /// Of two that are put to sleep one after the other, the first one wakes up first, unless the
    /// second one has to wake up earlier.
    pub proof fn sleepers_wake_up_in_order(
        before: Seq<SleepingTask<T>>,
        middle: Seq<SleepingTask<T>>,
        after: Seq<SleepingTask<T>>,
        first: SleepingTask<T>,
        second: SleepingTask<T>,
    )
        requires
            Self::added(before, middle, first),
            Self::added(middle, after, second),
        ensures
            exists|i: int, j: int|
                #![trigger after[i], after[j]]
                {
                    &&& 0 <= i < after.len()
                    &&& 0 <= j < after.len()
                    &&& i != j
                    &&& after[i] == first
                    &&& after[j] == second
                    &&& i < j <==> first.expected_wakeup_time.spec_not_after(
                        second.expected_wakeup_time,
                    )
                },
    {
        let i = choose|i: int|
            0 <= i <= before.len() && middle == #[trigger] before.insert(i, first) && (forall|k: int|
                0 <= k < i ==> (#[trigger] before[k]).expected_wakeup_time.spec_not_after(
                    first.expected_wakeup_time,
                )) && (forall|k: int|
                i <= k < before.len() ==> !(#[trigger] before[k]).expected_wakeup_time.spec_not_after(
                    first.expected_wakeup_time,
                ));
        let j = choose|j: int|
            0 <= j <= middle.len() && after == #[trigger] middle.insert(j, second) && (forall|k: int|
                0 <= k < j ==> (#[trigger] middle[k]).expected_wakeup_time.spec_not_after(
                    second.expected_wakeup_time,
                )) && (forall|k: int|
                j <= k < middle.len() ==> !(#[trigger] middle[k]).expected_wakeup_time.spec_not_after(
                    second.expected_wakeup_time,
                ));
        assert(middle[i] == first);
        assert(after[j] == second);
        if first.expected_wakeup_time.spec_not_after(second.expected_wakeup_time) {
            assert(i < j);
            assert(after[i] == first);
        } else {
            assert(j <= i);
            assert(after[i + 1] == first);
        }
    }

    /// What is taken out of the timer is only that one, and it is not there any more; all others
    /// sleep on in the same order.
    pub proof fn only_the_cancelled_one_goes(timer: Timer<T>, timeout: Timeout)
        requires
            timer.wf(),
            timer.pending(timeout),
        ensures
            exists|k: int|
                #![trigger timer@[k]]
                {
                    &&& 0 <= k < timer@.len()
                    &&& timer@[k].timeout == timeout
                    &&& Self::without(timer@, timeout) == timer@.take(k) + timer@.skip(k + 1)
                },
            forall|i: int|
                0 <= i < Self::without(timer@, timeout).len() ==> (#[trigger] Self::without(
                    timer@,
                    timeout,
                )[i]).timeout != timeout,
    {
        let k = choose|k: int| 0 <= k < timer@.len() && (#[trigger] timer@[k]).timeout == timeout;
        let after = Self::without(timer@, timeout);
        assert(after =~= timer@.take(k) + timer@.skip(k + 1));
        assert forall|i: int| 0 <= i < after.len() implies (#[trigger] after[i]).timeout
            != timeout by {
            if i < k {
                assert(after[i] == timer@[i]);
            } else {
                assert(after[i] == timer@[i + 1]);
            }
        }
    }

    /// After the milliseconds until the next tick there is something to wake up, and one
    /// millisecond earlier there is not.
    pub proof fn next_tick_is_neither_late_nor_early(timer: Timer<T>, now: LocalTime, at: LocalTime)
        requires
            timer.wf(),
            timer@.len() > 0,
            timer@[0].expected_wakeup_time.nanos < 1_000_000_000,
            now.nanos < 1_000_000_000,
            at.nanos < 1_000_000_000,
        ensures
            ({
                let ms = spec_ms_until(now, timer@[0].expected_wakeup_time);
                let waited = at.secs * 1_000_000_000 + at.nanos - (now.secs * 1_000_000_000
                    + now.nanos);
                &&& waited >= ms * 1_000_000 && ms < u64::MAX ==> Self::due(timer@, at)
                &&& 0 <= waited <= (ms - 1) * 1_000_000 ==> !Self::due(timer@, at)
            }),
    {
    }
}

impl<T> Timer<T> {
    /// Nothing is woken up before its time, and nothing before what has to wake up earlier. If
    /// nothing is woken up, the time of nothing has come. All others sleep on.
    pub proof fn earliest_wakes_up_first(
        timer: Timer<T>,
        after: Seq<SleepingTask<T>>,
        now: LocalTime,
        value: Option<T>,
    )
        requires
            timer.wf(),
            Self::woken_at(timer@, after, now, value),
        ensures
            value is None ==> {
                &&& after == timer@
                &&& forall|i: int|
                    0 <= i < timer@.len() ==> !(
                    #[trigger] timer@[i]).expected_wakeup_time.spec_not_after(now)
            },
            value matches Some(value) ==> exists|task: SleepingTask<T>|
                #![trigger task.value]
                {
                    &&& task.value == value
                    &&& task.expected_wakeup_time.spec_not_after(now)
                    &&& timer@ == seq![task] + after
                    &&& forall|i: int|
                        0 <= i < after.len() ==> task.expected_wakeup_time.spec_not_after(
                            (#[trigger] after[i]).expected_wakeup_time,
                        )
                },
    {
        if let Some(value) = value {
            let task = timer@[0];
            assert(seq![task] + after =~= timer@);
            assert forall|i: int| 0 <= i < after.len() implies task.expected_wakeup_time.spec_not_after(
                (#[trigger] after[i]).expected_wakeup_time,
            ) by {
                assert(after[i] == timer@[i + 1]);
            }
            assert(task.value == value);
        }
    }
}

} // verus!
