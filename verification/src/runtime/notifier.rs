//! Notifiers: whoever waited last is notified first.

use vstd::prelude::*;

use crate::coroutine::{Handle, HandleList, State};
use crate::runtime::processor::Processor;
use crate::runtime::timer::{LocalTime, Timeout, Timer};
use crate::slots::Slots;

verus! {

/// What has become of a waiter.
#[derive(Debug, Copy, Clone, Eq, PartialEq, Structural)]
pub enum WaiterState {
    /// Nothing yet.
    Empty,
    /// It was notified.
    Succeeded,
    /// Its time ran out.
    Timedout,
    /// It failed.
    Error,
}

impl Default for WaiterState {
    fn default() -> (state: WaiterState)
        ensures
            state == WaiterState::Empty,
    {
        WaiterState::Empty
    }
}

/// One that waits.
pub struct Waiter {
    /// The timeout that ends the wait.
    pub timeout: Option<Timeout>,
    /// What has become of it.
    pub state: WaiterState,
    /// The coroutine that waits.
    pub handle: Option<Handle>,
}

impl Waiter {
    /// A waiter without a coroutine.
    pub fn new() -> (waiter: Waiter)
        ensures
            waiter == (Waiter { timeout: None, state: WaiterState::Empty, handle: None }),
    {
        Waiter { timeout: None, state: WaiterState::default(), handle: None }
    }

    /// The waiter after a notification, which only counts if a coroutine waits.
    pub open spec fn notified(self, t: WaiterState) -> Waiter {
        Waiter {
            state: if self.handle is Some {
                t
            } else {
                self.state
            },
            handle: None,
            ..self
        }
    }

    /// Notifies the waiter. The coroutine comes back, to be made ready.
    pub fn notify(&mut self, t: WaiterState) -> (hdl: Option<Handle>)
        requires
            t != WaiterState::Empty,
        ensures
            *final(self) == old(self).notified(t),
            hdl == old(self).handle,
    {
        match self.handle.take() {
            None => None,
            Some(hdl) => {
                self.state = t;
                Some(hdl)
            },
        }
    }

    /// What has become of the waiter.
    pub fn state(&self) -> (state: WaiterState)
        ensures
            state == self.state,
    {
        self.state
    }

    /// Leaves the coroutine with the waiter, unless there was a notification already: then it
    /// comes back.
    pub fn try_wait(&mut self, coro: Handle) -> (rejected: Option<Handle>)
        ensures
            old(self).state == WaiterState::Empty ==> rejected is None && *final(self) == (Waiter {
                handle: Some(coro),
                ..*old(self)
            }),
            old(self).state != WaiterState::Empty ==> rejected == Some(coro) && *final(self)
                == *old(self),
    {
        match self.state {
            WaiterState::Empty => {
                self.handle = Some(coro);
                None
            },
            _ => Some(coro),
        }
    }

    /// Sets the timeout that ends the wait.
    pub fn set_timeout(&mut self, timeout: Timeout)
        ensures
            *final(self) == (Waiter { timeout: Some(timeout), ..*old(self) }),
    {
        self.timeout = Some(timeout);
    }

    /// Takes the timeout out.
    pub fn take_timeout(&mut self) -> (timeout: Option<Timeout>)
        ensures
            timeout == old(self).timeout,
            *final(self) == (Waiter { timeout: None, ..*old(self) }),
    {
        self.timeout.take()
    }
}

/// The waiters by their numbers.
pub type WaiterMap = Map<usize, Waiter>;

/// The coroutines that wait with the given waiters, from the last one to the first one.
pub open spec fn handles_of(waiters: WaiterMap, ids: Seq<usize>) -> Seq<Handle>
    decreases ids.len(),
{
    if ids.len() == 0 {
        Seq::empty()
    } else {
        let rest = handles_of(waiters, ids.drop_last());
        match waiters[ids.last()].handle {
            Some(hdl) => seq![hdl] + rest,
            None => rest,
        }
    }
}

/// The waiters after the given ones were notified.
pub open spec fn all_notified(
    before: WaiterMap,
    after: WaiterMap,
    ids: Seq<usize>,
    t: WaiterState,
) -> bool {
    &&& after.dom() == before.dom()
    &&& forall|id: usize| #[trigger]
        before.dom().contains(id) ==> after[id] == (if ids.contains(id) {
            before[id].notified(t)
        } else {
            before[id]
        })
}

/// A notifier.
pub struct Notifier {
    /// Those that wait, the last one of which is notified first.
    pub wait_list: Vec<usize>,
    /// All waiters, whether in the list or not.
    pub waiters: Slots<Waiter>,
    /// The number of waits so far.
    pub token: usize,
    /// The number of notifications so far.
    pub notified: usize,
}

impl Notifier {
    /// The list names every waiter at most once.
    pub open spec fn wf(&self) -> bool {
        &&& self.wait_list@.no_duplicates()
        &&& forall|i: int|
            0 <= i < self.wait_list@.len() ==> self.waiters@.dom().contains(
                #[trigger] self.wait_list@[i],
            )
    }

    /// Nobody waits.
    pub fn new() -> (notifier: Notifier)
        ensures
            notifier.wf(),
            notifier.wait_list@ == Seq::<usize>::empty(),
            notifier.waiters@ == Map::<usize, Waiter>::empty(),
            notifier.token == 0,
            notifier.notified == 0,
    {
        Notifier { wait_list: Vec::new(), waiters: Slots::new(), token: 0, notified: 0 }
    }

    /// Notifies the one that waited last. Its coroutine comes back, to be made ready.
    pub fn notify_one(&mut self, t: WaiterState) -> (hdl: Option<Handle>)
        requires
            old(self).wf(),
            t != WaiterState::Empty,
        ensures
            final(self).wf(),
            final(self).token == old(self).token,
            final(self).notified == old(self).notified.wrapping_add(1),
            notified_one(*old(self), *final(self), t, hdl),
    {
        let ghost ids = self.wait_list@;
        let mut hdl = None;
        if let Some(id) = self.wait_list.pop() {
            proof {
                assert(id == ids.last());
                assert(self.wait_list@ =~= ids.drop_last());
                assert forall|i: int| 0 <= i < self.wait_list@.len() implies (
                #[trigger] self.wait_list@[i]) == ids[i] by {}
            }
            hdl = self.waiters.get_mut(id).notify(t);
        }
        self.notified = self.notified.wrapping_add(1);
        hdl
    }

    /// Notifies all that wait, the last one first. This counts for one more than there are.
    pub fn notify_all(&mut self, t: WaiterState, hdl_list: &mut HandleList)
        requires
            old(self).wf(),
            t != WaiterState::Empty,
        ensures
            final(self).wf(),
            final(self).token == old(self).token,
            final(self).wait_list@.len() == 0,
            final(self).notified == old(self).notified.wrapping_add(
                (old(self).wait_list@.len() as usize).wrapping_add(1),
            ),
            all_notified(old(self).waiters@, final(self).waiters@, old(self).wait_list@, t),
            final(hdl_list)@ == old(hdl_list)@ + handles_of(
                old(self).waiters@,
                old(self).wait_list@,
            ),
    {
        let mut count: usize = 1;
        let len = self.wait_list.len();
        let ghost ids = self.wait_list@;
        let ghost before = self.waiters@;
        let ghost mut left: int = len as int;
        proof {
            assert(ids.take(left) =~= ids);
            assert(ids.skip(left) =~= Seq::<usize>::empty());
        }
        loop
            invariant
                self.wf(),
                old(self).wf(),
                t != WaiterState::Empty,
                ids == old(self).wait_list@,
                before == old(self).waiters@,
                self.token == old(self).token,
                self.notified == old(self).notified,
                len == ids.len(),
                0 <= left <= len,
                count == ((len - left) as usize).wrapping_add(1),
                self.wait_list@ == ids.take(left),
                all_notified(before, self.waiters@, ids.skip(left), t),
                hdl_list@ + handles_of(before, ids.take(left)) == old(hdl_list)@ + handles_of(
                    before,
                    ids,
                ),
            ensures
                left == 0,
            decreases left,
        {
            let ghost middle = self.waiters@;
            let ghost rest = ids.take(left);
            let ghost handles = hdl_list@;
            match self.wait_list.pop() {
                Some(id) => {
                    proof {
                        assert(id == rest.last() && id == ids[left - 1]);
                        assert(old(self).waiters@.dom().contains(ids[left - 1]));
                        assert(rest.drop_last() =~= ids.take(left - 1));
                        assert(self.wait_list@ =~= ids.take(left - 1));
                        assert forall|i: int| 0 <= i < self.wait_list@.len() implies (
                        #[trigger] self.wait_list@[i]) == rest[i] by {}
                        assert(!ids.skip(left).contains(id)) by {
                            if ids.skip(left).contains(id) {
                                let k = choose|k: int|
                                    0 <= k < ids.skip(left).len() && ids.skip(left)[k] == id;
                                assert(ids[left + k] == ids[left - 1]);
                            }
                        }
                    }
                    let hdl = self.waiters.get_mut(id).notify(t);
                    if let Some(hdl) = hdl {
                        hdl_list.push_back(hdl);
                    }
                    proof {
                        let more = ids.skip(left - 1);
                        assert(more =~= seq![id] + ids.skip(left));
                        assert forall|other: usize| more.contains(other) <==> (other == id
                            || ids.skip(left).contains(other)) by {
                            if more.contains(other) {
                                let k = choose|k: int| 0 <= k < more.len() && more[k] == other;
                                if k > 0 {
                                    assert(ids.skip(left)[k - 1] == other);
                                }
                            }
                            if ids.skip(left).contains(other) {
                                let k = choose|k: int|
                                    0 <= k < ids.skip(left).len() && ids.skip(left)[k] == other;
                                assert(more[k + 1] == other);
                            }
                            assert(more[0] == id);
                        }
                        assert(self.waiters@.dom() =~= before.dom());
                        assert(all_notified(before, self.waiters@, more, t));
                        match before[id].handle {
                            Some(hdl) => {
                                assert(hdl_list@ + handles_of(before, ids.take(left - 1))
                                    =~= handles + handles_of(before, rest));
                            },
                            None => {
                                assert(hdl_list@ == handles);
                            },
                        }
                        left = left - 1;
                    }
                    count = count.wrapping_add(1);
                },
                None => {
                    break;
                },
            }
        }
        proof {
            assert(ids.skip(0) =~= ids);
            assert(ids.take(0) =~= Seq::<usize>::empty());
            assert(hdl_list@ =~= old(hdl_list)@ + handles_of(before, ids));
        }
        self.notified = self.notified.wrapping_add(count);
    }

    /// Puts a new waiter into the list.
    pub fn bind(&mut self, waiter: Waiter) -> (id: usize)
        requires
            old(self).wf(),
        ensures
            final(self).wf(),
            final(self).token == old(self).token,
            final(self).notified == old(self).notified,
            !old(self).waiters@.dom().contains(id),
            final(self).wait_list@ == old(self).wait_list@.push(id),
            final(self).waiters@ == old(self).waiters@.insert(id, waiter),
    {
        let id = self.waiters.insert(waiter);
        self.wait_list.push(id);
        id
    }

    /// Drops a waiter, which leaves the list if it is still there.
    fn unbind(&mut self, id: usize)
        requires
            old(self).wf(),
            old(self).waiters@.dom().contains(id),
        ensures
            final(self).wf(),
            final(self).token == old(self).token,
            final(self).notified == old(self).notified,
            final(self).waiters@ == old(self).waiters@.remove(id),
            !final(self).wait_list@.contains(id),
            !old(self).wait_list@.contains(id) ==> final(self).wait_list@ == old(self).wait_list@,
            forall|k: int|
                0 <= k < old(self).wait_list@.len() && #[trigger] old(self).wait_list@[k] == id
                    ==> final(self).wait_list@ == old(self).wait_list@.remove(k),
    {
        let ghost ids = self.wait_list@;
        let mut i: usize = 0;
        while i < self.wait_list.len() && self.wait_list[i] != id
            invariant
                *self == *old(self),
                ids == self.wait_list@,
                i <= ids.len(),
                forall|k: int| 0 <= k < i ==> #[trigger] ids[k] != id,
            decreases ids.len() - i,
        {
            i = i + 1;
        }
        if i < self.wait_list.len() {
            let _ = self.wait_list.remove(i);
            proof {
                assert(self.wait_list@ =~= ids.remove(i as int));
                assert forall|k: int| 0 <= k < self.wait_list@.len() implies (
                #[trigger] self.wait_list@[k]) != id && old(self).waiters@.dom().contains(
                    self.wait_list@[k],
                ) by {
                    if k < i {
                        assert(self.wait_list@[k] == ids[k]);
                    } else {
                        assert(self.wait_list@[k] == ids[k + 1]);
                    }
                }
                assert forall|j: int, k: int|
                    0 <= j < self.wait_list@.len() && 0 <= k < self.wait_list@.len() && j
                        != k implies self.wait_list@[j] != self.wait_list@[k] by {
                    let a = if j < i {
                        j
                    } else {
                        j + 1
                    };
                    let b = if k < i {
                        k
                    } else {
                        k + 1
                    };
                    assert(self.wait_list@[j] == ids[a]);
                    assert(self.wait_list@[k] == ids[b]);
                }
            }
        }
        let _ = self.waiters.remove(id);
    }

    /// The running coroutine waits for a notification, unless there was one for it already. The
    /// number is that of its waiter.
    pub fn wait(&mut self, p: &mut Processor) -> (waiter: Option<usize>)
        requires
            old(self).wf(),
            old(p).current_coro is Some,
        ensures
            final(self).wf(),
            final(p).same_but_current(*old(p)),
            waited(*old(self), *final(self), *old(p), *final(p), waiter),
    {
        let token = self.token;
        self.token = token.wrapping_add(1);
        if token < self.notified {
            return None;
        }
        let id = self.bind(Waiter::new());
        let coro = p.park();
        let _ = self.waiters.get_mut(id).try_wait(coro);
        proof {
            assert(self.waiters@ =~= old(self).waiters@.insert(
                id,
                Waiter { timeout: None, state: WaiterState::Empty, handle: Some(coro) },
            ));
        }
        Some(id)
    }

    /// The last step of a wait: what has become of it.
    pub fn end_wait(&mut self, id: usize) -> (state: WaiterState)
        requires
            old(self).wf(),
            old(self).waiters@.dom().contains(id),
        ensures
            final(self).wf(),
            final(self).token == old(self).token,
            final(self).notified == old(self).notified,
            final(self).waiters@ == old(self).waiters@.remove(id),
            !final(self).wait_list@.contains(id),
            !old(self).wait_list@.contains(id) ==> final(self).wait_list@ == old(self).wait_list@,
            forall|k: int|
                0 <= k < old(self).wait_list@.len() && #[trigger] old(self).wait_list@[k] == id
                    ==> final(self).wait_list@ == old(self).wait_list@.remove(k),
            state == old(self).waiters@[id].state,
    {
        let state = self.waiters.get(id).state();
        self.unbind(id);
        state
    }

    /// The running coroutine waits for a notification, but not longer than `delay` milliseconds
    /// after `now`. The number is that of its waiter.
    pub fn wait_timeout(
        &mut self,
        now: LocalTime,
        delay: u64,
        timer: &mut Timer<usize>,
        p: &mut Processor,
    ) -> (id: usize)
        requires
            old(self).wf(),
            old(p).current_coro is Some,
            old(timer).wf(),
            old(timer).spec_next_number() < u64::MAX,
            now.on_clock(),
        ensures
            final(self).wf(),
            final(timer).wf(),
            final(self).token == old(self).token,
            final(self).notified == old(self).notified,
            final(p).same_but_current(*old(p)),
            final(p).current_coro is None,
            ({
                let timeout = Timeout { number: old(timer).spec_next_number() };
                &&& waits(*old(self), *final(self), id, old(p).current_coro->0, Some(timeout))
                &&& Timer::put_to_sleep(old(timer)@, final(timer)@, now, delay, id, timeout)
            }),
    {
        let id = self.bind(Waiter::new());
        let timeout = timer.timeout_ms_from(now, id, delay);
        self.waiters.get_mut(id).set_timeout(timeout);
        let coro = p.park();
        let _ = self.waiters.get_mut(id).try_wait(coro);
        proof {
            assert(self.waiters@ =~= old(self).waiters@.insert(
                id,
                Waiter { timeout: Some(timeout), state: WaiterState::Empty, handle: Some(coro) },
            ));
        }
        id
    }

    /// The last step of a wait with a timeout: what has become of it. The timeout is cancelled.
    pub fn end_wait_timeout(&mut self, id: usize, timer: &mut Timer<usize>) -> (state: WaiterState)
        requires
            old(self).wf(),
            old(timer).wf(),
            old(self).waiters@.dom().contains(id),
            old(self).waiters@[id].state != WaiterState::Empty,
            old(self).waiters@[id].timeout is Some,
        ensures
            final(self).wf(),
            final(timer).wf(),
            final(self).token == old(self).token,
            final(self).notified == old(self).notified,
            final(self).waiters@ == old(self).waiters@.remove(id),
            !final(self).wait_list@.contains(id),
            !old(self).wait_list@.contains(id) ==> final(self).wait_list@ == old(self).wait_list@,
            forall|k: int|
                0 <= k < old(self).wait_list@.len() && #[trigger] old(self).wait_list@[k] == id
                    ==> final(self).wait_list@ == old(self).wait_list@.remove(k),
            state == old(self).waiters@[id].state,
            ({
                let timeout = old(self).waiters@[id].timeout->0;
                final(timer)@ == (if old(timer).pending(timeout) {
                    Timer::without(old(timer)@, timeout)
                } else {
                    old(timer)@
                })
            }),
    {
        if let Some(timeout) = self.waiters.get(id).timeout {
            let _ = timer.clear(&timeout);
        }
        self.end_wait(id)
    }
}

/// The coroutine was parked and is with a new waiter, which is notified before the others.
pub open spec fn waits(
    before: Notifier,
    after: Notifier,
    id: usize,
    running: Handle,
    timeout: Option<Timeout>,
) -> bool {
    &&& !before.waiters@.dom().contains(id)
    &&& after.wait_list@ == before.wait_list@.push(id)
    &&& exists|coro: Handle|
        {
            &&& #[trigger] coro.moved_to(running, State::Parked)
            &&& after.waiters@ == before.waiters@.insert(
                id,
                Waiter { timeout, state: WaiterState::Empty, handle: Some(coro) },
            )
        }
}

/// The last one of the list was taken out and notified, and its coroutine came back.
pub open spec fn notified_one(
    before: Notifier,
    after: Notifier,
    t: WaiterState,
    hdl: Option<Handle>,
) -> bool {
    let ids = before.wait_list@;
    &&& after.token == before.token
    &&& after.notified == before.notified.wrapping_add(1)
    &&& if ids.len() == 0 {
        &&& hdl is None
        &&& after.wait_list@ == ids
        &&& after.waiters == before.waiters
    } else {
        &&& hdl == before.waiters@[ids.last()].handle
        &&& after.wait_list@ == ids.drop_last()
        &&& after.waiters@ == before.waiters@.insert(
            ids.last(),
            before.waiters@[ids.last()].notified(t),
        )
    }
}

/// Whoever waited last is notified first: its coroutine is the one that is handed out, it is told
/// what has become of the wait, and whoever waited before still does, in the same order.
pub proof fn last_one_to_wait_is_notified_first(
    before: Notifier,
    waiting: Notifier,
    after: Notifier,
    id: usize,
    running: Handle,
    timeout: Option<Timeout>,
    t: WaiterState,
    hdl: Option<Handle>,
)
    requires
        before.wf(),
        waits(before, waiting, id, running, timeout),
        notified_one(waiting, after, t, hdl),
    ensures
        hdl matches Some(hdl) && hdl.spec_id() == running.spec_id() && hdl.spec_state()
            == State::Parked,
        after.wait_list@ == before.wait_list@,
        after.waiters@.dom() == before.waiters@.dom().insert(id),
        after.waiters@[id].state == t,
        after.waiters@[id].handle is None,
        forall|other: usize| #[trigger]
            before.waiters@.dom().contains(other) ==> after.waiters@[other] == before.waiters@[other],
{
    assert(waiting.wait_list@.drop_last() =~= before.wait_list@);
    assert(waiting.wait_list@.last() == id);
    assert(after.waiters@.dom() =~= before.waiters@.dom().insert(id));
}

/// A notification hands out nobody but the last one of the list, tells it what has become of the
/// wait, and leaves all others alone. If nobody waits, nobody is told.
pub proof fn only_the_last_one_is_notified(
    before: Notifier,
    after: Notifier,
    t: WaiterState,
    hdl: Option<Handle>,
)
    requires
        before.wf(),
        notified_one(before, after, t, hdl),
    ensures
        after.notified == (if before.notified == usize::MAX {
            0
        } else {
            before.notified + 1
        }),
        after.waiters@.dom() == before.waiters@.dom(),
        before.wait_list@.len() == 0 ==> {
            &&& hdl is None
            &&& after.waiters@ == before.waiters@
            &&& after.wait_list@ == before.wait_list@
        },
        before.wait_list@.len() > 0 ==> {
            let id = before.wait_list@[before.wait_list@.len() - 1];
            &&& before.wait_list@ == after.wait_list@.push(id)
            &&& hdl == before.waiters@[id].handle
            &&& after.waiters@[id].handle is None
            &&& hdl is Some ==> after.waiters@[id].state == t
            &&& forall|other: usize| #[trigger]
                before.waiters@.dom().contains(other) && other != id ==> after.waiters@[other]
                    == before.waiters@[other]
        },
{
    assert(after.waiters@.dom() =~= before.waiters@.dom());
    if before.wait_list@.len() > 0 {
        assert(after.wait_list@.push(before.wait_list@.last()) =~= before.wait_list@);
    }
}

/// When everyone is notified, the coroutine of each one in the list is handed out, and each of them
/// is told what has become of its wait; nobody else is.
pub proof fn everyone_in_the_list_is_notified(
    before: WaiterMap,
    after: WaiterMap,
    ids: Seq<usize>,
    t: WaiterState,
    k: int,
)
    requires
        all_notified(before, after, ids, t),
        0 <= k < ids.len(),
        before.dom().contains(ids[k]),
    ensures
        after[ids[k]].handle is None,
        before[ids[k]].handle matches Some(hdl) ==> {
            &&& handles_of(before, ids).contains(hdl)
            &&& after[ids[k]].state == t
        },
        before[ids[k]].handle is None ==> after[ids[k]].state == before[ids[k]].state,
        forall|other: usize| #[trigger]
            before.dom().contains(other) && !ids.contains(other) ==> after[other] == before[other],
{
    assert(ids.contains(ids[k]));
    lemma_handle_of(before, ids, k);
}

proof fn lemma_handle_of(waiters: WaiterMap, ids: Seq<usize>, k: int)
    requires
        0 <= k < ids.len(),
    ensures
        waiters[ids[k]].handle matches Some(hdl) ==> handles_of(waiters, ids).contains(hdl),
    decreases ids.len(),
{
    if let Some(hdl) = waiters[ids[k]].handle {
        let all = handles_of(waiters, ids);
        if k == ids.len() - 1 {
            assert(all[0] == hdl);
        } else {
            let fewer = ids.drop_last();
            lemma_handle_of(waiters, fewer, k);
            assert(fewer[k] == ids[k]);
            let rest = handles_of(waiters, fewer);
            let i = choose|i: int| 0 <= i < rest.len() && rest[i] == hdl;
            match waiters[ids.last()].handle {
                Some(_) => {
                    assert(all[i + 1] == hdl);
                },
                None => {
                    assert(all[i] == hdl);
                },
            }
        }
    }
}

/// When everyone is notified, the coroutine of the one that waited last comes first, and the others
/// follow as they would without it.
pub proof fn last_one_comes_first(waiters: WaiterMap, ids: Seq<usize>, last: usize, hdl: Handle)
    requires
        waiters[last].handle == Some(hdl),
    ensures
        handles_of(waiters, ids.push(last))[0] == hdl,
        handles_of(waiters, ids.push(last)).drop_first() == handles_of(waiters, ids),
{
    assert(ids.push(last).drop_last() =~= ids);
    assert(handles_of(waiters, ids.push(last)) == seq![hdl] + handles_of(waiters, ids));
    assert((seq![hdl] + handles_of(waiters, ids)).drop_first() =~= handles_of(waiters, ids));
}

/// What a wait does: nothing but counting it if it was notified already, else the running
/// coroutine is parked.
pub open spec fn waited(
    before: Notifier,
    after: Notifier,
    p_before: Processor,
    p_after: Processor,
    waiter: Option<usize>,
) -> bool {
    &&& after.token == before.token.wrapping_add(1)
    &&& after.notified == before.notified
    &&& match waiter {
        None => {
            &&& before.token < before.notified
            &&& p_after == p_before
            &&& after.wait_list == before.wait_list
            &&& after.waiters == before.waiters
        },
        Some(id) => {
            &&& before.token >= before.notified
            &&& p_after.current_coro is None
            &&& waits(before, after, id, p_before.current_coro->0, None)
        },
    }
}

/// A notification that comes while nobody waits is not lost, and counts once: the next wait passes
/// at once, and the one after that parks its coroutine.
pub proof fn notification_lets_one_wait_pass(
    notifiers: (Notifier, Notifier, Notifier, Notifier),
    processors: (Processor, Processor, Processor),
    t: WaiterState,
    hdl: Option<Handle>,
    first: Option<usize>,
    second: Option<usize>,
)
    requires
        notifiers.0.wf(),
        notifiers.0.token == notifiers.0.notified,
        notifiers.0.notified < usize::MAX,
        notified_one(notifiers.0, notifiers.1, t, hdl),
        waited(notifiers.1, notifiers.2, processors.0, processors.1, first),
        waited(notifiers.2, notifiers.3, processors.1, processors.2, second),
    ensures
        first is None,
        processors.1 == processors.0,
        notifiers.2.waiters@ == notifiers.1.waiters@,
        second matches Some(id) && {
            &&& processors.2.current_coro is None
            &&& notifiers.3.wait_list@ == notifiers.1.wait_list@.push(id)
            &&& notifiers.3.waiters@[id].handle matches Some(coro) && coro.spec_id()
                == processors.0.current_coro->0.spec_id() && coro.spec_state() == State::Parked
        },
{
}

} // verus!
