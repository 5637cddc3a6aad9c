//! Coroutines, the handles that own them, and lists of handles.

use std::collections::VecDeque;

use vstd::prelude::*;

use crate::fifo;
use crate::options::Options;
use crate::runtime::stack_pool::{Stack, StackPool, StackUnavailable};

verus! {

/// The payload with which the stack of a dropped coroutine is unwound.
#[derive(Debug)]
pub struct ForceUnwind;

/// What a coroutine is doing.
#[derive(Debug, Copy, Clone, PartialEq, Eq, Structural)]
pub enum State {
    /// It gave up the processor and can go on at any time.
    Suspended,
    /// It is on a processor.
    Running,
    /// It waits until somebody makes it ready.
    Parked,
    /// Its function has returned or was unwound.
    Finished,
    /// Its handle is being dropped.
    Dropping,
}

/// A coroutine: its name, its state and its stack.
pub struct Coroutine {
    name: Option<String>,
    state: State,
    stack: Option<Stack>,
}

impl Coroutine {
    /// The state of the coroutine.
    pub closed spec fn spec_state(&self) -> State {
        self.state
    }

    /// The name of the coroutine.
    pub closed spec fn spec_name(&self) -> Option<String> {
        self.name
    }

    /// The stack of the coroutine.
    pub closed spec fn spec_stack(&self) -> Option<Stack> {
        self.stack
    }

    /// Makes a coroutine on a new stack.
    pub fn spawn_opts(id: usize, opts: Options) -> (hdl: Result<Handle, StackUnavailable>)
        ensures
            hdl matches Ok(hdl) ==> hdl.created(id, opts),
            hdl matches Err(unavailable) ==> unavailable.size == opts.stack_size,
    {
        let made = StackPool::raw_allocate(opts.stack_size);
        Coroutine::spawn_on(id, made, opts)
    }

    /// Makes a coroutine on the stack that was made for it, if there is one.
    pub fn spawn_on(id: usize, made: Result<Stack, StackUnavailable>, opts: Options) -> (hdl: Result<
        Handle,
        StackUnavailable,
    >)
        requires
            made matches Ok(stack) ==> stack.spec_size() == opts.stack_size && stack.spec_len()
                >= opts.stack_size,
        ensures
            match made {
                Ok(stack) => hdl matches Ok(hdl) && hdl.created(id, opts)
                    && hdl.spec_coro().spec_stack() == Some(stack),
                Err(unavailable) => hdl == Err::<Handle, StackUnavailable>(unavailable),
            },
    {
        match made {
            Ok(stack) => Ok(Coroutine::create_coroutine(id, stack, opts)),
            Err(unavailable) => Err(unavailable),
        }
    }

    /// Makes a coroutine on a stack from the pool.
    pub fn spawn_opts_with_pool(id: usize, opts: Options, pool: &mut StackPool) -> (hdl: Result<
        Handle,
        StackUnavailable,
    >)
        requires
            old(pool).wf(),
        ensures
            hdl matches Ok(hdl) ==> hdl.created(id, opts) && old(pool).allocated(
                *final(pool),
                opts.stack_size,
                hdl.spec_coro().spec_stack(),
            ),
            hdl matches Err(unavailable) ==> {
                &&& unavailable.size == opts.stack_size
                &&& old(pool).allocated(*final(pool), opts.stack_size, None)
            },
    {
        let made = pool.allocate(opts.stack_size);
        Coroutine::spawn_on(id, made, opts)
    }

    /// Makes a coroutine on a stack.
    pub fn create_coroutine(id: usize, stack: Stack, opts: Options) -> (hdl: Handle)
        requires
            stack.spec_size() == opts.stack_size,
            stack.spec_len() >= opts.stack_size,
        ensures
            hdl.created(id, opts),
            hdl.spec_coro().spec_stack() == Some(stack),
    {
        let mut coro = Coroutine { name: None, state: State::Suspended, stack: Some(stack) };
        if let Some(name) = opts.name {
            coro.set_name(name);
        }
        Handle { id, coro: Box::new(coro) }
    }

    /// The state of the coroutine.
    pub fn state(&self) -> (state: State)
        ensures
            state == self.spec_state(),
    {
        self.state
    }

    /// The name of the coroutine.
    pub fn name(&self) -> (name: Option<&str>)
        ensures
            name is Some <==> self.spec_name() is Some,
            name matches Some(name) ==> name@ == self.spec_name()->0@,
    {
        match &self.name {
            Some(name) => Some(name.as_str()),
            None => None,
        }
    }

    /// The stack of the coroutine.
    pub fn stack(&self) -> (stack: Option<&Stack>)
        ensures
            stack is Some <==> self.spec_stack() is Some,
            stack matches Some(stack) ==> *stack == self.spec_stack()->0,
    {
        match &self.stack {
            Some(stack) => Some(stack),
            None => None,
        }
    }

    /// Names the coroutine.
    pub fn set_name(&mut self, name: String)
        ensures
            final(self).spec_name() == Some(name),
            final(self).spec_state() == old(self).spec_state(),
            final(self).spec_stack() == old(self).spec_stack(),
    {
        self.name = Some(name);
    }

    /// Whether the coroutine is already finished.
    pub fn is_finished(&self) -> (finished: bool)
        ensures
            finished == (self.spec_state() == State::Finished),
    {
        self.state == State::Finished
    }
}

/// A handle that owns a coroutine and knows it by a number.
pub struct Handle {
    id: usize,
    coro: Box<Coroutine>,
}

impl Handle {
    /// The number of the coroutine.
    pub closed spec fn spec_id(&self) -> usize {
        self.id
    }

    /// The coroutine.
    pub closed spec fn spec_coro(&self) -> Coroutine {
        *self.coro
    }

    /// The state of the coroutine.
    pub open spec fn spec_state(&self) -> State {
        self.spec_coro().spec_state()
    }

    /// The handle owns a coroutine that was just made with these options.
    pub open spec fn created(&self, id: usize, opts: Options) -> bool {
        &&& self.spec_id() == id
        &&& self.spec_state() == State::Suspended
        &&& self.spec_coro().spec_name() == opts.name
        &&& self.spec_coro().spec_stack() matches Some(stack) && stack.spec_size()
            == opts.stack_size && stack.spec_len() >= opts.stack_size
    }

    /// The handle is `before` with another state.
    pub open spec fn moved_to(&self, before: Handle, state: State) -> bool {
        &&& self.spec_id() == before.spec_id()
        &&& self.spec_state() == state
        &&& self.spec_coro().spec_name() == before.spec_coro().spec_name()
        &&& self.spec_coro().spec_stack() == before.spec_coro().spec_stack()
    }

    /// The number of the coroutine.
    pub fn id(&self) -> (id: usize)
        ensures
            id == self.spec_id(),
    {
        self.id
    }

    /// The coroutine.
    pub fn coro(&self) -> (coro: &Coroutine)
        ensures
            *coro == self.spec_coro(),
    {
        &self.coro
    }

    /// The state of the coroutine.
    pub fn state(&self) -> (state: State)
        ensures
            state == self.spec_state(),
    {
        self.coro.state()
    }

    /// Whether the coroutine is already finished.
    pub fn is_finished(&self) -> (finished: bool)
        ensures
            finished == (self.spec_state() == State::Finished),
    {
        self.coro.is_finished()
    }

    /// The coroutine goes on running.
    pub fn resume(&mut self)
        ensures
            final(self).moved_to(*old(self), State::Running),
    {
        self.yield_with(State::Running)
    }

    /// The coroutine changes over to another state.
    pub fn yield_with(&mut self, state: State)
        ensures
            final(self).moved_to(*old(self), state),
    {
        self.coro.state = state;
    }

    /// What dropping the handle has to do first: a coroutine that has not finished has to be
    /// unwound.
    pub fn needs_unwind(&self) -> (needed: bool)
        ensures
            needed == (self.spec_state() != State::Finished),
    {
        self.state() != State::Finished
    }

    /// The last step of a coroutine that has finished, or was unwound: its stack goes to the
    /// pool of the processor, if there is one.
    pub fn exit(self, pool: Option<&mut StackPool>)
        requires
            self.spec_state() == State::Finished,
            self.spec_coro().spec_stack() is Some,
            pool matches Some(pool) ==> pool.wf() && pool.spec_total_size()
                + self.spec_coro().spec_stack()->0.spec_size() <= usize::MAX,
        ensures
            pool matches Some(pool) ==> pool.taken_back(
                *final(pool),
                self.spec_coro().spec_stack()->0,
            ),
    {
        let mut hdl = self;
        hdl.coro.state = State::Dropping;
        let coro = *hdl.coro;
        if let Some(stack) = coro.stack {
            if let Some(pool) = pool {
                pool.deallocate(stack);
            }
        }
    }
}

/// A list of handles.
pub struct HandleList {
    handles: VecDeque<Handle>,
}

impl View for HandleList {
    type V = Seq<Handle>;

    closed spec fn view(&self) -> Seq<Handle> {
        self.handles@
    }
}

impl HandleList {
    /// An empty list.
    pub fn new() -> (list: HandleList)
        ensures
            list@ == Seq::<Handle>::empty(),
    {
        HandleList { handles: VecDeque::new() }
    }

    /// Pushes a handle to the front.
    pub fn push_front(&mut self, hdl: Handle)
        ensures
            final(self)@ == seq![hdl] + old(self)@,
    {
        self.handles.push_front(hdl);
    }

    /// Pushes a handle to the back.
    pub fn push_back(&mut self, hdl: Handle)
        ensures
            fifo::passes(old(self)@, final(self)@, fifo::Passing::In(hdl)),
    {
        self.handles.push_back(hdl);
    }

    /// Pops a handle from the front.
    pub fn pop_front(&mut self) -> (hdl: Option<Handle>)
        ensures
            hdl is None <==> old(self)@.len() == 0,
            hdl is None ==> final(self)@ == old(self)@,
            hdl matches Some(hdl) ==> fifo::passes(
                old(self)@,
                final(self)@,
                fifo::Passing::Out(hdl),
            ),
    {
        self.handles.pop_front()
    }

    /// Pops a handle from the back.
    pub fn pop_back(&mut self) -> (hdl: Option<Handle>)
        ensures
            hdl is None <==> old(self)@.len() == 0,
            hdl is None ==> final(self)@ == old(self)@,
            hdl matches Some(hdl) ==> hdl == old(self)@.last() && final(self)@
                == old(self)@.drop_last(),
    {
        self.handles.pop_back()
    }

    /// Moves all handles of the other list to the back of this one.
    pub fn append(&mut self, other: &mut HandleList)
        ensures
            final(self)@ == old(self)@ + old(other)@,
            final(other)@ == Seq::<Handle>::empty(),
    {
        self.handles.append(&mut other.handles);
    }

    /// Takes the first `n` handles off, or all of them if there are not more.
    pub fn split_off_front(&mut self, n: usize) -> (list: HandleList)
        ensures
            n >= old(self)@.len() ==> list@ == old(self)@ && final(self)@ == Seq::<
                Handle,
            >::empty(),
            n < old(self)@.len() ==> list@ == old(self)@.take(n as int) && final(self)@
                == old(self)@.skip(n as int),
    {
        let mut list = HandleList::new();
        if n >= self.handles.len() {
            core::mem::swap(&mut list.handles, &mut self.handles);
            return list;
        }
        let mut rest = self.handles.split_off(n);
        core::mem::swap(&mut rest, &mut self.handles);
        list.handles = rest;
        list
    }

    /// The number of handles in the list.
    pub fn len(&self) -> (len: usize)
        ensures
            len == self@.len(),
    {
        self.handles.len()
    }

    /// Whether the list is empty.
    pub fn is_empty(&self) -> (empty: bool)
        ensures
            empty == (self@.len() == 0),
    {
        self.handles.len() == 0
    }

    /// Moves the handles of a vector to the back of the list.
    pub fn extend(&mut self, batch: Vec<Handle>)
        ensures
            final(self)@ == old(self)@ + batch@,
    {
        let mut iter = VecDeque::new();
        let mut batch = batch;
        let ghost all = batch@;
        while batch.len() > 0
            invariant
                batch@ + iter@ == all,
            decreases batch@.len(),
        {
            if let Some(hdl) = batch.pop() {
                iter.push_front(hdl);
                proof {
                    assert(batch@ + iter@ =~= all);
                }
            }
        }
        proof {
            assert(batch@ + iter@ =~= iter@);
        }
        self.handles.append(&mut iter);
    }

    /// A position at the front of the list, from which its handles can be looked at one by one.
    pub fn iter(&self) -> (iter: HandleListIter<'_>)
        ensures
            iter@ == self@,
    {
        HandleListIter { list: self, pos: 0 }
    }

    /// Turns the list into one that gives its handles away one by one.
    pub fn into_iter(self) -> (iter: HandleListIntoIter)
        ensures
            iter@ == self@,
    {
        HandleListIntoIter { list: self }
    }
}

/// Looks at the handles of a list one by one.
pub struct HandleListIter<'a> {
    list: &'a HandleList,
    pos: usize,
}

impl<'a> View for HandleListIter<'a> {
    type V = Seq<Handle>;

    /// The handles that are still to come.
    closed spec fn view(&self) -> Seq<Handle> {
        self.list@.subrange(min_int(self.pos as int, self.list@.len() as int), self.list@.len() as int)
    }
}

spec fn min_int(a: int, b: int) -> int {
    if a <= b {
        a
    } else {
        b
    }
}

impl<'a> HandleListIter<'a> {
    /// The next handle, if there is one.
    pub fn next(&mut self) -> (hdl: Option<&'a Handle>)
        ensures
            hdl is None <==> old(self)@.len() == 0,
            hdl is None ==> final(self)@ == old(self)@,
            hdl matches Some(hdl) ==> *hdl == old(self)@.first() && final(self)@
                == old(self)@.drop_first(),
    {
        if self.pos < self.list.handles.len() {
            let hdl = &self.list.handles[self.pos];
            self.pos = self.pos + 1;
            Some(hdl)
        } else {
            None
        }
    }

    /// The number of handles that are still to come.
    pub fn count(&self) -> (count: usize)
        ensures
            count == self@.len(),
    {
        if self.pos < self.list.handles.len() {
            self.list.handles.len() - self.pos
        } else {
            0
        }
    }
}

/// Gives the handles of a list away one by one.
pub struct HandleListIntoIter {
    list: HandleList,
}

impl View for HandleListIntoIter {
    type V = Seq<Handle>;

    /// The handles that are still to come.
    closed spec fn view(&self) -> Seq<Handle> {
        self.list@
    }
}

impl HandleListIntoIter {
    /// The next handle, if there is one.
    pub fn next(&mut self) -> (hdl: Option<Handle>)
        ensures
            hdl is None <==> old(self)@.len() == 0,
            hdl is None ==> final(self)@ == old(self)@,
            hdl matches Some(hdl) ==> hdl == old(self)@.first() && final(self)@
                == old(self)@.drop_first(),
    {
        self.list.pop_front()
    }

    /// The number of handles that are still to come.
    pub fn count(&self) -> (count: usize)
        ensures
            count == self@.len(),
    {
        self.list.len()
    }
}

/// However pushes at the back and pops at the front are mixed, the handles come out in the order
/// in which they went in, and the rest is still in the list.
pub proof fn handle_list_is_fifo(lists: Seq<Seq<Handle>>, passings: Seq<fifo::Passing<Handle>>)
    requires
        fifo::history(lists, passings),
    ensures
        fifo::taken_out(passings) + lists.last() == lists[0] + fifo::put_in(passings),
{
    fifo::taken_out_in_the_order_put_in(lists, passings);
}

/// Splitting a list and appending the rest again gives the list back.
pub proof fn split_then_append_restores(list: Seq<Handle>, n: nat)
    requires
        n <= list.len(),
    ensures
        list.take(n as int) + list.skip(n as int) == list,
{
    assert(list.take(n as int) + list.skip(n as int) =~= list);
}

/// Wherever a coroutine goes, and however often it is parked and goes on, it stays the same one,
/// with its name and its stack; only its state changes, to the last one that it was given.
pub proof fn coroutine_stays_the_same(
    first: Handle,
    middle: Handle,
    last: Handle,
    to: State,
    then_to: State,
)
    requires
        middle.moved_to(first, to),
        last.moved_to(middle, then_to),
    ensures
        last.spec_id() == first.spec_id(),
        last.spec_coro().spec_name() == first.spec_coro().spec_name(),
        last.spec_coro().spec_stack() == first.spec_coro().spec_stack(),
        middle.spec_state() == to,
        last.spec_state() == then_to,
{
}

} // verus!
