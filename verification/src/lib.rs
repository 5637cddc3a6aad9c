//! Coroutine scheduling with work stealing and asynchronous I/O support.
//!
//! What the coroutines, the processors and the scheduler do to each other is here; switching
//! stacks, threads, sockets and locks are up to the program around it, which holds one lock while
//! it calls into this library.

use vstd::prelude::*;

use crate::options::Options;
use crate::runtime::processor;
use crate::runtime::processor::Processor;
use crate::runtime::stack_pool::StackUnavailable;
use crate::runtime::timer::LocalTime;
use crate::scheduler::Scheduler;

pub mod coroutine;
pub mod fifo;
pub mod join_handle;
pub mod net;
pub mod options;
pub mod promise;
pub mod runtime;
pub mod scheduler;
pub mod slots;
pub mod sync;

verus! {

/// Who has to give way.
#[derive(Debug, Clone, Copy, PartialEq, Eq, Structural)]
pub enum GiveWay {
    /// The coroutine, to the processor.
    Coroutine,
    /// The thread, to the system, as there is no coroutine.
    Thread,
}

/// Gives up the CPU: on a processor its coroutine is suspended, else the thread has to give way.
pub fn sched(p: Option<&mut Processor>) -> (give_way: GiveWay)
    ensures
        match p {
            Some(p) => {
                &&& give_way == GiveWay::Coroutine
                &&& final(p).same_but_current(*p)
                &&& processor::yielded(
                    p.current_coro,
                    final(p).current_coro,
                    coroutine::State::Suspended,
                )
            },
            None => give_way == GiveWay::Thread,
        },
{
    match p {
        Some(p) => {
            p.sched();
            GiveWay::Coroutine
        },
        None => GiveWay::Thread,
    }
}

/// Puts the coroutine of a processor to sleep for so many milliseconds. Without a scheduler the
/// thread has to sleep.
pub fn sleep_ms(scheduler: Option<&mut Scheduler>, id: usize, ms: u64) -> (give_way: GiveWay)
    requires
        scheduler matches Some(s) ==> {
            &&& s.wf()
            &&& id < s.machines.processors@.len()
            &&& s.machines.processors@[id as int].current_coro is Some
            &&& s.timer.spec_next_number() < u64::MAX
        },
    ensures
        match scheduler {
            Some(s) => {
                &&& give_way == GiveWay::Coroutine
                &&& final(s).wf()
                &&& exists|now: LocalTime|
                    now.on_clock() && #[trigger] scheduler::put_to_sleep(
                        *s,
                        *final(s),
                        id as int,
                        now,
                        ms,
                    )
            },
            None => give_way == GiveWay::Thread,
        },
{
    match scheduler {
        Some(s) => {
            s.sleep_ms(id, ms);
            GiveWay::Coroutine
        },
        None => GiveWay::Thread,
    }
}

/// Coroutine configuration. Provides detailed control over the properties and behavior of new
/// coroutines.
pub struct Builder {
    opts: Options,
}

impl Builder {
    /// The options that were chosen.
    pub closed spec fn spec_opts(&self) -> Options {
        self.opts
    }

    /// The base configuration for spawning a coroutine, from which configuration methods can be
    /// chained.
    pub fn new() -> (builder: Builder)
        ensures
            builder.spec_opts().stack_size == options::DEFAULT_STACK,
            builder.spec_opts().name is None,
    {
        Builder { opts: Options::new() }
    }

    /// Sets the size of the stack for the new coroutine.
    pub fn stack_size(self, stack_size: usize) -> (builder: Builder)
        ensures
            builder.spec_opts() == (Options { stack_size, ..self.spec_opts() }),
    {
        let mut builder = self;
        builder.opts.stack_size = stack_size;
        builder
    }

    /// Names the coroutine-to-be.
    pub fn name(self, name: String) -> (builder: Builder)
        ensures
            builder.spec_opts() == (Options { name: Some(name), ..self.spec_opts() }),
    {
        let mut builder = self;
        builder.opts.name = Some(name);
        builder
    }

    /// Makes a coroutine with this configuration and makes it ready on a processor; tells how
    /// many times to wake up a processor.
    pub fn spawn(self, scheduler: &mut Scheduler, id: usize) -> (result: Result<
        usize,
        StackUnavailable,
    >)
        requires
            old(scheduler).wf(),
            id < old(scheduler).machines.processors@.len(),
        ensures
            final(scheduler).wf(),
            scheduler::scheduler_spawned(
                *old(scheduler),
                *final(scheduler),
                id as int,
                self.spec_opts(),
                result,
            ),
    {
        scheduler.spawn_opts(id, self.opts)
    }
}

} // verus!
