# coio

Coroutine scheduling with work stealing and asynchronous I/O.

- `src/` is the verified library: coroutines and their states, the queues of the processors and
  how they steal from each other, the timer, the scheduler with its event loop, and what
  coroutines use to wait for each other (condition variables, semaphores, mutexes, barriers,
  channels, futures). Each function states what it does in its contract, and each module ends with
  the laws that hold between its functions.
- `tests/` runs the library, with coroutines as small state machines.
- `app/` is the program around the library: it switches stacks, starts threads, polls sockets and
  holds one lock while it calls into the library.

What comes from other crates stands behind functions whose contracts are taken on trust: the
ordered map of `linked-hash-map`, the stacks of `context`, the slots of `slab`, the random numbers
of `rand` and the clock of `chrono`. The comment above each of them says what it relies on.
