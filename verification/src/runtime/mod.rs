//! The machinery that runs coroutines on the worker threads.

pub mod machines;
pub mod notifier;
pub mod processor;
pub mod random_order;
pub mod run_queue;
pub mod stack_pool;
pub mod timer;
