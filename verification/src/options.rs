//! Coroutine options.

use vstd::prelude::*;

verus! {

/// Default coroutine stack size, 128KB.
pub const DEFAULT_STACK: usize = 128 * 1024;

/// Coroutine options.
#[derive(Debug)]
pub struct Options {
    pub stack_size: usize,
    pub name: Option<String>,
}

impl Options {
    /// The default configuration: a stack of `DEFAULT_STACK` bytes and no name.
    pub fn new() -> (options: Options)
        ensures
            options.stack_size == DEFAULT_STACK,
            options.name is None,
    {
        Options { stack_size: DEFAULT_STACK, name: None }
    }

    /// Sets the stack size.
    pub fn stack_size(&mut self, size: usize) -> (options: &mut Options)
        ensures
            options.stack_size == size,
            options.name == old(self).name,
            *final(self) == *final(options),
    {
        self.stack_size = size;
        self
    }

    /// Sets the name.
    pub fn name(&mut self, name: String) -> (options: &mut Options)
        ensures
            options.stack_size == old(self).stack_size,
            options.name == Some(name),
            *final(self) == *final(options),
    {
        self.name = Some(name);
        self
    }
}

impl Clone for Options {
    fn clone(&self) -> (options: Options)
        ensures
            options == *self,
    {
        let name = match &self.name {
            Some(name) => Some(name.clone()),
            None => None,
        };
        Options { stack_size: self.stack_size, name }
    }
}

impl Default for Options {
    fn default() -> (options: Options)
        ensures
            options.stack_size == DEFAULT_STACK,
            options.name is None,
    {
        Options::new()
    }
}

} // verus!
