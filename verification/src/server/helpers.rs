//! Servers made from a handler function, with or without state.
use vstd::prelude::*;
use std::marker::PhantomData;

verus! {

/// A stateless server made from a handler function.
pub struct StatelessAsyncFnServer<H>(pub H);

impl<H> StatelessAsyncFnServer<H> {
    /// Makes a server from the handler.
    pub fn new(h: H) -> (r: Self)
        ensures
            r.0 == h,
    {
        Self(h)
    }
}

/// A server made from a handler function and the state it is handed.
pub struct AsyncFnServer<H, S>(pub H, pub S);

impl<H, S> AsyncFnServer<H, S> {
    /// Makes a server from the handler and its initial state.
    pub fn new(h: H, state: S) -> (r: Self)
        ensures
            r.0 == h,
            r.1 == state,
    {
        Self(h, state)
    }
}

/// A zero-sized value that ties the lifetime of a request to that of the executor and
/// state that serve it.
pub struct LifetimeDummy<'exec, 'req>(PhantomData<&'req &'exec ()>);

impl<'exec, 'req> Default for LifetimeDummy<'exec, 'req> {
    /// The only value of the type.
    fn default() -> Self {
        LifetimeDummy(PhantomData)
    }
}

/// How many worker threads the multi-threaded server starts.
pub enum ThreadCount {
    /// As many as the machine runs in parallel, or one when that is unknown.
    Default,
    /// Exactly this many.
    Count(usize),
}

impl Default for ThreadCount {
    fn default() -> (r: Self)
        ensures
            r is Default,
    {
        ThreadCount::Default
    }
}

/// The number of worker threads, given how many threads the machine runs in parallel
/// (`available`, when it is known).
pub fn resolve_thread_count(num_threads: ThreadCount, available: Option<usize>) -> (r: usize)
    ensures
        r == match num_threads {
            ThreadCount::Default => match available {
                Some(n) => n,
                None => 1,
            },
            ThreadCount::Count(n) => n,
        },
{
    match num_threads {
        ThreadCount::Default => match available {
            Some(n) => n,
            None => 1,
        },
        ThreadCount::Count(n) => n,
    }
}

} // verus!
