//! How a context runs its tasks: on a pool of workers, or on its reactor
//! thread through a queue of spawned tasks.

use vstd::prelude::*;

verus! {

/// The way a context executes its tasks, fixed when the context is built.
#[derive(Clone, Copy, PartialEq, Eq, Structural, Debug)]
pub enum ExecutorMode {
    /// A pool of worker threads sharing the reactor; `None` lets the pool
    /// pick its own size.
    Pooled { workers: Option<usize> },
    /// One thread that interleaves the tasks with turning the reactor.
    Cooperative,
}

impl ExecutorMode {
    /// The mode for a requested thread count: a negative count asks for the
    /// cooperative thread, zero for a pool of default size, and a positive
    /// count for a pool of that many workers.
    pub fn for_thread_count(n_threads: isize) -> (r: ExecutorMode)
        ensures
            n_threads < 0 ==> r == ExecutorMode::Cooperative,
            n_threads == 0 ==> r == (ExecutorMode::Pooled { workers: None }),
            n_threads > 0 ==> r == (ExecutorMode::Pooled { workers: Some(n_threads as usize) }),
    {
        if n_threads < 0 {
            ExecutorMode::Cooperative
        } else if n_threads == 0 {
            ExecutorMode::Pooled { workers: None }
        } else {
            ExecutorMode::Pooled { workers: Some(n_threads as usize) }
        }
    }
}

/// Tasks spawned on a cooperative context and not yet picked up by its thread.
pub struct SpawnQueue<T> {
    tasks: Vec<T>,
}

impl<T> View for SpawnQueue<T> {
    type V = Seq<T>;

    closed spec fn view(&self) -> Seq<T> {
        self.tasks@
    }
}

impl<T> SpawnQueue<T> {
    pub fn new() -> (r: Self)
        ensures
            r@ == Seq::<T>::empty(),
    {
        SpawnQueue { tasks: Vec::new() }
    }

    /// Queues `task`; the queue grows as needed and never refuses one.
    pub fn push(&mut self, task: T)
        ensures
            final(self)@ == old(self)@.push(task),
    {
        self.tasks.push(task);
    }

    /// Hands out every queued task and leaves the queue empty.
    pub fn take_all(&mut self) -> (r: Vec<T>)
        ensures
            r@ == old(self)@,
            final(self)@ == Seq::<T>::empty(),
    {
        let mut taken: Vec<T> = Vec::new();
        std::mem::swap(&mut self.tasks, &mut taken);
        taken
    }
}

} // verus!
