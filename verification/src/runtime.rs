//! Configuration of the runtime, and the guard against running a runtime inside another
//! on the same thread.
use vstd::prelude::*;

verus! {

/// Builder for a runtime: how many worker threads it runs.
pub struct RuntimeBuilder {
    pub num_workers: usize,
}

impl RuntimeBuilder {
    /// A builder for a runtime with one worker.
    pub fn new() -> (r: Self)
        ensures
            r.num_workers == 1,
    {
        Self { num_workers: 1 }
    }

    /// The builder with its number of workers set to `num_workers`.
    pub fn num_workers(self, num_workers: usize) -> (r: Self)
        ensures
            r.num_workers == num_workers,
    {
        let mut b = self;
        b.num_workers = num_workers;
        b
    }
}

impl Default for RuntimeBuilder {
    /// The same as `RuntimeBuilder::new`.
    fn default() -> (r: Self)
        ensures
            r.num_workers == 1,
    {
        Self::new()
    }
}

/// Marks the thread's runtime as running. The thread must not be running one already:
/// a runtime inside a runtime is refused.
pub fn set_runtime_guard(guard: &mut bool)
    requires
        !*old(guard),
    ensures
        *final(guard),
{
    *guard = true;
}

/// Marks the thread's runtime as stopped, so that another may run on it.
pub fn exit_runtime_guard(guard: &mut bool)
    ensures
        !*final(guard),
{
    *guard = false;
}

} // verus!
