//! The life of a future that hands one piece of blocking work to the thread pool on its
//! first poll, and then waits for the result.
use vstd::prelude::*;

verus! {

/// What a poll of such a future must do.
#[derive(Debug, PartialEq, Eq, Structural)]
pub enum OffloadStep {
    /// Hand the work over and register the waker; the future is pending.
    Start,
    /// The work is under way and no result has arrived; the future is pending.
    Wait,
    /// The result has arrived; the future is ready with it.
    Finish,
}

/// The step a poll takes, given whether the work was handed over already and whether
/// its result has arrived.
pub open spec fn offload_step(started: bool, result_ready: bool) -> OffloadStep {
    if !started {
        OffloadStep::Start
    } else if result_ready {
        OffloadStep::Finish
    } else {
        OffloadStep::Wait
    }
}

/// Whether the work has been handed over.
pub struct Offload {
    has_polled: bool,
}

impl Offload {
    /// Whether the work has been handed over.
    pub closed spec fn started(&self) -> bool {
        self.has_polled
    }

    /// A future that has not been polled yet.
    pub fn new() -> (r: Self)
        ensures
            !r.started(),
    {
        Offload { has_polled: false }
    }

    /// Decides one poll: the first one starts the work, later ones finish when the
    /// result has arrived and wait otherwise.
    pub fn step(&mut self, result_ready: bool) -> (r: OffloadStep)
        ensures
            r == offload_step(old(self).started(), result_ready),
            final(self).started(),
    {
        if !self.has_polled {
            self.has_polled = true;
            OffloadStep::Start
        } else if result_ready {
            OffloadStep::Finish
        } else {
            OffloadStep::Wait
        }
    }
}

/// The work is handed over exactly once: only the first poll starts it, and whatever
/// any later poll sees, it does not start it again.
pub proof fn law_work_starts_once(result_ready: bool)
    ensures
        offload_step(false, result_ready) == OffloadStep::Start,
        offload_step(true, result_ready) != OffloadStep::Start,
{
}

/// A started future finishes exactly when its result has arrived.
pub proof fn law_finishes_with_result(result_ready: bool)
    ensures
        (offload_step(true, result_ready) == OffloadStep::Finish) == result_ready,
{
}

} // verus!
