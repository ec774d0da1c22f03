//! What the reactor records of an I/O source.
use vstd::prelude::*;

verus! {

/// Whether a source's event has happened, or which waker waits for it.
#[derive(Debug)]
pub enum Status {
    Awaited(std::task::Waker),
    Happened,
}

} // verus!
