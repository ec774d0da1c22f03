//! The receiving end of a bounded channel whose task parks in the reactor while no
//! value is waiting.
//!
//! The senders count the values they send in a counter shared with the receiver; a
//! poll that finds the counter at zero answers `Pending`, its caller stores the task's
//! waker under the channel's tag, and a sender's registration of that tag later wakes
//! the task.
use vstd::prelude::*;
use std::sync::Arc;
use std::sync::atomic::AtomicUsize;
use crate::reactor::ReactorTag;

verus! {

#[verifier::external_type_specification]
#[verifier::external_body]
#[verifier::reject_recursive_types(T)]
pub struct ExReceiver<T>(std::sync::mpsc::Receiver<T>);

#[verifier::external_type_specification]
#[verifier::external_body]
pub struct ExTryRecvError(std::sync::mpsc::TryRecvError);

#[verifier::external_type_specification]
#[verifier::external_body]
pub struct ExRecvError(std::sync::mpsc::RecvError);

/// Calls `std::sync::mpsc::Receiver::try_recv`, which takes the oldest value waiting in
/// the channel without blocking. Nothing is claimed: what waits depends on the senders'
/// threads.
#[verifier::external_body]
fn try_recv_value<T>(rx: &std::sync::mpsc::Receiver<T>) -> std::result::Result<T, std::sync::mpsc::TryRecvError> {
    rx.try_recv()
}

/// Turns a failed non-blocking receive into the error of a blocking one,
/// `std::sync::mpsc::RecvError`, which carries nothing.
#[verifier::external_body]
fn recv_error_from(_e: std::sync::mpsc::TryRecvError) -> std::sync::mpsc::RecvError {
    std::sync::mpsc::RecvError
}

/// The outcome of one poll of a receiver: a value or the error of a closed or empty
/// channel, or nothing yet.
pub enum RecvPoll<T> {
    Ready(std::result::Result<T, std::sync::mpsc::RecvError>),
    Pending,
}

/// The receiving end of a bounded channel.
#[verifier::reject_recursive_types(T)]
pub struct BoundedReceiver<T> {
    rx: std::sync::mpsc::Receiver<T>,
    queue_cnt: Arc<AtomicUsize>,
    reactor_tag: ReactorTag,
}

impl<T> BoundedReceiver<T> {
    /// A receiver over `rx`, whose senders count sent values in `queue_cnt`, named
    /// `reactor_tag` in the reactor.
    pub fn new(rx: std::sync::mpsc::Receiver<T>, queue_cnt: Arc<AtomicUsize>, reactor_tag: ReactorTag) -> (r: Self)
        ensures
            r.tag() == reactor_tag,
    {
        BoundedReceiver { rx, queue_cnt, reactor_tag }
    }

    /// The channel's name in the reactor.
    pub closed spec fn tag(&self) -> ReactorTag {
        self.reactor_tag
    }

    /// The channel's name in the reactor.
    pub fn reactor_tag(&self) -> (r: ReactorTag)
        ensures
            r == self.tag(),
    {
        self.reactor_tag
    }

    /// One poll: reads the senders' counter and goes on as `poll_recv_counted` does with
    /// what it read. What the counter holds depends on the senders' threads, so which
    /// answer comes is not stated here. On `Pending` the caller stores its waker under
    /// `reactor_tag()` in the reactor.
    pub fn poll_recv(&self) -> (r: RecvPoll<T>) {
        let queued = self.queue_cnt.load(std::sync::atomic::Ordering::Acquire);
        self.poll_recv_counted(queued)
    }

    /// One poll, given that the senders' counter read `queued`: with no value counted it
    /// answers `Pending`; otherwise it takes the oldest value, counting it off, and
    /// answers `Ready` with it, or with the error when none could be taken.
    pub fn poll_recv_counted(&self, queued: usize) -> (r: RecvPoll<T>)
        ensures
            (r is Pending) == (queued == 0),
    {
        if queued == 0 {
            return RecvPoll::Pending;
        }
        let v = try_recv_value(&self.rx);
        match v {
            Ok(value) => {
                self.queue_cnt.fetch_sub(1, std::sync::atomic::Ordering::Relaxed);
                RecvPoll::Ready(Ok(value))
            },
            Err(e) => RecvPoll::Ready(Err(recv_error_from(e))),
        }
    }

    /// Takes the oldest value waiting in the channel without blocking. What waits
    /// depends on the senders' threads, so nothing is stated of the result.
    pub fn try_recv(&self) -> std::result::Result<T, std::sync::mpsc::TryRecvError> {
        try_recv_value(&self.rx)
    }
}

} // verus!
