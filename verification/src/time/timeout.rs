//! The error of a future that did not finish in time, and the decision of one poll of
//! a future raced against a timer.
use vstd::prelude::*;

verus! {

/// A future ran out of time.
#[derive(Debug)]
pub struct TimeoutError;

impl TimeoutError {
    /// The error's text, `"TimeoutError"`.
    pub fn to_string(&self) -> (r: String)
        ensures
            r@ == "TimeoutError"@,
    {
        "TimeoutError".to_owned()
    }
}

/// The answer of one poll of a future raced against a timer.
pub enum TimeoutPoll<T> {
    Ready(Result<T, TimeoutError>),
    Pending,
}

/// Decides one poll: once the timer has fired the answer is the timeout error, whatever
/// the future did; otherwise it is the future's output when it has one, and pending
/// when it has none. The future is polled only when the timer has not fired.
pub fn timeout_outcome<T>(sleep_ready: bool, fut_output: Option<T>) -> (r: TimeoutPoll<T>)
    ensures
        sleep_ready ==> r == TimeoutPoll::<T>::Ready(Err(TimeoutError)),
        !sleep_ready ==> r == match fut_output {
            Some(v) => TimeoutPoll::Ready(Ok(v)),
            None => TimeoutPoll::<T>::Pending,
        },
{
    if sleep_ready {
        return TimeoutPoll::Ready(Err(TimeoutError));
    }
    match fut_output {
        Some(v) => TimeoutPoll::Ready(Ok(v)),
        None => TimeoutPoll::Pending,
    }
}

} // verus!
