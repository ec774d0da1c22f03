//! The error of a join handle whose task gave no result.
use vstd::prelude::*;

verus! {

/// A spawned task's result could not be received.
#[derive(Debug)]
pub struct JoinHandleError {
    msg: String,
}

impl JoinHandleError {
    /// An error that reads `msg`.
    pub fn new(msg: String) -> (r: Self)
        ensures
            r.message() == msg@,
    {
        JoinHandleError { msg }
    }

    /// The error's text.
    pub closed spec fn message(&self) -> Seq<char> {
        self.msg@
    }

    /// The error's text.
    pub fn to_string(&self) -> (r: String)
        ensures
            r@ == self.message(),
    {
        self.msg.clone()
    }
}

} // verus!
