use crate::message::Message;
use std::sync::mpsc::SendError;
use vstd::prelude::*;
use vstd::std_specs::convert::FromSpecImpl;

verus! {

/// Why the pool could not take a unit of work.
#[derive(Debug)]
#[verifier::reject_recursive_types(T)]
pub enum ThreadPoolError<T> {
    /// The queue is disconnected: every worker has gone. The error holds the
    /// message that could not be queued, and with it the unit of work.
    SendTaskError(SendError<Message<T>>),
}

impl<T> From<SendError<Message<T>>> for ThreadPoolError<T> {
    fn from(e: SendError<Message<T>>) -> (err: Self) {
        ThreadPoolError::SendTaskError(e)
    }
}

impl<T> FromSpecImpl<SendError<Message<T>>> for ThreadPoolError<T> {
    open spec fn obeys_from_spec() -> bool {
        true
    }

    open spec fn from_spec(e: SendError<Message<T>>) -> Self {
        ThreadPoolError::SendTaskError(e)
    }
}

} // verus!
