use crate::message::Message;
use std::sync::mpsc::RecvError;
use vstd::prelude::*;

verus! {

/// What a worker does next, decided from what its blocking receive returned.
pub enum WorkerAction<T> {
    /// Run this unit of work to completion, then receive again.
    Run(T),
    /// Stop receiving and let the thread end.
    Exit,
}

/// The rule of the worker loop: a unit of work is run; a shutdown signal
/// ends the worker; so does a receive error, which means that the queue is
/// empty and that nothing more will ever arrive.
pub open spec fn worker_action<T>(received: Result<Message<T>, RecvError>) -> WorkerAction<T> {
    match received {
        Ok(Message::Task(work)) => WorkerAction::Run(work),
        Ok(Message::Terminate) => WorkerAction::Exit,
        Err(_) => WorkerAction::Exit,
    }
}

/// One decision of a worker. The caller performs the blocking receive, hands
/// its result in, and then either runs the unit it gets back and calls again
/// with the next result, or leaves its loop.
pub fn worker_step<T>(received: Result<Message<T>, RecvError>) -> (action: WorkerAction<T>)
    ensures
        action == worker_action(received),
{
    match received {
        Ok(Message::Task(work)) => WorkerAction::Run(work),
        Ok(Message::Terminate) => WorkerAction::Exit,
        Err(_) => WorkerAction::Exit,
    }
}

} // verus!
