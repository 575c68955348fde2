use vstd::prelude::*;

verus! {

/// What travels on the shared queue: a unit of work to run, or the signal
/// that tells the worker that reads it to stop.
///
/// Work and shutdown share one queue, so a shutdown signal never overtakes
/// work that was queued before it.
pub enum Message<T> {
    Task(T),
    Terminate,
}

} // verus!
