//! A fixed-size worker pool: a bounded set of long-lived workers that take
//! units of deferred work from one shared queue, run each to completion, and
//! leave in an orderly way when the pool is torn down.
//!
//! The crate holds the pool handle ([`FixedThreadPool`]), the control
//! messages ([`Message`]), the decision that each worker takes on what it
//! receives ([`worker_step`]), and a model of the whole protocol
//! ([`protocol`]) with the proofs of what the pool guarantees
//! ([`guarantees`]).
//!
//! The pool does not start or join threads itself. The caller hands `new` a
//! function that starts one worker on the shared queue, runs in that worker
//! a loop of blocking receives around `worker_step`, and joins the handles
//! that `shutdown` returns.

pub mod error;
pub mod guarantees;
pub mod message;
pub mod protocol;
pub mod queue;
pub mod reachable;
pub mod thread_pool;
pub mod worker;

pub use crate::error::ThreadPoolError;
pub use crate::message::Message;
pub use crate::thread_pool::{FixedThreadPool, SharedReceiver};
pub use crate::worker::{worker_step, WorkerAction};
