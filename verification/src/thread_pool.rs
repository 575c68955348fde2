use crate::error::ThreadPoolError;
use crate::message::Message;
use crate::queue::{another_pointer, queue_send};
use std::sync::mpsc::{channel, Receiver, SendError, Sender};
use std::sync::{Arc, Mutex};
use vstd::prelude::*;

verus! {

/// The receiving half of the queue as the workers hold it: shared by all of
/// them, behind a lock that lets one worker at a time take the next message.
pub type SharedReceiver<T> = Arc<Mutex<Receiver<Message<T>>>>;

/// What `execute` returns for each outcome of the send.
pub open spec fn submission_result<T>(sent: Result<(), SendError<Message<T>>>) -> Result<
    (),
    ThreadPoolError<T>,
> {
    match sent {
        Ok(()) => Ok(()),
        Err(refused) => Err(ThreadPoolError::SendTaskError(refused)),
    }
}

/// Turns the outcome of a send into the result of a submission: success
/// stays success, and a refused send becomes `SendTaskError` around the same
/// error.
pub fn submission_outcome<T>(sent: Result<(), SendError<Message<T>>>) -> (res: Result<
    (),
    ThreadPoolError<T>,
>)
    ensures
        res == submission_result(sent),
{
    match sent {
        Ok(()) => Ok(()),
        Err(refused) => Err(ThreadPoolError::from(refused)),
    }
}

/// The handles that a teardown hands out for joining, given the workers
/// that the pool still tracks: all of them, in the order in which they were
/// created, the first time; none once they have been handed out.
pub open spec fn teardown_plan<H>(workers: Option<Seq<H>>) -> Seq<H> {
    match workers {
        Some(handles) => handles,
        None => Seq::empty(),
    }
}

/// Every handle of `handles` is something that `spawn` may return when it is
/// given `queue`.
pub open spec fn started_on<T, H, F: Fn(SharedReceiver<T>) -> H>(
    spawn: F,
    queue: SharedReceiver<T>,
    handles: Seq<H>,
) -> bool {
    forall|i: int| 0 <= i < handles.len() ==> spawn.ensures((queue,), #[trigger] handles[i])
}

/// The pool handle: the sending half of the queue, and one handle for each
/// worker until teardown hands them out.
///
/// `T` is the unit of work that the queue carries. `H` is whatever the
/// caller's `spawn` returns for a started worker; the pool keeps these in
/// the order of creation and never looks inside.
#[verifier::reject_recursive_types(T)]
pub struct FixedThreadPool<T, H> {
    threads: Option<Vec<H>>,
    queue_sender: Sender<Message<T>>,
}

impl<T, H> FixedThreadPool<T, H> {
    /// A pool never tracks an empty set of workers.
    #[verifier::type_invariant]
    spec fn never_empty(self) -> bool {
        self.threads matches Some(handles) ==> handles.len() > 0
    }

    /// The workers that the pool tracks, in the order of their creation;
    /// `None` once teardown has handed them out.
    pub closed spec fn workers(self) -> Option<Seq<H>> {
        match self.threads {
            Some(handles) => Some(handles@),
            None => None,
        }
    }

    /// The sending half of the queue that this handle holds.
    pub closed spec fn sender(self) -> Sender<Message<T>> {
        self.queue_sender
    }

    /// Whether teardown has not begun yet.
    pub open spec fn is_active(self) -> bool {
        self.workers() is Some
    }

    /// Makes the queue and starts `n` workers on it.
    ///
    /// `spawn` is called exactly `n` times, each time with a pointer to the
    /// one shared receiving half, and must start a worker that receives from
    /// it until `worker_step` tells it to stop. What `spawn` returns is kept
    /// as that worker's handle.
    pub fn new<F>(n: usize, spawn: F) -> (pool: Self) where F: Fn(SharedReceiver<T>) -> H
        requires
            n > 0,
            forall|queue: SharedReceiver<T>| spawn.requires((queue,)),
        ensures
            pool.is_active(),
            pool.workers().unwrap().len() == n,
            exists|queue: SharedReceiver<T>| #[trigger]
                started_on(spawn, queue, pool.workers().unwrap()),
    {
        let (queue_sender, queue_receiver) = channel::<Message<T>>();
        let queue_receiver: SharedReceiver<T> = Arc::new(Mutex::new(queue_receiver));
        let mut threads: Vec<H> = Vec::with_capacity(n);
        let mut started: usize = 0;
        while started < n
            invariant
                started <= n,
                threads.len() == started,
                forall|queue: SharedReceiver<T>| spawn.requires((queue,)),
                forall|i: int|
                    0 <= i < started ==> spawn.ensures((queue_receiver,), #[trigger] threads[i]),
            decreases n - started,
        {
            let receiver = another_pointer(&queue_receiver);
            threads.push(spawn(receiver));
            started += 1;
        }
        let pool = FixedThreadPool { threads: Some(threads), queue_sender };
        assert(started_on(spawn, queue_receiver, pool.workers().unwrap()));
        pool
    }

    /// Queues a unit of work and returns at once, without waiting for the
    /// work to start or finish.
    ///
    /// The unit is handed, as a `Task` message, to one send on the pool's
    /// own sending half, and the result is what `submission_result` makes
    /// of the outcome of that send. The queue decides the outcome: the send
    /// succeeds while at least one worker still holds the receiving half,
    /// and fails once every worker has gone. On failure the error holds the
    /// very unit that was handed in, and no worker will ever see it.
    pub fn execute(&self, f: T) -> (res: Result<(), ThreadPoolError<T>>)
        ensures
            res == submission_result(queue_send(res is Ok, Message::Task(f))),
            exists|sent: Result<(), SendError<Message<T>>>|
                res == submission_result(sent) && #[trigger] call_ensures(
                    Sender::<Message<T>>::send,
                    (&self.sender(), Message::Task(f)),
                    sent,
                ),
    {
        let sent = self.queue_sender.send(Message::Task(f));
        submission_outcome(sent)
    }

    /// Begins teardown: sends one shutdown signal for each worker that the
    /// pool tracks, and hands their handles out, in the order of creation,
    /// for the caller to join one after the other.
    ///
    /// It acts once. A second call finds no worker tracked: it sends
    /// nothing and hands out no handle, so no worker is signalled or joined
    /// twice.
    pub fn shutdown(&mut self) -> (joinable: Vec<H>)
        ensures
            !final(self).is_active(),
            joinable@ == teardown_plan(old(self).workers()),
            old(self).is_active() ==> joinable.len() > 0,
    {
        proof {
            use_type_invariant(&*self);
        }
        let mut tracked_workers: Option<Vec<H>> = None;
        std::mem::swap(&mut self.threads, &mut tracked_workers);
        match tracked_workers {
            Some(threads) => {
                let mut signalled: usize = 0;
                while signalled < threads.len()
                    invariant
                        signalled <= threads.len(),
                    decreases threads.len() - signalled,
                {
                    let _ = self.queue_sender.send(Message::Terminate);
                    signalled += 1;
                }
                threads
            },
            None => Vec::new(),
        }
    }
}

} // verus!
