//! A model of the whole pool: the handle, the queue and the workers, moving
//! one step at a time in any interleaving.
//!
//! The model is built from the same rules that the executable code follows:
//! a worker acts on a message as `worker_action` says, a submission returns
//! what `submission_result` says, and teardown hands out what
//! `teardown_plan` says. What it adds is the behaviour of the queue and of
//! the threads around those rules, which is what the guarantees of the pool
//! rest on.
//!
//! The model follows a pool whose handle is kept until teardown is over and
//! whose units of work run to completion. A unit that fails may take its
//! worker's thread with it; what becomes of the pool then is not described
//! here.

use crate::error::ThreadPoolError;
use crate::message::Message;
use crate::queue::queue_send;
use crate::thread_pool::{submission_result, teardown_plan};
use crate::worker::{worker_action, WorkerAction};
use vstd::multiset::Multiset;
use vstd::prelude::*;

verus! {

/// What one worker is doing.
pub enum WorkerState<T> {
    /// Waiting in its receive.
    Idle,
    /// Running this unit of work.
    Busy(T),
    /// Left its loop; its thread has ended and its hold on the queue is gone.
    Exited,
}

/// One move of the system.
pub enum Step<T> {
    /// A caller submits a unit of work.
    Execute(T),
    /// The owner of the handle begins teardown.
    Shutdown,
    /// Teardown sends one of the shutdown signals that it owes.
    Signal,
    /// Teardown joins the next worker, which has exited.
    Join,
    /// The worker with this index takes the oldest message from the queue.
    Receive(int),
    /// The worker with this index completes the unit that it is running.
    Finish(int),
}

/// The state of a pool and everything around it. Workers are known by their
/// index in the order of creation.
#[verifier::ext_equal]
pub struct PoolModel<T> {
    /// The workers that the handle tracks: what `FixedThreadPool::workers`
    /// is for a pool whose handles are the workers' indices.
    pub roster: Option<Seq<int>>,
    /// Every message that the queue has accepted, oldest first.
    pub sent: Seq<Message<T>>,
    /// How many of them the workers have taken. The rest is waiting.
    pub taken: nat,
    /// What each worker is doing.
    pub workers: Seq<WorkerState<T>>,
    /// Shutdown signals that teardown has yet to send.
    pub signals_due: nat,
    /// Workers that teardown has yet to join, next first.
    pub joins_due: Seq<int>,
    /// Workers that teardown has joined, first first.
    pub joined: Seq<int>,
    /// The units of work that have run to completion, in that order.
    pub completed: Seq<T>,
    /// How many messages the queue had accepted when teardown began.
    pub cut: nat,
}

/// The indices `0, 1, .., n - 1`.
pub open spec fn indices(n: nat) -> Seq<int> {
    Seq::new(n, |i: int| i)
}

/// The units of work among `messages`, in their order.
pub open spec fn units_of<T>(messages: Seq<Message<T>>) -> Seq<T>
    decreases messages.len(),
{
    if messages.len() == 0 {
        Seq::empty()
    } else {
        match messages.last() {
            Message::Task(work) => units_of(messages.drop_last()).push(work),
            Message::Terminate => units_of(messages.drop_last()),
        }
    }
}

/// How many shutdown signals are among `messages`.
pub open spec fn signals_in<T>(messages: Seq<Message<T>>) -> nat
    decreases messages.len(),
{
    if messages.len() == 0 {
        0
    } else {
        match messages.last() {
            Message::Task(_) => signals_in(messages.drop_last()),
            Message::Terminate => signals_in(messages.drop_last()) + 1,
        }
    }
}

/// How many of `workers` have exited.
pub open spec fn exited_count<T>(workers: Seq<WorkerState<T>>) -> nat
    decreases workers.len(),
{
    if workers.len() == 0 {
        0
    } else {
        match workers.last() {
            WorkerState::Exited => exited_count(workers.drop_last()) + 1,
            _ => exited_count(workers.drop_last()),
        }
    }
}

/// The units of work that `workers` are running.
pub open spec fn running<T>(workers: Seq<WorkerState<T>>) -> Multiset<T>
    decreases workers.len(),
{
    if workers.len() == 0 {
        Multiset::empty()
    } else {
        match workers.last() {
            WorkerState::Busy(work) => running(workers.drop_last()).insert(work),
            _ => running(workers.drop_last()),
        }
    }
}

/// The units of work that `steps` submit, in that order.
pub open spec fn submitted<T>(steps: Seq<Step<T>>) -> Seq<T>
    decreases steps.len(),
{
    if steps.len() == 0 {
        Seq::empty()
    } else {
        match steps.last() {
            Step::Execute(f) => submitted(steps.drop_last()).push(f),
            _ => submitted(steps.drop_last()),
        }
    }
}

/// Nothing is submitted once teardown has begun: the pool is torn down by
/// the caller that used it, after its last submission, and not while others
/// still submit.
pub open spec fn orderly<T>(steps: Seq<Step<T>>) -> bool {
    forall|i: int, j: int|
        0 <= i < j < steps.len() && #[trigger] steps[i] is Shutdown ==> !(#[trigger] steps[j]
            is Execute)
}

/// Whether teardown begins somewhere in `steps`.
pub open spec fn begins_teardown<T>(steps: Seq<Step<T>>) -> bool {
    exists|i: int| 0 <= i < steps.len() && #[trigger] steps[i] is Shutdown
}

/// The unit of work that a worker in this state is running, as a sequence
/// of one or none.
pub open spec fn hand<T>(state: WorkerState<T>) -> Seq<T> {
    match state {
        WorkerState::Busy(work) => seq![work],
        _ => Seq::empty(),
    }
}

/// The state of a worker after it has acted on a received message.
pub open spec fn after_receiving<T>(message: Message<T>) -> WorkerState<T> {
    match worker_action(Ok(message)) {
        WorkerAction::Run(work) => WorkerState::Busy(work),
        WorkerAction::Exit => WorkerState::Exited,
    }
}

impl<T> PoolModel<T> {
    /// A pool as `FixedThreadPool::new` leaves it: `n` idle workers on an
    /// empty queue, all roster by the handle.
    pub open spec fn init(n: nat) -> Self {
        PoolModel {
            roster: Some(indices(n)),
            sent: Seq::empty(),
            taken: 0,
            workers: Seq::new(n, |i: int| WorkerState::Idle),
            signals_due: 0,
            joins_due: Seq::empty(),
            joined: Seq::empty(),
            completed: Seq::empty(),
            cut: 0,
        }
    }

    /// Whether worker `i` exists and has exited.
    pub open spec fn has_exited(self, i: int) -> bool {
        0 <= i < self.workers.len() && self.workers[i] is Exited
    }

    /// Whether some worker still holds the receiving half of the queue.
    pub open spec fn connected(self) -> bool {
        exists|i: int| 0 <= i < self.workers.len() && !(#[trigger] self.workers[i] is Exited)
    }

    /// Teardown has not begun.
    pub open spec fn is_active(self) -> bool {
        self.roster is Some
    }

    /// Teardown is over: every signal is sent and every worker joined.
    pub open spec fn is_terminated(self) -> bool {
        self.roster is None && self.signals_due == 0 && self.joins_due.len() == 0
    }

    /// The units of work that the pool has accepted, in that order.
    pub open spec fn accepted(self) -> Seq<T> {
        units_of(self.sent)
    }

    /// The units of work that the pool had accepted when teardown began.
    pub open spec fn accepted_before_teardown(self) -> Seq<T> {
        units_of(self.sent.take(self.cut as int))
    }

    /// A submission: the state after it, and what `execute` returns.
    pub open spec fn execute(self, f: T) -> (Self, Result<(), ThreadPoolError<T>>) {
        let sent = queue_send(self.connected(), Message::Task(f));
        let after = if sent is Ok {
            PoolModel { sent: self.sent.push(Message::Task(f)), ..self }
        } else {
            self
        };
        (after, submission_result(sent))
    }

    /// The handle's part of teardown: it stops tracking its workers, and
    /// owes one signal and one join for each of them.
    pub open spec fn shutdown(self) -> Self {
        let joinable = teardown_plan(self.roster);
        PoolModel {
            roster: None,
            signals_due: self.signals_due + joinable.len(),
            joins_due: self.joins_due + joinable,
            cut: if self.roster is Some {
                self.sent.len()
            } else {
                self.cut
            },
            ..self
        }
    }

    /// Teardown sends one signal that it owes. The result of the send is
    /// not looked at.
    pub open spec fn signal(self) -> Self {
        if self.signals_due > 0 {
            let sent = queue_send(self.connected(), Message::<T>::Terminate);
            PoolModel {
                sent: if sent is Ok {
                    self.sent.push(Message::Terminate)
                } else {
                    self.sent
                },
                signals_due: (self.signals_due - 1) as nat,
                ..self
            }
        } else {
            self
        }
    }

    /// Teardown joins the next worker. A join waits for the thread to end,
    /// so the step happens only once that worker has exited, and only after
    /// all signals are sent.
    pub open spec fn join(self) -> Self {
        if self.signals_due == 0 && self.joins_due.len() > 0 && self.has_exited(
            self.joins_due[0],
        ) {
            PoolModel {
                joins_due: self.joins_due.drop_first(),
                joined: self.joined.push(self.joins_due[0]),
                ..self
            }
        } else {
            self
        }
    }

    /// An idle worker takes the oldest waiting message and acts on it.
    pub open spec fn receive(self, i: int) -> Self {
        if 0 <= i < self.workers.len() && self.workers[i] is Idle && self.taken < self.sent.len() {
            PoolModel {
                taken: self.taken + 1,
                workers: self.workers.update(i, after_receiving(self.sent[self.taken as int])),
                ..self
            }
        } else {
            self
        }
    }

    /// A busy worker completes its unit and goes back to its receive.
    pub open spec fn finish(self, i: int) -> Self {
        if 0 <= i < self.workers.len() && self.workers[i] is Busy {
            PoolModel {
                workers: self.workers.update(i, WorkerState::Idle),
                completed: self.completed.push(self.workers[i]->Busy_0),
                ..self
            }
        } else {
            self
        }
    }

    /// The state after one step. A step that cannot happen in this state
    /// leaves it as it is.
    pub open spec fn next(self, step: Step<T>) -> Self {
        match step {
            Step::Execute(f) => self.execute(f).0,
            Step::Shutdown => self.shutdown(),
            Step::Signal => self.signal(),
            Step::Join => self.join(),
            Step::Receive(i) => self.receive(i),
            Step::Finish(i) => self.finish(i),
        }
    }

    /// The state of a pool of `n` workers after `steps`, in that order.
    pub open spec fn run(n: nat, steps: Seq<Step<T>>) -> Self
        decreases steps.len(),
    {
        if steps.len() == 0 {
            Self::init(n)
        } else {
            Self::run(n, steps.drop_last()).next(steps.last())
        }
    }
}

} // verus!
