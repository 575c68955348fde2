//! What holds in every state that a pool can reach, and why each step keeps
//! it.

use crate::message::Message;
use crate::protocol::{
    after_receiving, exited_count, indices, running, signals_in, units_of, PoolModel, Step,
    WorkerState,
};
use vstd::multiset::Multiset;
use vstd::prelude::*;
use vstd::seq_lib::to_multiset_build;

verus! {

/// The unit of work that a worker in this state has in hand.
pub open spec fn in_hand<T>(state: WorkerState<T>) -> Multiset<T> {
    match state {
        WorkerState::Busy(work) => Multiset::singleton(work),
        _ => Multiset::empty(),
    }
}

/// One if the worker has exited, else zero.
pub open spec fn gone<T>(state: WorkerState<T>) -> nat {
    if state is Exited {
        1
    } else {
        0
    }
}

/// One if the message is a shutdown signal, else zero.
pub open spec fn stops<T>(message: Message<T>) -> nat {
    if message is Terminate {
        1
    } else {
        0
    }
}

/// Appending a message appends its unit of work, if it has one, and counts
/// it among the signals, if it is one.
pub proof fn lemma_push_message<T>(messages: Seq<Message<T>>, message: Message<T>)
    ensures
        units_of(messages.push(message)) == match message {
            Message::Task(work) => units_of(messages).push(work),
            Message::Terminate => units_of(messages),
        },
        signals_in(messages.push(message)) == signals_in(messages) + stops(message),
{
    assert(messages.push(message).drop_last() =~= messages);
}

/// Taking one more message from the front appends that message to what was
/// taken before.
pub proof fn lemma_take_one_more<T>(messages: Seq<Message<T>>, k: int)
    requires
        0 <= k < messages.len(),
    ensures
        messages.take(k + 1) =~= messages.take(k).push(messages[k]),
        units_of(messages.take(k + 1)) == match messages[k] {
            Message::Task(work) => units_of(messages.take(k)).push(work),
            Message::Terminate => units_of(messages.take(k)),
        },
        signals_in(messages.take(k + 1)) == signals_in(messages.take(k)) + stops(messages[k]),
{
    assert(messages.take(k + 1) =~= messages.take(k).push(messages[k]));
    lemma_push_message(messages.take(k), messages[k]);
}

/// A shorter prefix holds no more signals than a longer one, and its units
/// of work are the first of the longer one's.
pub proof fn lemma_prefixes<T>(messages: Seq<Message<T>>, k: int, m: int)
    requires
        0 <= k <= m <= messages.len(),
    ensures
        signals_in(messages.take(k)) <= signals_in(messages.take(m)),
        units_of(messages.take(k)).is_prefix_of(units_of(messages.take(m))),
        units_of(messages.take(k)).to_multiset().subset_of(
            units_of(messages.take(m)).to_multiset(),
        ),
    decreases m - k,
{
    if k < m {
        lemma_prefixes(messages, k, m - 1);
        lemma_take_one_more(messages, m - 1);
        if messages[m - 1] is Task {
            to_multiset_build(units_of(messages.take(m - 1)), messages[m - 1]->Task_0);
        }
    }
}

/// Changing one worker's state changes the count of exited workers and the
/// units in hand by that worker's share alone.
pub proof fn lemma_update_worker<T>(workers: Seq<WorkerState<T>>, i: int, state: WorkerState<T>)
    requires
        0 <= i < workers.len(),
    ensures
        exited_count(workers.update(i, state)) + gone(workers[i]) == exited_count(workers) + gone(
            state,
        ),
        running(workers.update(i, state)).add(in_hand(workers[i])) =~= running(workers).add(
            in_hand(state),
        ),
    decreases workers.len(),
{
    let changed = workers.update(i, state);
    let rest = workers.drop_last();
    lemma_last_worker(workers);
    lemma_last_worker(changed);
    if i == workers.len() - 1 {
        assert(changed.drop_last() =~= rest);
        assert(changed.last() == state);
        assert(running(changed).add(in_hand(workers[i])) =~= running(rest).add(
            in_hand(state),
        ).add(in_hand(workers[i])));
    } else {
        assert(changed.drop_last() =~= rest.update(i, state));
        assert(changed.last() == workers.last());
        lemma_update_worker(rest, i, state);
        assert(running(changed).add(in_hand(workers[i])) =~= running(rest.update(i, state)).add(
            in_hand(rest[i]),
        ).add(in_hand(workers.last())));
    }
}

/// The last worker's share in the two counts.
pub proof fn lemma_last_worker<T>(workers: Seq<WorkerState<T>>)
    requires
        workers.len() > 0,
    ensures
        exited_count(workers) == exited_count(workers.drop_last()) + gone(workers.last()),
        running(workers) =~= running(workers.drop_last()).add(in_hand(workers.last())),
{
}

/// No more workers have exited than there are, and while fewer have, one
/// that has not can be found.
pub proof fn lemma_exited_bound<T>(workers: Seq<WorkerState<T>>)
    ensures
        exited_count(workers) <= workers.len(),
        exited_count(workers) < workers.len() ==> exists|i: int|
            0 <= i < workers.len() && !(#[trigger] workers[i] is Exited),
    decreases workers.len(),
{
    if workers.len() > 0 {
        let rest = workers.drop_last();
        lemma_exited_bound(rest);
        if exited_count(workers) < workers.len() {
            if workers.last() is Exited {
                let i = choose|i: int| 0 <= i < rest.len() && !(#[trigger] rest[i] is Exited);
                assert(!(workers[i] is Exited));
            } else {
                assert(!(workers[workers.len() - 1] is Exited));
            }
        }
    }
}

/// While some worker has not exited, fewer have exited than there are.
pub proof fn lemma_one_remains<T>(workers: Seq<WorkerState<T>>, i: int)
    requires
        0 <= i < workers.len(),
        !(workers[i] is Exited),
    ensures
        exited_count(workers) < workers.len(),
{
    lemma_update_worker(workers, i, WorkerState::Exited);
    lemma_exited_bound(workers.update(i, WorkerState::Exited));
}

/// Where every worker has exited, the count says so and no unit is in hand.
pub proof fn lemma_all_exited<T>(workers: Seq<WorkerState<T>>)
    requires
        forall|i: int| 0 <= i < workers.len() ==> #[trigger] workers[i] is Exited,
    ensures
        exited_count(workers) == workers.len(),
        running(workers) =~= Multiset::empty(),
    decreases workers.len(),
{
    if workers.len() > 0 {
        let rest = workers.drop_last();
        assert(forall|i: int| 0 <= i < rest.len() ==> #[trigger] rest[i] == workers[i]);
        lemma_all_exited(rest);
        assert(workers.last() == workers[workers.len() - 1]);
    }
}

impl<T> PoolModel<T> {
    /// What holds of every state that a pool can reach.
    pub open spec fn inv(self) -> bool {
        let n = self.workers.len();
        let taken = self.sent.take(self.taken as int);
        &&& n > 0
        &&& self.taken <= self.sent.len()
        // each exited worker has taken one signal, and each taken signal
        // has made one worker exit
        &&& exited_count(self.workers) == signals_in(taken)
        // each unit taken from the queue is in one worker's hand or has
        // completed, once
        &&& units_of(taken).to_multiset() =~= self.completed.to_multiset().add(
            running(self.workers),
        )
        // workers are joined in the order of their creation, after they
        // have exited
        &&& self.joined.len() <= n
        &&& forall|k: int| 0 <= k < self.joined.len() ==> #[trigger] self.workers[k] is Exited
        &&& match self.roster {
            Some(roster) => {
                &&& roster =~= indices(n)
                &&& self.signals_due == 0
                &&& self.joins_due.len() == 0
                &&& self.joined.len() == 0
                &&& signals_in(self.sent) == 0
            },
            None => {
                &&& self.joined + self.joins_due =~= indices(n)
                &&& signals_in(self.sent) + self.signals_due == n
                &&& self.signals_due > 0 ==> self.joined.len() == 0
                &&& self.cut <= self.sent.len()
                &&& signals_in(self.sent.take(self.cut as int)) == 0
            },
        }
    }

    /// While a signal is owed, or teardown has not begun, some worker is
    /// still there to receive.
    pub proof fn lemma_connected(self)
        requires
            self.inv(),
            self.is_active() || self.signals_due > 0,
        ensures
            self.connected(),
    {
        lemma_prefixes(self.sent, self.taken as int, self.sent.len() as int);
        assert(self.sent.take(self.sent.len() as int) =~= self.sent);
        lemma_exited_bound(self.workers);
    }

    /// A new pool is in a state that the invariant allows.
    pub proof fn lemma_init_inv(n: nat)
        requires
            n > 0,
        ensures
            Self::init(n).inv(),
    {
        let s = Self::init(n);
        assert(s.sent.take(0) =~= s.sent);
        assert(exited_count(s.workers) == 0 && running(s.workers) =~= Multiset::empty()) by {
            Self::lemma_idle_workers(n);
        }
        assert(s.completed.to_multiset() =~= Multiset::empty()) by {
            s.completed.to_multiset_ensures();
        }
        assert(units_of(s.sent.take(0)).to_multiset() =~= Multiset::empty()) by {
            units_of(s.sent.take(0)).to_multiset_ensures();
        }
    }

    /// Among idle workers none has exited and none has a unit in hand.
    proof fn lemma_idle_workers(n: nat)
        ensures
            exited_count(Seq::new(n, |i: int| WorkerState::<T>::Idle)) == 0,
            running(Seq::new(n, |i: int| WorkerState::<T>::Idle)) =~= Multiset::empty(),
        decreases n,
    {
        if n > 0 {
            Self::lemma_idle_workers((n - 1) as nat);
            assert(Seq::new(n, |i: int| WorkerState::<T>::Idle).drop_last() =~= Seq::new(
                (n - 1) as nat,
                |i: int| WorkerState::<T>::Idle,
            ));
        }
    }

    /// A submission keeps the invariant.
    proof fn lemma_execute_inv(self, f: T)
        requires
            self.inv(),
        ensures
            self.execute(f).0.inv(),
    {
        let after = self.execute(f).0;
        if self.connected() {
            lemma_push_message(self.sent, Message::Task(f));
            assert(after.sent.take(self.taken as int) =~= self.sent.take(self.taken as int));
            if self.roster is None {
                assert(after.sent.take(self.cut as int) =~= self.sent.take(self.cut as int));
            }
        }
    }

    /// The beginning of teardown keeps the invariant.
    proof fn lemma_shutdown_inv(self)
        requires
            self.inv(),
        ensures
            self.shutdown().inv(),
    {
        let after = self.shutdown();
        if self.roster is Some {
            assert(self.sent.take(self.sent.len() as int) =~= self.sent);
            assert(after.joined + after.joins_due =~= indices(self.workers.len()));
        } else {
            assert(after.joins_due =~= self.joins_due);
        }
    }

    /// A shutdown signal keeps the invariant: while one is owed, the queue
    /// still takes it.
    proof fn lemma_signal_inv(self)
        requires
            self.inv(),
        ensures
            self.signal().inv(),
    {
        let after = self.signal();
        if self.signals_due > 0 {
            self.lemma_connected();
            lemma_push_message(self.sent, Message::<T>::Terminate);
            assert(after.sent.take(self.taken as int) =~= self.sent.take(self.taken as int));
            assert(after.sent.take(self.cut as int) =~= self.sent.take(self.cut as int));
        }
    }

    /// A join keeps the invariant.
    proof fn lemma_join_inv(self)
        requires
            self.inv(),
        ensures
            self.join().inv(),
    {
        let after = self.join();
        if self.signals_due == 0 && self.joins_due.len() > 0 && self.has_exited(
            self.joins_due[0],
        ) {
            let whole = self.joined + self.joins_due;
            assert(self.joins_due[0] == whole[self.joined.len() as int]);
            assert(after.joined + after.joins_due =~= whole);
        }
    }

    /// A receive keeps the invariant.
    proof fn lemma_receive_inv(self, i: int)
        requires
            self.inv(),
        ensures
            self.receive(i).inv(),
    {
        let k = self.taken as int;
        if 0 <= i < self.workers.len() && self.workers[i] is Idle && self.taken < self.sent.len() {
            let message = self.sent[k];
            lemma_take_one_more(self.sent, k);
            lemma_update_worker(self.workers, i, after_receiving(message));
            let after = self.receive(i);
            assert(in_hand(self.workers[i]) =~= Multiset::empty());
            assert(running(after.workers) =~= running(self.workers).add(
                in_hand(after_receiving(message)),
            ));
            if message is Task {
                to_multiset_build(units_of(self.sent.take(k)), message->Task_0);
            }
            assert(units_of(after.sent.take(k + 1)).to_multiset() =~= units_of(
                self.sent.take(k),
            ).to_multiset().add(in_hand(after_receiving(message))));
        }
    }

    /// The completion of a unit keeps the invariant.
    proof fn lemma_finish_inv(self, i: int)
        requires
            self.inv(),
        ensures
            self.finish(i).inv(),
    {
        if 0 <= i < self.workers.len() && self.workers[i] is Busy {
            let after = self.finish(i);
            lemma_update_worker(self.workers, i, WorkerState::Idle);
            to_multiset_build(self.completed, self.workers[i]->Busy_0);
            assert(in_hand(WorkerState::<T>::Idle) =~= Multiset::empty());
            assert(running(self.workers) =~= running(after.workers).add(
                in_hand(self.workers[i]),
            ));
            assert(after.completed.to_multiset().add(running(after.workers))
                =~= self.completed.to_multiset().add(running(self.workers)));
        }
    }

    /// Every step keeps the invariant.
    pub proof fn lemma_next_inv(self, step: Step<T>)
        requires
            self.inv(),
        ensures
            self.next(step).inv(),
    {
        match step {
            Step::Execute(f) => self.lemma_execute_inv(f),
            Step::Shutdown => self.lemma_shutdown_inv(),
            Step::Signal => self.lemma_signal_inv(),
            Step::Join => self.lemma_join_inv(),
            Step::Receive(i) => self.lemma_receive_inv(i),
            Step::Finish(i) => self.lemma_finish_inv(i),
        }
    }

    /// The invariant holds after any steps at all.
    pub proof fn lemma_run_inv(n: nat, steps: Seq<Step<T>>)
        requires
            n > 0,
        ensures
            Self::run(n, steps).inv(),
            Self::run(n, steps).workers.len() == n,
        decreases steps.len(),
    {
        if steps.len() == 0 {
            Self::lemma_init_inv(n);
        } else {
            Self::lemma_run_inv(n, steps.drop_last());
            Self::run(n, steps.drop_last()).lemma_next_inv(steps.last());
            Self::run(n, steps.drop_last()).lemma_next_keeps_workers(steps.last());
        }
    }

    /// No step adds or removes a worker.
    pub proof fn lemma_next_keeps_workers(self, step: Step<T>)
        ensures
            self.next(step).workers.len() == self.workers.len(),
    {
    }
}

} // verus!
