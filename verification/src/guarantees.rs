//! What the pool guarantees, stated of every state that it can reach by
//! any steps in any order, and proved from the model.

use crate::error::ThreadPoolError;
use crate::message::Message;
use crate::protocol::{
    begins_teardown, hand, indices, orderly, signals_in, submitted, units_of, PoolModel, Step,
    WorkerState,
};
use crate::reachable::{
    lemma_all_exited, lemma_one_remains, lemma_prefixes, lemma_push_message, lemma_take_one_more,
};
use crate::thread_pool::teardown_plan;
use std::sync::mpsc::SendError;
use vstd::multiset::Multiset;
use vstd::prelude::*;

verus! {

/// Teardown hands the workers out once: all of them, in the order of their
/// creation, while the pool tracks them, and none afterwards.
pub proof fn teardown_hands_out_once<H>(handles: Seq<H>)
    ensures
        teardown_plan(Some(handles)) == handles,
        teardown_plan(None::<Seq<H>>) == Seq::<H>::empty(),
{
}

impl<T> PoolModel<T> {
    /// The number of workers is fixed when the pool is made, and never
    /// zero.
    pub proof fn number_of_workers_never_changes(n: nat, steps: Seq<Step<T>>)
        requires
            n > 0,
        ensures
            Self::run(n, steps).workers.len() == n,
    {
        Self::lemma_run_inv(n, steps);
    }

    /// A worker that has exited stays so: once it has read its shutdown
    /// signal it takes no further message and runs no further unit.
    pub proof fn exited_worker_stays_exited(self, step: Step<T>, i: int)
        requires
            self.has_exited(i),
        ensures
            self.next(step).has_exited(i),
            step == Step::<T>::Receive(i) || step == Step::<T>::Finish(i) ==> self.next(step)
                == self,
    {
    }

    /// Until teardown begins every submission succeeds, and the unit joins
    /// the queue behind all that was accepted before it.
    pub proof fn execute_succeeds_before_teardown(n: nat, steps: Seq<Step<T>>, f: T)
        requires
            n > 0,
            Self::run(n, steps).is_active(),
        ensures
            Self::run(n, steps).execute(f).1 == Ok::<(), ThreadPoolError<T>>(()),
            Self::run(n, steps).execute(f).0.accepted() == Self::run(n, steps).accepted().push(f),
    {
        let s = Self::run(n, steps);
        Self::lemma_run_inv(n, steps);
        s.lemma_connected();
        lemma_push_message(s.sent, Message::Task(f));
    }

    /// When teardown is over, it has sent exactly one shutdown signal for
    /// each worker and joined each worker exactly once, in the order of
    /// creation, and every worker has exited.
    pub proof fn teardown_joins_every_worker(n: nat, steps: Seq<Step<T>>)
        requires
            n > 0,
            Self::run(n, steps).is_terminated(),
        ensures
            Self::run(n, steps).joined == indices(n),
            signals_in(Self::run(n, steps).sent) == n,
            forall|i: int| 0 <= i < n ==> Self::run(n, steps).has_exited(i),
    {
        let s = Self::run(n, steps);
        Self::lemma_run_inv(n, steps);
        assert(s.joined + s.joins_due =~= s.joined);
        assert forall|i: int| 0 <= i < n implies s.has_exited(i) by {
            assert(s.workers[i] is Exited);
        }
    }

    /// At every moment, each worker that teardown has joined had exited
    /// before: a join never returns while its worker still runs.
    pub proof fn joined_workers_have_exited(n: nat, steps: Seq<Step<T>>, k: int)
        requires
            n > 0,
            0 <= k < Self::run(n, steps).joined.len(),
        ensures
            Self::run(n, steps).joined[k] == k,
            Self::run(n, steps).has_exited(k),
    {
        let s = Self::run(n, steps);
        Self::lemma_run_inv(n, steps);
        assert(s.workers[k] is Exited);
        assert(s.joined[k] == (s.joined + s.joins_due)[k]);
    }

    /// No unit of work runs more often than it was accepted: the completed
    /// units, each counted as often as it completed, are among the accepted
    /// ones.
    pub proof fn no_unit_runs_twice(n: nat, steps: Seq<Step<T>>)
        requires
            n > 0,
        ensures
            Self::run(n, steps).completed.to_multiset().subset_of(
                Self::run(n, steps).accepted().to_multiset(),
            ),
    {
        let s = Self::run(n, steps);
        Self::lemma_run_inv(n, steps);
        lemma_prefixes(s.sent, s.taken as int, s.sent.len() as int);
        assert(s.sent.take(s.sent.len() as int) =~= s.sent);
    }

    /// When teardown is over, every unit of work that the pool had accepted
    /// before teardown began has run to completion.
    pub proof fn units_accepted_before_teardown_have_run(n: nat, steps: Seq<Step<T>>)
        requires
            n > 0,
            Self::run(n, steps).is_terminated(),
        ensures
            Self::run(n, steps).accepted_before_teardown().to_multiset().subset_of(
                Self::run(n, steps).completed.to_multiset(),
            ),
    {
        let s = Self::run(n, steps);
        Self::lemma_run_inv(n, steps);
        s.lemma_drained_past_cut();
        lemma_prefixes(s.sent, s.cut as int, s.taken as int);
    }

    /// When teardown is over, the workers have taken every message that
    /// was queued before teardown began, and none of them has a unit in
    /// hand.
    pub proof fn lemma_drained_past_cut(self)
        requires
            self.inv(),
            self.is_terminated(),
        ensures
            self.cut <= self.taken,
            units_of(self.sent.take(self.taken as int)).to_multiset()
                == self.completed.to_multiset(),
    {
        self.lemma_terminated_is_disconnected();
        lemma_all_exited(self.workers);
        if self.taken < self.cut {
            lemma_prefixes(self.sent, self.taken as int, self.cut as int);
        }
        assert(self.completed.to_multiset().add(Multiset::empty())
            =~= self.completed.to_multiset());
    }

    /// Once teardown is over, a submission is refused with the unit handed
    /// back in the error, and changes nothing: the unit will never run.
    pub proof fn execute_after_teardown_is_refused(n: nat, steps: Seq<Step<T>>, f: T)
        requires
            n > 0,
            Self::run(n, steps).is_terminated(),
        ensures
            Self::run(n, steps).execute(f).0 == Self::run(n, steps),
            Self::run(n, steps).execute(f).1 == Err::<(), ThreadPoolError<T>>(
                ThreadPoolError::SendTaskError(SendError(Message::Task(f))),
            ),
    {
        Self::lemma_run_inv(n, steps);
        Self::run(n, steps).lemma_terminated_is_disconnected();
    }

    /// When teardown is over, no worker holds the receiving half any more.
    pub proof fn lemma_terminated_is_disconnected(self)
        requires
            self.inv(),
            self.is_terminated(),
        ensures
            !self.connected(),
            forall|i: int| 0 <= i < self.workers.len() ==> #[trigger] self.workers[i] is Exited,
    {
        assert(self.joined + self.joins_due =~= self.joined);
    }

    /// A second teardown does nothing: it owes no signal and no join, so no
    /// worker is signalled or joined twice.
    pub proof fn second_shutdown_does_nothing(self)
        requires
            !self.is_active(),
        ensures
            self.shutdown() == self,
    {
        assert(self.shutdown() =~= self);
    }

    /// The state in which teardown is over is final: no step of any kind
    /// changes it.
    pub proof fn terminated_is_final(n: nat, steps: Seq<Step<T>>, step: Step<T>)
        requires
            n > 0,
            Self::run(n, steps).is_terminated(),
        ensures
            Self::run(n, steps).next(step) == Self::run(n, steps),
    {
        let s = Self::run(n, steps);
        Self::lemma_run_inv(n, steps);
        s.lemma_terminated_is_disconnected();
        s.second_shutdown_does_nothing();
    }

    /// In orderly use every submission is accepted, and nothing but
    /// shutdown signals enters the queue once teardown has begun.
    pub proof fn lemma_orderly_run(n: nat, steps: Seq<Step<T>>)
        requires
            n > 0,
            orderly(steps),
        ensures
            Self::run(n, steps).accepted() == submitted(steps),
            Self::run(n, steps).is_active() <==> !begins_teardown(steps),
            !Self::run(n, steps).is_active() ==> Self::run(n, steps).accepted_before_teardown()
                == Self::run(n, steps).accepted(),
        decreases steps.len(),
    {
        if steps.len() > 0 {
            let before = steps.drop_last();
            let s = Self::run(n, before);
            let after = Self::run(n, steps);
            assert forall|i: int, j: int|
                0 <= i < j < before.len() && #[trigger] before[i] is Shutdown implies !(
            #[trigger] before[j] is Execute) by {
                assert(before[i] == steps[i] && before[j] == steps[j]);
            }
            Self::lemma_orderly_run(n, before);
            Self::lemma_run_inv(n, before);
            if begins_teardown(before) {
                let i = choose|i: int| 0 <= i < before.len() && #[trigger] before[i] is Shutdown;
                assert(steps[i] is Shutdown);
            }
            if begins_teardown(steps) && !(steps.last() is Shutdown) {
                let i = choose|i: int| 0 <= i < steps.len() && #[trigger] steps[i] is Shutdown;
                assert(before[i] is Shutdown);
            }
            match steps.last() {
                Step::Execute(f) => {
                    if begins_teardown(before) {
                        let i = choose|i: int|
                            0 <= i < before.len() && #[trigger] before[i] is Shutdown;
                        assert(steps[i] is Shutdown && steps[steps.len() - 1] is Execute);
                    }
                    s.lemma_connected();
                    lemma_push_message(s.sent, Message::Task(f));
                },
                Step::Shutdown => {
                    assert(steps[steps.len() - 1] is Shutdown);
                    assert(s.sent.take(s.sent.len() as int) =~= s.sent);
                },
                Step::Signal => {
                    if s.signals_due > 0 {
                        s.lemma_connected();
                        lemma_push_message(s.sent, Message::<T>::Terminate);
                        assert(after.sent.take(s.cut as int) =~= s.sent.take(s.cut as int));
                    }
                },
                Step::Join => {},
                Step::Receive(i) => {},
                Step::Finish(i) => {},
            }
        }
    }

    /// In orderly use, when teardown is over, every unit of work that was
    /// submitted has run to completion exactly once: the completed units
    /// are the submitted ones, each as often as it was submitted.
    pub proof fn every_unit_runs_exactly_once(n: nat, steps: Seq<Step<T>>)
        requires
            n > 0,
            orderly(steps),
            Self::run(n, steps).is_terminated(),
        ensures
            Self::run(n, steps).completed.to_multiset() == submitted(steps).to_multiset(),
    {
        let s = Self::run(n, steps);
        Self::lemma_run_inv(n, steps);
        Self::lemma_orderly_run(n, steps);
        s.lemma_drained_past_cut();
        lemma_prefixes(s.sent, s.cut as int, s.taken as int);
        lemma_prefixes(s.sent, s.taken as int, s.sent.len() as int);
        assert(s.sent.take(s.sent.len() as int) =~= s.sent);
        assert(units_of(s.sent.take(s.taken as int)) =~= units_of(s.sent));
    }

    /// With one worker, what has been taken from the queue is what has
    /// completed, in that order, and then the unit in the worker's hand.
    pub proof fn lemma_single_worker_run(steps: Seq<Step<T>>)
        ensures
            units_of(Self::run(1, steps).sent.take(Self::run(1, steps).taken as int))
                == Self::run(1, steps).completed + hand(Self::run(1, steps).workers[0]),
        decreases steps.len(),
    {
        if steps.len() == 0 {
            let s = Self::run(1, steps);
            assert(s.sent.take(0) =~= Seq::empty());
            assert(units_of(s.sent.take(0)) =~= s.completed + hand(s.workers[0]));
        } else {
            let s = Self::run(1, steps.drop_last());
            let after = Self::run(1, steps);
            let k = s.taken as int;
            Self::lemma_single_worker_run(steps.drop_last());
            Self::lemma_run_inv(1, steps.drop_last());
            match steps.last() {
                Step::Execute(f) => {
                    assert(after.sent.take(k) =~= s.sent.take(k));
                },
                Step::Signal => {
                    assert(after.sent.take(k) =~= s.sent.take(k));
                },
                Step::Receive(i) => {
                    if after != s {
                        lemma_take_one_more(s.sent, k);
                    }
                },
                _ => {},
            }
            assert(units_of(after.sent.take(after.taken as int)) =~= after.completed + hand(
                after.workers[0],
            ));
        }
    }

    /// A pool of one worker completes the units of work in the order in
    /// which it accepted them: at every moment the completed units are the
    /// first of the accepted ones.
    pub proof fn single_worker_keeps_submission_order(steps: Seq<Step<T>>)
        ensures
            Self::run(1, steps).completed.is_prefix_of(Self::run(1, steps).accepted()),
    {
        let s = Self::run(1, steps);
        Self::lemma_run_inv(1, steps);
        Self::lemma_single_worker_run(steps);
        lemma_prefixes(s.sent, s.taken as int, s.sent.len() as int);
        assert(s.sent.take(s.sent.len() as int) =~= s.sent);
    }

    /// Once teardown is over nothing happens any more, whatever is tried:
    /// the state stays as it is through any further steps.
    pub proof fn nothing_happens_after_teardown(n: nat, steps: Seq<Step<T>>, more: Seq<Step<T>>)
        requires
            n > 0,
            Self::run(n, steps).is_terminated(),
        ensures
            Self::run(n, steps + more) == Self::run(n, steps),
        decreases more.len(),
    {
        if more.len() == 0 {
            assert(steps + more =~= steps);
        } else {
            assert((steps + more).drop_last() =~= steps + more.drop_last());
            Self::nothing_happens_after_teardown(n, steps, more.drop_last());
            Self::terminated_is_final(n, steps, more.last());
        }
    }

    /// A unit of work that is submitted while teardown is under way can be
    /// accepted and still never run: in a pool of one worker it is enough
    /// that the signal is in the queue before the unit. The submission
    /// reports success, teardown ends, and the unit has not run.
    pub proof fn a_late_unit_may_never_run(f: T)
        ensures
            ({
                let steps = seq![
                    Step::Shutdown,
                    Step::Signal,
                    Step::Execute(f),
                    Step::Receive(0),
                    Step::Join,
                ];
                &&& Self::run(1, steps.take(2)).execute(f).1 == Ok::<(), ThreadPoolError<T>>(())
                &&& Self::run(1, steps).is_terminated()
                &&& Self::run(1, steps).accepted() == seq![f]
                &&& Self::run(1, steps).completed == Seq::<T>::empty()
            }),
    {
        let steps = seq![
            Step::Shutdown,
            Step::Signal,
            Step::Execute(f),
            Step::Receive(0),
            Step::Join,
        ];
        let s0 = Self::init(1);
        assert(Self::run(1, steps.take(0)) == s0);
        let s1 = s0.shutdown();
        assert(steps.take(1).drop_last() =~= steps.take(0));
        assert(Self::run(1, steps.take(1)) == s1);
        assert(s1.joins_due =~= seq![0int]);
        assert(!(s1.workers[0] is Exited));
        let s2 = s1.signal();
        assert(steps.take(2).drop_last() =~= steps.take(1));
        assert(Self::run(1, steps.take(2)) == s2);
        assert(s2.sent =~= seq![Message::<T>::Terminate]);
        assert(!(s2.workers[0] is Exited));
        let s3 = s2.execute(f).0;
        assert(steps.take(3).drop_last() =~= steps.take(2));
        assert(Self::run(1, steps.take(3)) == s3);
        assert(s3.sent =~= seq![Message::<T>::Terminate, Message::Task(f)]);
        let s4 = s3.receive(0);
        assert(steps.take(4).drop_last() =~= steps.take(3));
        assert(Self::run(1, steps.take(4)) == s4);
        assert(s4.workers[0] is Exited);
        let s5 = s4.join();
        assert(steps.drop_last() =~= steps.take(4));
        assert(Self::run(1, steps) == s5);
        assert(s5.joins_due =~= Seq::<int>::empty());
        lemma_push_message(seq![Message::<T>::Terminate], Message::Task(f));
        lemma_push_message(Seq::<Message<T>>::empty(), Message::<T>::Terminate);
        assert(Seq::<Message<T>>::empty().push(Message::<T>::Terminate) =~= seq![
            Message::<T>::Terminate,
        ]);
        assert(seq![Message::<T>::Terminate].push(Message::Task(f)) =~= s5.sent);
        assert(s5.accepted() =~= seq![f]);
    }

    /// The step that brings teardown forward from this state: begin it,
    /// send a signal that is owed, join the next worker if it has exited,
    /// and else let that worker finish its unit or take its next message.
    pub open spec fn teardown_step(self) -> Step<T> {
        if self.is_active() {
            Step::Shutdown
        } else if self.signals_due > 0 {
            Step::Signal
        } else {
            let next = self.joins_due[0];
            match self.workers[next] {
                WorkerState::Exited => Step::Join,
                WorkerState::Busy(_) => Step::Finish(next),
                WorkerState::Idle => Step::Receive(next),
            }
        }
    }

    /// Teardown never hangs: from every state that the pool can reach,
    /// whatever is queued and whatever the workers are doing, there are
    /// steps, none of them a submission, after which teardown is over. The
    /// proof gives such steps.
    pub proof fn teardown_can_always_finish(n: nat, steps: Seq<Step<T>>) -> (rest: Seq<Step<T>>)
        requires
            n > 0,
        ensures
            forall|i: int| 0 <= i < rest.len() ==> !(#[trigger] rest[i] is Execute),
            Self::run(n, steps + rest).is_terminated(),
        decreases
                (if Self::run(n, steps).is_active() {
                    1nat
                } else {
                    0nat
                }),
                Self::run(n, steps).signals_due,
                Self::run(n, steps).joins_due.len(),
                Self::run(n, steps).sent.len() - Self::run(n, steps).taken,
                Self::run(n, steps).workers.len() - exited_or_idle(Self::run(n, steps).workers),
    {
        let s = Self::run(n, steps);
        Self::lemma_run_inv(n, steps);
        if s.is_terminated() {
            assert(steps + Seq::<Step<T>>::empty() =~= steps);
            Seq::empty()
        } else {
            let step = s.teardown_step();
            let longer = steps.push(step);
            assert(longer.drop_last() =~= steps);
            assert(Self::run(n, longer) == s.next(step));
            if !s.is_active() && s.signals_due == 0 {
                let next = s.joins_due[0];
                assert(next == (s.joined + s.joins_due)[s.joined.len() as int]);
                if s.workers[next] is Idle {
                    lemma_one_remains(s.workers, next);
                    assert(s.sent.take(s.sent.len() as int) =~= s.sent);
                } else if s.workers[next] is Busy {
                    lemma_settle_worker(s.workers, next);
                }
            }
            let later = Self::teardown_can_always_finish(n, longer);
            let rest = seq![step] + later;
            assert(steps + rest =~= longer + later);
            rest
        }
    }
}

/// How many of `workers` are not running a unit of work.
pub open spec fn exited_or_idle<T>(workers: Seq<WorkerState<T>>) -> nat
    decreases workers.len(),
{
    if workers.len() == 0 {
        0
    } else {
        match workers.last() {
            WorkerState::Busy(_) => exited_or_idle(workers.drop_last()),
            _ => exited_or_idle(workers.drop_last()) + 1,
        }
    }
}

/// When a busy worker becomes idle, one more worker is not running a unit.
pub proof fn lemma_settle_worker<T>(workers: Seq<WorkerState<T>>, i: int)
    requires
        0 <= i < workers.len(),
        workers[i] is Busy,
    ensures
        exited_or_idle(workers.update(i, WorkerState::Idle)) == exited_or_idle(workers) + 1,
        exited_or_idle(workers.update(i, WorkerState::Idle)) <= workers.len(),
    decreases workers.len(),
{
    let changed = workers.update(i, WorkerState::Idle);
    if i == workers.len() - 1 {
        assert(changed.drop_last() =~= workers.drop_last());
        lemma_settled_bound(workers.drop_last());
    } else {
        assert(changed.drop_last() =~= workers.drop_last().update(i, WorkerState::Idle));
        lemma_settle_worker(workers.drop_last(), i);
    }
}

/// No more workers are at rest than there are.
pub proof fn lemma_settled_bound<T>(workers: Seq<WorkerState<T>>)
    ensures
        exited_or_idle(workers) <= workers.len(),
    decreases workers.len(),
{
    if workers.len() > 0 {
        lemma_settled_bound(workers.drop_last());
    }
}

} // verus!