use fixed_thread_pool::thread_pool::submission_outcome;
use fixed_thread_pool::{
    worker_step, FixedThreadPool, Message, SharedReceiver, ThreadPoolError, WorkerAction,
};
use std::cell::{Cell, RefCell};
use std::rc::Rc;
use std::sync::mpsc::{SendError, TryRecvError};
use std::sync::Arc;

type Unit = Box<dyn FnOnce()>;

type Pool = FixedThreadPool<Unit, SharedReceiver<Unit>>;

/// A pool whose workers are not threads: each handle is the worker's own
/// pointer to the shared queue, and the test plays the worker's part.
fn pool_of(n: usize) -> Pool {
    FixedThreadPool::new(n, |queue| queue)
}

/// Plays one worker to its end: receives until told to stop, runs each unit
/// on the way, and says how many it ran.
fn drive(queue: &SharedReceiver<Unit>) -> usize {
    let mut ran = 0;
    loop {
        let received = queue.lock().unwrap().recv();
        match worker_step(received) {
            WorkerAction::Run(unit) => {
                unit();
                ran += 1;
            }
            WorkerAction::Exit => return ran,
        }
    }
}

/// One receive of one worker.
fn turn(queue: &SharedReceiver<Unit>) -> WorkerAction<Unit> {
    let received = queue.lock().unwrap().recv();
    worker_step(received)
}

fn adder(counter: &Rc<Cell<u32>>, by: u32) -> Unit {
    let counter = counter.clone();
    Box::new(move || counter.set(counter.get() + by))
}

#[test]
fn single_worker_runs_units_in_submission_order() {
    let mut pool = pool_of(1);
    let counter = Rc::new(Cell::new(0u32));
    let seen_by_second = Rc::new(Cell::new(u32::MAX));
    assert!(pool.execute(adder(&counter, 1)).is_ok());
    let (c, s) = (counter.clone(), seen_by_second.clone());
    assert!(pool
        .execute(Box::new(move || {
            s.set(c.get());
            c.set(c.get() + 10);
        }))
        .is_ok());
    let workers = pool.shutdown();
    assert_eq!(workers.len(), 1);
    assert_eq!(drive(&workers[0]), 2);
    assert_eq!(seen_by_second.get(), 1);
    assert_eq!(counter.get(), 11);
}

#[test]
fn four_workers_run_a_hundred_units_once_each() {
    let mut pool = pool_of(4);
    let counter = Rc::new(Cell::new(0u32));
    for _ in 0..100 {
        assert!(pool.execute(adder(&counter, 1)).is_ok());
    }
    let workers = pool.shutdown();
    assert_eq!(workers.len(), 4);
    // the workers take turns at the queue until each has met its signal
    let mut live: Vec<bool> = vec![true; 4];
    let mut ran = [0usize; 4];
    while live.iter().any(|l| *l) {
        for (i, worker) in workers.iter().enumerate() {
            if live[i] {
                match turn(worker) {
                    WorkerAction::Run(unit) => {
                        unit();
                        ran[i] += 1;
                    }
                    WorkerAction::Exit => live[i] = false,
                }
            }
        }
    }
    assert_eq!(counter.get(), 100);
    assert_eq!(ran.iter().sum::<usize>(), 100);
    assert_eq!(ran, [25, 25, 25, 25]);
}

#[test]
fn slow_unit_does_not_hold_back_the_other_worker() {
    let mut pool = pool_of(2);
    let log: Rc<RefCell<Vec<&'static str>>> = Rc::new(RefCell::new(Vec::new()));
    let l = log.clone();
    assert!(pool.execute(Box::new(move || l.borrow_mut().push("slow"))).is_ok());
    let l = log.clone();
    assert!(pool.execute(Box::new(move || l.borrow_mut().push("fast"))).is_ok());
    let workers = pool.shutdown();
    // the first worker takes the slow unit and is busy with it
    let slow = match turn(&workers[0]) {
        WorkerAction::Run(unit) => unit,
        WorkerAction::Exit => panic!("the first worker should have got the slow unit"),
    };
    // meanwhile the second worker takes the fast unit and completes it
    match turn(&workers[1]) {
        WorkerAction::Run(unit) => unit(),
        WorkerAction::Exit => panic!("the second worker should have got the fast unit"),
    }
    assert_eq!(*log.borrow(), vec!["fast"]);
    // now the slow unit completes
    slow();
    assert_eq!(*log.borrow(), vec!["fast", "slow"]);
    assert_eq!(drive(&workers[0]), 0);
    assert_eq!(drive(&workers[1]), 0);
}

#[test]
fn teardown_of_a_fresh_pool_hands_out_every_worker() {
    for n in 1..=8usize {
        let spawned = Cell::new(0usize);
        let mut pool: Pool = FixedThreadPool::new(n, |queue| {
            spawned.set(spawned.get() + 1);
            queue
        });
        assert_eq!(spawned.get(), n);
        let workers = pool.shutdown();
        assert_eq!(workers.len(), n);
        for worker in &workers {
            // each worker finds its own signal and nothing to run
            assert_eq!(drive(worker), 0);
        }
        // one signal for each worker and not one more
        assert!(matches!(
            workers[0].lock().unwrap().try_recv(),
            Err(TryRecvError::Empty)
        ));
    }
}

#[test]
fn workers_share_one_queue() {
    let mut pool = pool_of(3);
    let workers = pool.shutdown();
    assert!(Arc::ptr_eq(&workers[0], &workers[1]));
    assert!(Arc::ptr_eq(&workers[1], &workers[2]));
}

#[test]
fn second_teardown_hands_out_nothing() {
    let mut pool = pool_of(3);
    let workers = pool.shutdown();
    assert_eq!(workers.len(), 3);
    let again = pool.shutdown();
    assert!(again.is_empty());
    let once_more = pool.shutdown();
    assert!(once_more.is_empty());
    // three signals were sent in all, one for each worker
    let queue = workers[0].lock().unwrap();
    for _ in 0..3 {
        assert!(matches!(queue.try_recv(), Ok(Message::Terminate)));
    }
    assert!(matches!(queue.try_recv(), Err(TryRecvError::Empty)));
}

#[test]
fn submission_after_teardown_is_refused() {
    let mut pool = pool_of(2);
    let counter = Rc::new(Cell::new(0u32));
    assert!(pool.execute(adder(&counter, 1)).is_ok());
    let workers = pool.shutdown();
    for worker in &workers {
        drive(worker);
    }
    // every worker has gone, and with it the receiving half
    drop(workers);
    assert_eq!(counter.get(), 1);
    match pool.execute(adder(&counter, 100)) {
        Err(ThreadPoolError::SendTaskError(SendError(Message::Task(unit)))) => {
            // the unit comes back unrun
            assert_eq!(counter.get(), 1);
            drop(unit);
        }
        _ => panic!("the submission should have been refused with the unit handed back"),
    }
    assert_eq!(counter.get(), 1);
}

#[test]
fn submission_succeeds_while_one_worker_remains() {
    let mut pool = pool_of(2);
    let mut workers = pool.shutdown();
    let last = workers.pop().unwrap();
    assert_eq!(drive(&workers[0]), 0);
    drop(workers);
    let counter = Rc::new(Cell::new(0u32));
    assert!(pool.execute(adder(&counter, 1)).is_ok());
    // the unit was queued behind the last signal: the worker stops first
    assert_eq!(drive(&last), 0);
    assert_eq!(counter.get(), 0);
}

#[test]
fn unit_submitted_during_teardown_is_accepted_and_may_never_run() {
    let mut pool = pool_of(1);
    let counter = Rc::new(Cell::new(0u32));
    assert!(pool.execute(adder(&counter, 1)).is_ok());
    let workers = pool.shutdown();
    assert!(pool.execute(adder(&counter, 10)).is_ok());
    assert_eq!(drive(&workers[0]), 1);
    assert_eq!(counter.get(), 1);
}

#[test]
fn signal_does_not_overtake_queued_work() {
    let mut pool = pool_of(2);
    let counter = Rc::new(Cell::new(0u32));
    for _ in 0..5 {
        assert!(pool.execute(adder(&counter, 1)).is_ok());
    }
    let workers = pool.shutdown();
    // one worker alone meets all the work before it meets a signal
    assert_eq!(drive(&workers[0]), 5);
    assert_eq!(counter.get(), 5);
    assert_eq!(drive(&workers[1]), 0);
}

#[test]
fn abandoned_pool_lets_its_workers_drain_the_queue_and_leave() {
    let counter = Rc::new(Cell::new(0u32));
    let kept: Rc<RefCell<Vec<SharedReceiver<Unit>>>> = Rc::new(RefCell::new(Vec::new()));
    let k = kept.clone();
    let pool: Pool = FixedThreadPool::new(2, move |queue: SharedReceiver<Unit>| {
        k.borrow_mut().push(queue.clone());
        queue
    });
    assert!(pool.execute(adder(&counter, 1)).is_ok());
    assert!(pool.execute(adder(&counter, 2)).is_ok());
    // the handle goes without a teardown, and the sending half with it
    drop(pool);
    let workers = kept.borrow();
    assert_eq!(drive(&workers[0]), 2);
    assert_eq!(drive(&workers[1]), 0);
    assert_eq!(counter.get(), 3);
}

#[test]
fn outcome_of_a_send_becomes_the_result_of_the_submission() {
    let sent: Result<(), SendError<Message<u8>>> = Ok(());
    assert!(matches!(submission_outcome(sent), Ok(())));
    let refused: Result<(), SendError<Message<u8>>> = Err(SendError(Message::Task(7)));
    assert!(matches!(
        submission_outcome(refused),
        Err(ThreadPoolError::SendTaskError(SendError(Message::Task(7))))
    ));
}

#[test]
fn send_error_converts_into_pool_error() {
    let e: ThreadPoolError<u8> = ThreadPoolError::from(SendError(Message::Task(3)));
    assert!(matches!(
        e,
        ThreadPoolError::SendTaskError(SendError(Message::Task(3)))
    ));
    let e: ThreadPoolError<u8> = SendError(Message::Terminate).into();
    assert!(matches!(
        e,
        ThreadPoolError::SendTaskError(SendError(Message::Terminate))
    ));
}
