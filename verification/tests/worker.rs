use fixed_thread_pool::{worker_step, Message, WorkerAction};
use std::sync::mpsc::{channel, RecvError};

#[test]
fn worker_runs_a_unit_of_work() {
    let action = worker_step(Ok(Message::Task(41u32)));
    assert!(matches!(action, WorkerAction::Run(41)));
}

#[test]
fn worker_stops_at_a_shutdown_signal() {
    let action: WorkerAction<u32> = worker_step(Ok(Message::Terminate));
    assert!(matches!(action, WorkerAction::Exit));
}

#[test]
fn worker_stops_when_the_queue_is_disconnected() {
    let action: WorkerAction<u32> = worker_step(Err(RecvError));
    assert!(matches!(action, WorkerAction::Exit));
}

#[test]
fn worker_follows_a_real_queue_to_its_end() {
    let (sender, receiver) = channel::<Message<u32>>();
    sender.send(Message::Task(1)).unwrap();
    sender.send(Message::Task(2)).unwrap();
    drop(sender);
    let mut ran = Vec::new();
    loop {
        match worker_step(receiver.recv()) {
            WorkerAction::Run(unit) => ran.push(unit),
            WorkerAction::Exit => break,
        }
    }
    assert_eq!(ran, vec![1, 2]);
}

#[test]
fn worker_reads_nothing_past_its_signal() {
    let (sender, receiver) = channel::<Message<u32>>();
    sender.send(Message::Task(1)).unwrap();
    sender.send(Message::Terminate).unwrap();
    sender.send(Message::Task(2)).unwrap();
    let mut ran = Vec::new();
    loop {
        match worker_step(receiver.recv()) {
            WorkerAction::Run(unit) => ran.push(unit),
            WorkerAction::Exit => break,
        }
    }
    assert_eq!(ran, vec![1]);
    assert!(matches!(receiver.try_recv(), Ok(Message::Task(2))));
}
