//! The queue itself is `std::sync::mpsc`. This file tells the verifier which
//! of its types and functions the pool uses, and what is taken for granted
//! of each.

use crate::message::Message;
use vstd::prelude::*;

verus! {

/// The sending half of a queue. Nothing inside it is visible to proofs.
#[verifier::external_type_specification]
#[verifier::external_body]
#[verifier::reject_recursive_types(T)]
pub struct ExSender<T>(std::sync::mpsc::Sender<T>);

/// The receiving half of a queue. Nothing inside it is visible to proofs.
#[verifier::external_type_specification]
#[verifier::external_body]
#[verifier::reject_recursive_types(T)]
pub struct ExReceiver<T>(std::sync::mpsc::Receiver<T>);

/// The error of a failed send. Its one public field is the value that could
/// not be sent.
#[verifier::external_type_specification]
#[verifier::reject_recursive_types(T)]
pub struct ExSendError<T>(std::sync::mpsc::SendError<T>);

/// The error of a receive on a queue that is empty and has no sender left.
#[verifier::external_type_specification]
pub struct ExRecvError(std::sync::mpsc::RecvError);

/// The lock that lets several workers share one receiving half.
#[verifier::external_type_specification]
#[verifier::external_body]
#[verifier::reject_recursive_types(T)]
pub struct ExMutex<T: ?Sized>(std::sync::Mutex<T>);

/// `std::sync::mpsc::channel` makes a new unbounded queue and returns its two
/// halves. Nothing is claimed of them.
pub assume_specification<T>[ std::sync::mpsc::channel::<T> ]() -> (halves: (
    std::sync::mpsc::Sender<T>,
    std::sync::mpsc::Receiver<T>,
));

/// `Sender::send` never blocks. It either queues the value or, when the
/// receiving half is gone, gives the very same value back inside the error.
/// Whether it succeeds depends on the other threads, so nothing is claimed
/// about when it does.
pub assume_specification<T>[ std::sync::mpsc::Sender::<T>::send ](
    sender: &std::sync::mpsc::Sender<T>,
    value: T,
) -> (sent: Result<(), std::sync::mpsc::SendError<T>>)
    ensures
        sent matches Err(refused) ==> refused.0 == value,
;

/// `Mutex::new` wraps a value in a lock. Nothing is claimed of the lock.
pub assume_specification<T>[ std::sync::Mutex::<T>::new ](value: T) -> (lock: std::sync::Mutex<T>);

/// What a send returns: the queue takes the message while some worker still
/// holds the receiving half, and gives it back in the error once none does.
pub open spec fn queue_send<T>(connected: bool, message: Message<T>) -> Result<
    (),
    std::sync::mpsc::SendError<Message<T>>,
> {
    if connected {
        Ok(())
    } else {
        Err(std::sync::mpsc::SendError(message))
    }
}

/// `Arc::clone` makes another pointer to the same allocation, so the value
/// seen through the new pointer is the value seen through the old one.
#[verifier::external_body]
pub(crate) fn another_pointer<V>(shared: &std::sync::Arc<V>) -> (other: std::sync::Arc<V>)
    ensures
        other == *shared,
{
    std::sync::Arc::clone(shared)
}

} // verus!
