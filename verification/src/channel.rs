//! Single-shot result transport: the sending half lives inside a task, the
//! receiving half inside its waiter. The channel itself is the standard
//! library's, taken on trust through the wrappers below.

use vstd::prelude::*;

verus! {

#[verifier::external_type_specification]
#[verifier::external_body]
#[verifier::reject_recursive_types(T)]
pub struct ExSender<T>(std::sync::mpsc::Sender<T>);

#[verifier::external_type_specification]
#[verifier::external_body]
#[verifier::reject_recursive_types(T)]
pub struct ExReceiver<T>(std::sync::mpsc::Receiver<T>);

/// Relies on `std::sync::mpsc::channel`: a fresh connected pair of ends.
#[verifier::external_body]
pub fn new_channel<T>() -> (ends: (std::sync::mpsc::Sender<T>, std::sync::mpsc::Receiver<T>)) {
    std::sync::mpsc::channel()
}

/// Relies on `std::sync::mpsc::Sender::send`: delivery depends on the far
/// end, so nothing is promised beyond a rejected value coming back unchanged.
#[verifier::external_body]
pub fn send_value<T>(sender: &std::sync::mpsc::Sender<T>, value: T) -> (r: Result<(), T>)
    ensures
        r matches Err(v) ==> v == value,
{
    match sender.send(value) {
        Ok(()) => Ok(()),
        Err(std::sync::mpsc::SendError(v)) => Err(v),
    }
}

/// Relies on `std::sync::mpsc::Receiver::recv`: blocks until a value arrives
/// or every sender is gone; which of the two happens cannot be promised here.
#[verifier::external_body]
pub fn recv_value<T>(receiver: &std::sync::mpsc::Receiver<T>) -> (r: Result<T, ()>) {
    match receiver.recv() {
        Ok(v) => Ok(v),
        Err(_) => Err(()),
    }
}

} // verus!
