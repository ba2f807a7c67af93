use vstd::prelude::*;
use std::sync::mpsc::Receiver;
use std::sync::mpsc::SyncSender;

verus! {

#[verifier::external_type_specification]
#[verifier::external_body]
#[verifier::reject_recursive_types(T)]
pub struct ExReceiver<T>(Receiver<T>);

#[verifier::external_type_specification]
#[verifier::external_body]
#[verifier::reject_recursive_types(T)]
pub struct ExSyncSender<T>(SyncSender<T>);

/// What one attempt to take a message off a channel found.
pub enum Received<T> {
    /// The next message.
    Message(T),
    /// No message is waiting, and the sending end is still there.
    Empty,
    /// No message is waiting, and the sending end has gone away.
    Disconnected,
}

/// What became of one attempt to put a message on a channel without waiting.
#[derive(Clone, Copy, Debug, PartialEq, Eq, Structural)]
pub enum Delivery {
    /// The message is in the channel.
    Sent,
    /// The channel's buffer is full; the message was dropped.
    Full,
    /// The receiving end has gone away; the message was dropped.
    Disconnected,
}

/// Calls `std::sync::mpsc::sync_channel`: a new channel whose buffer holds up
/// to `bound` messages. Nothing is stated of the two ends, which are opaque.
#[verifier::external_body]
pub(crate) fn bounded_channel<T>(bound: usize) -> (SyncSender<T>, Receiver<T>) {
    std::sync::mpsc::sync_channel(bound)
}

/// Calls `Receiver::try_recv`. What comes back depends on the threads that
/// hold the other end, so nothing is stated of it.
#[verifier::external_body]
pub(crate) fn try_receive<T>(receiver: &Receiver<T>) -> Received<T> {
    match receiver.try_recv() {
        Ok(message) => Received::Message(message),
        Err(std::sync::mpsc::TryRecvError::Empty) => Received::Empty,
        Err(std::sync::mpsc::TryRecvError::Disconnected) => Received::Disconnected,
    }
}

/// Calls `SyncSender::try_send`. Whether the message got through depends on
/// the receiving thread, so nothing is stated of the outcome.
#[verifier::external_body]
pub(crate) fn try_deliver<T>(sender: &SyncSender<T>, message: T) -> Delivery {
    match sender.try_send(message) {
        Ok(()) => Delivery::Sent,
        Err(std::sync::mpsc::TrySendError::Full(_)) => Delivery::Full,
        Err(std::sync::mpsc::TrySendError::Disconnected(_)) => Delivery::Disconnected,
    }
}

/// Calls `SyncSender::send`, which waits for room in the buffer; gives back
/// whether the message was sent. Nothing is stated of the outcome, which
/// depends on the receiving thread.
#[verifier::external_body]
pub(crate) fn deliver<T>(sender: &SyncSender<T>, message: T) -> bool {
    sender.send(message).is_ok()
}

} // verus!
