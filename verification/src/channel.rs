//! The bidirectional, non-blocking transport between the simulation thread
//! and the presentation thread.
//!
//! A `ThreadChannel` pair is two endpoints wired crosswise over two unbounded
//! queues: what one endpoint sends, the other receives, in FIFO order per
//! direction. Neither `send` nor `receive` ever blocks; a send fails only
//! when the peer endpoint is gone, and the caller is free to ignore that.
//! The queues themselves belong to another thread's timeline, so nothing is
//! assumed here about what a drain returns; the engine's verified functions
//! take the drained messages as arguments instead.

use vstd::prelude::*;

verus! {

/// Declares crossbeam_channel::Sender, the send half of a channel, so that
/// it can stand in fields and signatures; it stays opaque.
#[verifier::external_type_specification]
#[verifier::external_body]
#[verifier::reject_recursive_types(T)]
pub struct ExSender<T>(crossbeam_channel::Sender<T>);

/// Declares crossbeam_channel::Receiver, the receive half of a channel, so
/// that it can stand in fields and signatures; it stays opaque.
#[verifier::external_type_specification]
#[verifier::external_body]
#[verifier::reject_recursive_types(T)]
pub struct ExReceiver<T>(crossbeam_channel::Receiver<T>);

/// Relies on crossbeam_channel::unbounded: a connected sender/receiver pair
/// for a queue with no capacity bound.
#[verifier::external_body]
fn unbounded_channel<T>() -> (crossbeam_channel::Sender<T>, crossbeam_channel::Receiver<T>) {
    crossbeam_channel::unbounded()
}

/// Relies on crossbeam_channel::Sender::try_send: it never blocks, and on an
/// unbounded channel it fails only when every receiver has been dropped.
#[verifier::external_body]
fn try_send_raw<T>(sender: &crossbeam_channel::Sender<T>, message: T) -> bool {
    sender.try_send(message).is_ok()
}

/// Relies on crossbeam_channel::Receiver::try_iter: it drains, without ever
/// blocking, exactly the messages already queued, in FIFO order.
#[verifier::external_body]
fn drain_raw<T>(receiver: &crossbeam_channel::Receiver<T>) -> Vec<T> {
    receiver.try_iter().collect()
}

/// One endpoint of a full-duplex pipe: a send half and a receive half, wired
/// so that the peer endpoint receives what this one sends and vice versa.
#[verifier::reject_recursive_types(T)]
pub struct ThreadChannel<T> {
    pub sender: crossbeam_channel::Sender<T>,
    pub receiver: crossbeam_channel::Receiver<T>,
}

impl<T> ThreadChannel<T> {
    /// An endpoint from a send half and a receive half.
    pub fn new(
        sender: crossbeam_channel::Sender<T>,
        receiver: crossbeam_channel::Receiver<T>,
    ) -> (channel: ThreadChannel<T>)
        ensures
            channel.sender == sender,
            channel.receiver == receiver,
    {
        ThreadChannel { sender, receiver }
    }

    /// A connected pair of endpoints: two unbounded queues, one per
    /// direction, wired crosswise.
    pub fn new_pair() -> (ThreadChannel<T>, ThreadChannel<T>) {
        let (a_tx, b_rx) = unbounded_channel();
        let (b_tx, a_rx) = unbounded_channel();
        (ThreadChannel::new(a_tx, a_rx), ThreadChannel::new(b_tx, b_rx))
    }

    /// Enqueues `message` for the peer without blocking. Returns whether the
    /// message was accepted; it is refused only when the peer endpoint has
    /// been fully dropped, and the caller may ignore the outcome
    /// (fire-and-forget telemetry).
    pub fn send(&self, message: T) -> bool {
        try_send_raw(&self.sender, message)
    }

    /// Drains and returns every message currently queued by the peer, in
    /// FIFO order, without blocking; empty when none are pending.
    pub fn receive(&self) -> Vec<T> {
        drain_raw(&self.receiver)
    }
}

} // verus!
