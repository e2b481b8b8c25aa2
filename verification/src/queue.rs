//! The event queue: a `crossbeam` channel and a thread's two ends of it.

use vstd::prelude::*;
use crossbeam::channel::Receiver;
use crossbeam::channel::RecvError;
use crossbeam::channel::SendError;
use crossbeam::channel::Sender;
use crate::Event;
use crate::EventView;

verus! {

/// `crossbeam::channel::Sender`: the sending side of a channel.
#[verifier::external_type_specification]
#[verifier::external_body]
#[verifier::reject_recursive_types(T)]
pub struct ExSender<T>(Sender<T>);

/// `crossbeam::channel::Receiver`: the receiving side of a channel.
#[verifier::external_type_specification]
#[verifier::external_body]
#[verifier::reject_recursive_types(T)]
pub struct ExReceiver<T>(Receiver<T>);

/// `crossbeam::channel::SendError`: a message that could not be sent.
#[verifier::external_type_specification]
#[verifier::external_body]
#[verifier::reject_recursive_types(T)]
pub struct ExSendError<T>(SendError<T>);

/// `crossbeam::channel::RecvError`: nothing is left to receive.
#[verifier::external_type_specification]
#[verifier::external_body]
pub struct ExRecvError(RecvError);

/// Why the queue refused an operation.
#[derive(Debug, PartialEq, Eq, Clone, Copy)]
pub enum QueueError {
    /// No receiver is left to take what is sent.
    NoReceiver,
    /// The queue is empty and no sender is left to fill it.
    NoSender,
}

/// Calls `Sender::send`. Trusted: nothing; whether the message was taken
/// depends on the other side of the channel.
#[verifier::external_body]
fn send(sender: &Sender<Event>, event: Event) -> (sent: Result<(), SendError<Event>>) {
    sender.send(event)
}

/// Calls `Receiver::recv`, which blocks until a message arrives or the last
/// sender is gone. Trusted: nothing; what arrives depends on the other threads.
#[verifier::external_body]
fn recv(receiver: &Receiver<Event>) -> (received: Result<Event, RecvError>) {
    receiver.recv()
}

/// A thread's sending end of the queue. It keeps, for contracts only, the
/// events that the queue accepted from it, in order.
pub struct Outbox {
    sender: Sender<Event>,
    sent: Ghost<Seq<EventView>>,
}

impl Outbox {
    /// The events that the queue has accepted from this end, the first of them first.
    pub closed spec fn sent(&self) -> Seq<EventView> {
        self.sent@
    }

    /// A sending end that has sent nothing yet.
    pub fn new(sender: Sender<Event>) -> (outbox: Self)
        ensures
            outbox.sent() == Seq::<EventView>::empty(),
    {
        Outbox { sender, sent: Ghost(Seq::empty()) }
    }

    /// Puts `event` at the back of the queue. It fails, and the event is lost,
    /// when no receiver is left.
    pub fn publish(&mut self, event: Event) -> (done: Result<(), QueueError>)
        ensures
            done is Ok ==> final(self).sent() == old(self).sent().push(event@),
            done is Err ==> final(self).sent() == old(self).sent(),
            done is Err ==> done == Err::<(), QueueError>(QueueError::NoReceiver),
    {
        let ghost entry = event@;
        match send(&self.sender, event) {
            Ok(_) => {
                proof {
                    self.sent@ = self.sent@.push(entry);
                }
                Ok(())
            },
            Err(_) => Err(QueueError::NoReceiver),
        }
    }
}

/// A thread's receiving end of the queue. It keeps, for contracts only, the
/// events that it took from the queue, in order.
pub struct Inbox {
    receiver: Receiver<Event>,
    received: Ghost<Seq<EventView>>,
}

impl Inbox {
    /// The events taken from the queue through this end, the first of them first.
    pub closed spec fn received(&self) -> Seq<EventView> {
        self.received@
    }

    /// A receiving end that has taken nothing yet.
    pub fn new(receiver: Receiver<Event>) -> (inbox: Self)
        ensures
            inbox.received() == Seq::<EventView>::empty(),
    {
        Inbox { receiver, received: Ghost(Seq::empty()) }
    }

    /// Waits for the event at the front of the queue and takes it. It fails
    /// when the queue is empty and no sender is left.
    pub fn take(&mut self) -> (taken: Result<Event, QueueError>)
        ensures
            taken matches Ok(event) ==> final(self).received() == old(self).received().push(event@),
            taken is Err ==> final(self).received() == old(self).received(),
            taken is Err ==> taken == Err::<Event, QueueError>(QueueError::NoSender),
    {
        match recv(&self.receiver) {
            Ok(event) => {
                proof {
                    self.received@ = self.received@.push(event@);
                }
                Ok(event)
            },
            Err(_) => Err(QueueError::NoSender),
        }
    }
}

} // verus!
