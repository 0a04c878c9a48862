//! What the framework holds of a task runtime: the two sides of a queue, a signal, and the means to
//! cancel a task.
//!
//! Each keeps a ghost record of what was done through it, so that a contract can say what a queue
//! was offered and how that ended, what room it was found to have, which sides belong to one queue,
//! that a signal was raised, and that a task was cancelled.

use tokio::sync::{mpsc, watch};
use tokio::task::AbortHandle;
use vstd::prelude::*;

verus! {

/// The sending side of a bounded queue, `tokio::sync::mpsc::Sender`.
#[verifier::external_type_specification]
#[verifier::external_body]
#[verifier::reject_recursive_types(T)]
pub struct ExMpscSender<T>(mpsc::Sender<T>);

/// The receiving side of a bounded queue, `tokio::sync::mpsc::Receiver`.
#[verifier::external_type_specification]
#[verifier::external_body]
#[verifier::reject_recursive_types(T)]
pub struct ExMpscReceiver<T>(mpsc::Receiver<T>);

/// The sending side of a watched value, `tokio::sync::watch::Sender`.
#[verifier::external_type_specification]
#[verifier::external_body]
#[verifier::reject_recursive_types(T)]
pub struct ExWatchSender<T>(watch::Sender<T>);

/// The receiving side of a watched value, `tokio::sync::watch::Receiver`.
#[verifier::external_type_specification]
#[verifier::external_body]
#[verifier::reject_recursive_types(T)]
pub struct ExWatchReceiver<T>(watch::Receiver<T>);

/// A handle by which a task can be cancelled, `tokio::task::AbortHandle`.
#[verifier::external_type_specification]
#[verifier::external_body]
pub struct ExAbortHandle(AbortHandle);

/// How an attempt to put something into a queue ended.
#[derive(Debug, Clone, Copy, PartialEq, Eq, Structural)]
pub enum SendOutcome {
    /// It is in the queue.
    Sent,
    /// The queue was full.
    Full,
    /// Nobody reads the queue any more.
    Closed,
}

/// How many of the attempts `outcomes` put something into a queue.
pub open spec fn sent_in(outcomes: Seq<SendOutcome>) -> nat
    decreases outcomes.len(),
{
    if outcomes.len() == 0 {
        0
    } else {
        sent_in(outcomes.drop_last()) + if outcomes.last() == SendOutcome::Sent {
            1nat
        } else {
            0
        }
    }
}

/// The sending side of a bounded queue that has no other sender.
#[verifier::reject_recursive_types(T)]
pub struct Outlet<T> {
    sender: mpsc::Sender<T>,
    bound: Ghost<usize>,
    offered: Ghost<Seq<T>>,
    outcomes: Ghost<Seq<SendOutcome>>,
    rooms: Ghost<Seq<usize>>,
}

/// The receiving side of a bounded queue. It remembers the sending side that it was made with.
#[verifier::reject_recursive_types(T)]
pub struct Inlet<T> {
    receiver: mpsc::Receiver<T>,
    link: Ghost<mpsc::Sender<T>>,
}

/// Makes a bounded queue with `tokio::sync::mpsc::channel`, which returns the two sides of one
/// queue. The sending side is kept in an outlet that records the bound and that nothing was offered
/// yet, the receiving side in an inlet that remembers that sending side. The call panics where the
/// bound is 0 or more than an eighth of the number range, which is left out here. Nothing is
/// claimed of what the receiving side will receive.
#[verifier::external_body]
fn channel<T>(bound: usize) -> (ends: (Outlet<T>, Inlet<T>))
    requires
        0 < bound <= usize::MAX / 8,
    ensures
        ends.0.bound() == bound,
        ends.0.offered() == Seq::<T>::empty(),
        ends.0.outcomes() == Seq::<SendOutcome>::empty(),
        ends.0.rooms() == Seq::<usize>::empty(),
        ends.0.link() == ends.1.link(),
{
    let (sender, receiver) = mpsc::channel(bound);
    let inlet = Inlet { receiver, link: Ghost(sender) };
    let (offered, outcomes) = (Ghost(Seq::empty()), Ghost(Seq::empty()));
    let rooms = Ghost(Seq::empty());
    (Outlet { sender, bound: Ghost(bound), offered, outcomes, rooms }, inlet)
}

/// Offers a message to the queue with `tokio::sync::mpsc::Sender::try_send`, which does not wait,
/// and records the message and how that ended. A message takes one of as many places as the bound
/// says, and its place is free again once it was received; so the queue can be full only where at
/// least that many messages were put into it before. Whether it is depends on what the receiver has
/// done meanwhile, so nothing else is claimed of the outcome.
#[verifier::external_body]
fn try_send<T>(outlet: &mut Outlet<T>, message: T) -> (outcome: SendOutcome)
    ensures
        final(outlet).link() == old(outlet).link(),
        final(outlet).bound() == old(outlet).bound(),
        final(outlet).offered() == old(outlet).offered().push(message),
        final(outlet).outcomes() == old(outlet).outcomes().push(outcome),
        final(outlet).rooms() == old(outlet).rooms(),
        outcome == SendOutcome::Full ==> sent_in(old(outlet).outcomes()) >= old(outlet).bound(),
{
    match outlet.sender.try_send(message) {
        Ok(()) => SendOutcome::Sent,
        Err(mpsc::error::TrySendError::Full(_)) => SendOutcome::Full,
        Err(mpsc::error::TrySendError::Closed(_)) => SendOutcome::Closed,
    }
}

/// The bound that the queue was made with, as `tokio::sync::mpsc::Sender::max_capacity` tells.
#[verifier::external_body]
fn max_capacity<T>(outlet: &Outlet<T>) -> (bound: usize)
    ensures
        bound == outlet.bound(),
{
    outlet.sender.max_capacity()
}

/// How many messages the queue has room for just now, as `tokio::sync::mpsc::Sender::capacity`
/// tells: the bound, less a place for each message that was put in and not yet received. So no more
/// places are in use than messages were put in, let alone offered. How many were received depends on
/// what the receiver has done meanwhile. What the call told is recorded.
#[verifier::external_body]
fn capacity<T>(outlet: &mut Outlet<T>) -> (room: usize)
    ensures
        room <= old(outlet).bound(),
        old(outlet).bound() - room <= old(outlet).offered().len(),
        old(outlet).bound() - room <= sent_in(old(outlet).outcomes()),
        final(outlet).rooms() == old(outlet).rooms().push(room),
        final(outlet).same_queue(*old(outlet)),
{
    outlet.sender.capacity()
}

impl<T> Inlet<T> {
    /// The sending side of the queue.
    pub closed spec fn link(self) -> mpsc::Sender<T> {
        self.link@
    }

    /// The receiving side of the queue.
    pub closed spec fn receiver(self) -> mpsc::Receiver<T> {
        self.receiver
    }

    /// Hands out the receiving side of the queue.
    pub fn into_receiver(self) -> (receiver: mpsc::Receiver<T>)
        ensures
            receiver == self.receiver(),
    {
        self.receiver
    }
}

impl<T> Outlet<T> {
    /// The sending side of the queue.
    pub closed spec fn link(self) -> mpsc::Sender<T> {
        self.sender
    }

    /// How many messages the queue holds at most.
    pub closed spec fn bound(self) -> usize {
        self.bound@
    }

    /// The messages that the queue was offered, in order, whether or not it took them.
    pub closed spec fn offered(self) -> Seq<T> {
        self.offered@
    }

    /// How each message that the queue was offered fared, in the same order.
    pub closed spec fn outcomes(self) -> Seq<SendOutcome> {
        self.outcomes@
    }

    /// How many messages the queue was found to have room for, each time it was asked, in order.
    pub closed spec fn rooms(self) -> Seq<usize> {
        self.rooms@
    }

    /// Whether this is the queue of `before`, with nothing offered since.
    pub open spec fn same_queue(self, before: Self) -> bool {
        &&& self.link() == before.link()
        &&& self.bound() == before.bound()
        &&& self.offered() == before.offered()
        &&& self.outcomes() == before.outcomes()
    }

    /// Makes a queue that holds at most `bound` messages.
    pub fn new(bound: usize) -> (ends: (Self, Inlet<T>))
        requires
            0 < bound <= usize::MAX / 8,
        ensures
            ends.0.bound() == bound,
            ends.0.offered() == Seq::<T>::empty(),
            ends.0.outcomes() == Seq::<SendOutcome>::empty(),
            ends.0.rooms() == Seq::<usize>::empty(),
            ends.0.link() == ends.1.link(),
    {
        channel(bound)
    }

    /// Offers a message to the queue, without waiting. Until as many messages were put in as it
    /// holds, it is not full.
    pub fn offer(&mut self, message: T) -> (outcome: SendOutcome)
        ensures
            final(self).link() == old(self).link(),
            final(self).bound() == old(self).bound(),
            final(self).offered() == old(self).offered().push(message),
            final(self).outcomes() == old(self).outcomes().push(outcome),
            final(self).rooms() == old(self).rooms(),
            outcome == SendOutcome::Full ==> sent_in(old(self).outcomes()) >= old(self).bound(),
    {
        try_send(self, message)
    }

    /// How many messages are in the queue just now: its bound less the room that it is found to
    /// have. How many of the messages offered those are depends on what the receiver has done
    /// meanwhile.
    pub fn queued(&mut self) -> (n: usize)
        ensures
            final(self).same_queue(*old(self)),
            n <= old(self).bound(),
            n <= old(self).offered().len(),
            n <= sent_in(old(self).outcomes()),
            final(self).rooms() == old(self).rooms().push((old(self).bound() - n) as usize),
    {
        let bound = max_capacity(self);
        let room = capacity(self);
        queued_with(bound, room)
    }
}

/// How many messages are in a queue that has the given bound and room.
pub fn queued_with(bound: usize, room: usize) -> (n: usize)
    ensures
        n == if bound >= room {
            bound - room
        } else {
            0
        },
{
    if bound >= room {
        bound - room
    } else {
        0
    }
}

/// A signal that is raised once, and that others wait for. Its value has no other sender.
pub struct Signal {
    sender: watch::Sender<bool>,
    sent: Ghost<Seq<bool>>,
}

/// The receiving side that `tokio::sync::watch::Sender::subscribe` makes of `sender` when the
/// watched value has been each of `sent`, in order: connected to that sender, with all of `sent`
/// marked as seen.
pub uninterp spec fn subscribed(sender: watch::Sender<bool>, sent: Seq<bool>) -> watch::Receiver<
    bool,
>;

/// Makes a watched value with `tokio::sync::watch::channel` that is `init` at first, and keeps its
/// sending side in a signal that records the value. Nothing is claimed of the receiving side, which
/// is dropped.
#[verifier::external_body]
fn watched(init: bool) -> (signal: Signal)
    ensures
        signal.sent() == seq![init],
{
    let (sender, _receiver) = watch::channel(init);
    Signal { sender, sent: Ghost(seq![init]) }
}

/// Replaces the watched value with `tokio::sync::watch::Sender::send_replace`, which wakes the
/// waiting receivers, and records the new value. The call returns the value before.
#[verifier::external_body]
fn send_replace(signal: &mut Signal, value: bool) -> (before: bool)
    ensures
        before == old(signal).raised(),
        final(signal).sender() == old(signal).sender(),
        final(signal).sent() == old(signal).sent().push(value),
{
    signal.sender.send_replace(value)
}

/// A further receiving side, made with `tokio::sync::watch::Sender::subscribe`. It depends on the
/// sender and on what was sent through it, and on nothing else.
#[verifier::external_body]
fn subscribe(signal: &Signal) -> (receiver: watch::Receiver<bool>)
    ensures
        receiver == subscribed(signal.sender(), signal.sent()),
{
    signal.sender.subscribe()
}

impl Signal {
    /// The sending side.
    pub closed spec fn sender(self) -> watch::Sender<bool> {
        self.sender
    }

    /// The values that the signal has had, in order; the last one is its value now.
    pub closed spec fn sent(self) -> Seq<bool> {
        self.sent@
    }

    /// Whether the signal was raised.
    pub open spec fn raised(self) -> bool {
        self.sent().last()
    }

    /// A signal that was not raised.
    pub fn new() -> (signal: Self)
        ensures
            signal.sent() == seq![false],
            !signal.raised(),
    {
        watched(false)
    }

    /// Raises the signal. Tells whether it was raised before.
    pub fn raise(&mut self) -> (before: bool)
        ensures
            before == old(self).raised(),
            final(self).raised(),
            final(self).sender() == old(self).sender(),
            final(self).sent() == old(self).sent().push(true),
    {
        send_replace(self, true)
    }

    /// Something by which the signal can be waited for: it is connected to this signal, and has
    /// seen the values that the signal has had so far.
    pub fn watch(&self) -> (receiver: watch::Receiver<bool>)
        ensures
            receiver == subscribed(self.sender(), self.sent()),
    {
        subscribe(self)
    }
}

/// The means to cancel a task.
pub struct Switch {
    handle: AbortHandle,
    pulled: Ghost<bool>,
}

/// Asks the task's runtime to cancel it with `tokio::task::AbortHandle::abort`, and records that.
/// Nothing is claimed of what the task does.
#[verifier::external_body]
fn abort(switch: &mut Switch)
    ensures
        final(switch).handle() == old(switch).handle(),
        final(switch).pulled(),
{
    switch.handle.abort();
}

impl Switch {
    /// The handle of the task.
    pub closed spec fn handle(self) -> AbortHandle {
        self.handle
    }

    /// Whether the task was asked to end.
    pub closed spec fn pulled(self) -> bool {
        self.pulled@
    }

    /// The means to cancel the task of `handle`, not used yet.
    pub fn new(handle: AbortHandle) -> (switch: Self)
        ensures
            switch.handle() == handle,
            !switch.pulled(),
    {
        Switch { handle, pulled: Ghost(false) }
    }

    /// Cancels the task.
    pub fn pull(&mut self)
        ensures
            final(self).handle() == old(self).handle(),
            final(self).pulled(),
    {
        abort(self)
    }
}

} // verus!
