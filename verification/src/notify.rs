//! Notifications: events that are put into a bounded queue per subscriber, without waiting for
//! anybody.
//!
//! Each subscriber has a lane of its own, so that a slow one only fills its own queue. A full lane
//! drops what comes new, and counts it. Once the scope takes nothing any more, every notification
//! is rejected, and counted as such for each of its subscribers.

use std::collections::HashMap;
use std::sync::Arc;

use tokio::sync::watch;
use vstd::prelude::*;

use crate::event::HandlerEntry;
use crate::outlet::{Inlet, Outlet, SendOutcome, Signal};

verus! {

broadcast use vstd::std_specs::hash::group_hash_axioms;

/// How many messages a lane holds at most.
pub const DEFAULT_LANE_CAPACITY: usize = 256;

/// What became of a notification.
#[derive(Debug, Clone, Copy, PartialEq, Eq, Structural)]
#[must_use]
pub struct Receipt {
    /// How many lanes took it.
    pub delivered: usize,
    /// How many lanes were full.
    pub dropped: usize,
    /// How many scopes or lanes took nothing any more.
    pub rejected: usize,
}

impl Default for Receipt {
    fn default() -> (receipt: Self)
        ensures
            receipt == (Receipt { delivered: 0, dropped: 0, rejected: 0 }),
    {
        Receipt { delivered: 0, dropped: 0, rejected: 0 }
    }
}

impl Receipt {
    /// How many lanes and scopes the receipt speaks of.
    pub open spec fn total(self) -> nat {
        (self.delivered + self.dropped + self.rejected) as nat
    }

    /// Adds another receipt to this one.
    pub fn merge(&mut self, other: Receipt)
        requires
            old(self).delivered + other.delivered <= usize::MAX,
            old(self).dropped + other.dropped <= usize::MAX,
            old(self).rejected + other.rejected <= usize::MAX,
        ensures
            final(self).delivered == old(self).delivered + other.delivered,
            final(self).dropped == old(self).dropped + other.dropped,
            final(self).rejected == old(self).rejected + other.rejected,
    {
        self.delivered = self.delivered + other.delivered;
        self.dropped = self.dropped + other.dropped;
        self.rejected = self.rejected + other.rejected;
    }

    /// All receipts added up; `None` where a sum is out of the number range.
    pub fn sum(receipts: &Vec<Receipt>) -> (total: Option<Receipt>)
        ensures
            total is Some <==> delivered_in(receipts@) <= usize::MAX && dropped_in(receipts@)
                <= usize::MAX && rejected_in(receipts@) <= usize::MAX,
            total matches Some(total) ==> {
                &&& total.delivered == delivered_in(receipts@)
                &&& total.dropped == dropped_in(receipts@)
                &&& total.rejected == rejected_in(receipts@)
            },
    {
        let mut total = Receipt { delivered: 0, dropped: 0, rejected: 0 };
        let mut i: usize = 0;
        while i < receipts.len()
            invariant
                i <= receipts@.len(),
                total.delivered == delivered_in(receipts@.take(i as int)),
                total.dropped == dropped_in(receipts@.take(i as int)),
                total.rejected == rejected_in(receipts@.take(i as int)),
            decreases receipts@.len() - i,
        {
            let receipt = receipts[i];
            proof {
                assert(receipts@.take(i as int + 1).drop_last() =~= receipts@.take(i as int));
                lemma_sums_grow(receipts@, i as int + 1);
            }
            if total.delivered > usize::MAX - receipt.delivered || total.dropped > usize::MAX
                - receipt.dropped || total.rejected > usize::MAX - receipt.rejected {
                return None;
            }
            total.merge(receipt);
            i = i + 1;
        }
        assert(receipts@.take(i as int) =~= receipts@);
        Some(total)
    }
}

/// How many lanes took a notification, by all of `receipts`.
pub open spec fn delivered_in(receipts: Seq<Receipt>) -> nat
    decreases receipts.len(),
{
    if receipts.len() == 0 {
        0
    } else {
        delivered_in(receipts.drop_last()) + receipts.last().delivered as nat
    }
}

/// How many lanes were full, by all of `receipts`.
pub open spec fn dropped_in(receipts: Seq<Receipt>) -> nat
    decreases receipts.len(),
{
    if receipts.len() == 0 {
        0
    } else {
        dropped_in(receipts.drop_last()) + receipts.last().dropped as nat
    }
}

/// How many scopes or lanes took nothing any more, by all of `receipts`.
pub open spec fn rejected_in(receipts: Seq<Receipt>) -> nat
    decreases receipts.len(),
{
    if receipts.len() == 0 {
        0
    } else {
        rejected_in(receipts.drop_last()) + receipts.last().rejected as nat
    }
}

proof fn lemma_sums_grow(receipts: Seq<Receipt>, n: int)
    requires
        0 <= n <= receipts.len(),
    ensures
        delivered_in(receipts.take(n)) <= delivered_in(receipts),
        dropped_in(receipts.take(n)) <= dropped_in(receipts),
        rejected_in(receipts.take(n)) <= rejected_in(receipts),
    decreases receipts.len(),
{
    if n < receipts.len() {
        lemma_sums_grow(receipts.drop_last(), n);
        assert(receipts.drop_last().take(n) =~= receipts.take(n));
    } else {
        assert(receipts.take(n) =~= receipts);
    }
}

/// How far a subscriber is behind.
#[derive(Debug, Clone, Copy, PartialEq, Eq, Structural)]
pub struct Backlog {
    /// The subscriber's number in its scope.
    pub handler_id: usize,
    /// How many messages are in its lane.
    pub queued: usize,
    /// How many messages its lane was too full for.
    pub dropped: u64,
    /// How many messages were rejected: offered after the scope took nothing any more, or when
    /// nobody read the lane any more.
    pub rejected: u64,
}

/// The number after `n`. It wraps around at the end of the number range.
pub open spec fn bumped(n: u64) -> u64 {
    if n == u64::MAX {
        0
    } else {
        (n + 1) as u64
    }
}

fn bump(n: u64) -> (next: u64)
    ensures
        next == bumped(n),
{
    if n == u64::MAX {
        0
    } else {
        n + 1
    }
}

/// A subscriber's lane.
#[verifier::reject_recursive_types(E)]
pub struct Lane<E> {
    pub handler_id: usize,
    pub outlet: Outlet<Arc<E>>,
    pub dropped: u64,
    pub rejected: u64,
}

impl<E> Lane<E> {
    /// Whether nothing was put into the lane or counted yet.
    pub open spec fn unused(self) -> bool {
        &&& self.dropped == 0
        &&& self.rejected == 0
        &&& self.outlet.offered().len() == 0
        &&& self.outlet.outcomes().len() == 0
        &&& self.outlet.rooms().len() == 0
    }

    /// The number of messages dropped after an attempt ended with `outcome`.
    pub open spec fn dropped_after(self, outcome: SendOutcome) -> u64 {
        if outcome == SendOutcome::Full {
            bumped(self.dropped)
        } else {
            self.dropped
        }
    }

    /// The number of messages rejected after an attempt ended with `outcome`.
    pub open spec fn rejected_after(self, outcome: SendOutcome) -> u64 {
        if outcome == SendOutcome::Closed {
            bumped(self.rejected)
        } else {
            self.rejected
        }
    }

    /// Takes note of how an attempt to put something into the lane ended.
    pub fn account(&mut self, outcome: SendOutcome)
        ensures
            final(self).handler_id == old(self).handler_id,
            final(self).outlet == old(self).outlet,
            final(self).dropped == old(self).dropped_after(outcome),
            final(self).rejected == old(self).rejected_after(outcome),
    {
        match outcome {
            SendOutcome::Sent => {},
            SendOutcome::Full => {
                self.dropped = bump(self.dropped);
            },
            SendOutcome::Closed => {
                self.rejected = bump(self.rejected);
            },
        }
    }

    /// Whether `backlog` is how far the subscriber is behind, by what its queue was found to hold
    /// when it was asked once, and `after` is the lane then.
    pub open spec fn found(self, backlog: Backlog, after: Lane<E>) -> bool {
        &&& backlog.handler_id == self.handler_id
        &&& backlog.dropped == self.dropped
        &&& backlog.rejected == self.rejected
        &&& backlog.queued <= self.outlet.bound()
        &&& backlog.queued <= self.outlet.offered().len()
        &&& backlog.queued <= crate::outlet::sent_in(self.outlet.outcomes())
        &&& after == (Lane { outlet: after.outlet, ..self })
        &&& after.outlet.same_queue(self.outlet)
        &&& after.outlet.rooms() == self.outlet.rooms().push(
            (self.outlet.bound() - backlog.queued) as usize,
        )
    }

    /// How far the subscriber is behind, where its queue holds `queued` messages.
    pub fn backlog(&self, queued: usize) -> (backlog: Backlog)
        ensures
            backlog == (Backlog {
                handler_id: self.handler_id,
                queued,
                dropped: self.dropped,
                rejected: self.rejected,
            }),
    {
        Backlog {
            handler_id: self.handler_id,
            queued,
            dropped: self.dropped,
            rejected: self.rejected,
        }
    }
}

/// What the attempts `outcomes` amount to.
pub open spec fn tally(outcomes: Seq<SendOutcome>) -> Receipt
    decreases outcomes.len(),
{
    if outcomes.len() == 0 {
        Receipt { delivered: 0, dropped: 0, rejected: 0 }
    } else {
        let before = tally(outcomes.drop_last());
        match outcomes.last() {
            SendOutcome::Sent => Receipt {
                delivered: (before.delivered + 1) as usize,
                ..before
            },
            SendOutcome::Full => Receipt { dropped: (before.dropped + 1) as usize, ..before },
            SendOutcome::Closed => Receipt {
                rejected: (before.rejected + 1) as usize,
                ..before
            },
        }
    }
}

/// Every attempt is counted once, as delivered, dropped or rejected.
pub proof fn every_attempt_is_counted(outcomes: Seq<SendOutcome>)
    requires
        outcomes.len() <= usize::MAX,
    ensures
        tally(outcomes).total() == outcomes.len(),
    decreases outcomes.len(),
{
    if outcomes.len() > 0 {
        every_attempt_is_counted(outcomes.drop_last());
    }
}

/// Adds the outcome of an attempt to a receipt.
fn count(receipt: &mut Receipt, outcome: SendOutcome, ghost_outcomes: Ghost<Seq<SendOutcome>>)
    requires
        *old(receipt) == tally(ghost_outcomes@),
        ghost_outcomes@.len() < usize::MAX,
    ensures
        *final(receipt) == tally(ghost_outcomes@.push(outcome)),
{
    proof {
        every_attempt_is_counted(ghost_outcomes@);
        assert(ghost_outcomes@.push(outcome).drop_last() =~= ghost_outcomes@);
    }
    match outcome {
        SendOutcome::Sent => {
            receipt.delivered = receipt.delivered + 1;
        },
        SendOutcome::Full => {
            receipt.dropped = receipt.dropped + 1;
        },
        SendOutcome::Closed => {
            receipt.rejected = receipt.rejected + 1;
        },
    }
}

/// What a subscriber's worker needs: the handler, and the receiving side of the lane.
#[verifier::reject_recursive_types(E)]
pub struct LaneInput<E, K> {
    pub handler: Arc<K>,
    pub rx: Inlet<Arc<E>>,
}

/// The lanes of a scope's subscribers. `E` is an event and `K` a handler.
#[verifier::reject_recursive_types(E)]
pub struct NotifyHub<E, K> {
    pub lanes: Vec<Lane<E>>,
    /// The lanes of each event type.
    pub by_type: HashMap<u64, Vec<usize>>,
    /// Tells the workers to finish what is queued and end.
    pub shutdown: Signal,
    /// Whether nothing is taken any more.
    pub closed: bool,
    /// What the workers need, until they are started.
    pub inputs: Vec<LaneInput<E, K>>,
}

/// The positions of the handlers of one event type.
pub open spec fn positions<K>(handlers: Seq<HandlerEntry<K>>, event: u64) -> Seq<usize>
    decreases handlers.len(),
{
    if handlers.len() == 0 {
        Seq::empty()
    } else {
        let before = positions(handlers.drop_last(), event);
        if handlers.last().event == event {
            before.push((handlers.len() - 1) as usize)
        } else {
            before
        }
    }
}

impl<E, K> NotifyHub<E, K> {
    /// Every lane listed for an event type exists, and is listed once; all lanes have the same
    /// bound.
    pub open spec fn wf(self) -> bool {
        &&& forall|event: u64| #[trigger]
            self.by_type@.contains_key(event) ==> {
                &&& self.by_type@[event]@.no_duplicates()
                &&& forall|k: int|
                    0 <= k < self.by_type@[event]@.len() ==> (#[trigger] self.by_type@[event]@[k])
                        < self.lanes@.len()
            }
        &&& forall|i: int|
            0 <= i < self.lanes@.len() ==> (#[trigger] self.lanes@[i]).outlet.bound()
                == DEFAULT_LANE_CAPACITY
    }

    /// The lanes of an event type.
    pub open spec fn lanes_of(self, event: u64) -> Seq<usize> {
        if self.by_type@.contains_key(event) {
            self.by_type@[event]@
        } else {
            Seq::empty()
        }
    }

    /// Whether this is a hub as it is made for `handlers`: it takes events, there is an unused lane
    /// for each handler, in the order of registration, and with each handler comes the receiving
    /// side of its own lane.
    pub open spec fn built_from(self, handlers: Seq<HandlerEntry<K>>) -> bool {
        &&& self.wf()
        &&& !self.closed
        &&& self.shutdown.sent() == seq![false]
        &&& !self.shutdown.raised()
        &&& self.lanes@.len() == handlers.len()
        &&& forall|i: int|
            0 <= i < handlers.len() ==> (#[trigger] self.lanes@[i]).handler_id == handlers[i].id
                && self.lanes@[i].unused()
        &&& self.inputs@.len() == handlers.len()
        &&& forall|i: int|
            0 <= i < handlers.len() ==> (#[trigger] self.inputs@[i]).handler == handlers[i].handler
                && self.inputs@[i].rx.link() == self.lanes@[i].outlet.link()
        &&& forall|event: u64| #[trigger] self.lanes_of(event) == positions(handlers, event)
    }

    /// Makes a lane for each handler, in the order of registration.
    pub fn build(handlers: &Vec<HandlerEntry<K>>) -> (hub: Self)
        ensures
            hub.built_from(handlers@),
    {
        let mut hub: NotifyHub<E, K> = NotifyHub {
            lanes: Vec::new(),
            by_type: HashMap::new(),
            shutdown: Signal::new(),
            closed: false,
            inputs: Vec::new(),
        };
        let mut i: usize = 0;
        while i < handlers.len()
            invariant
                i <= handlers@.len(),
                hub.wf(),
                !hub.closed,
                hub.shutdown.sent() == seq![false],
                hub.lanes@.len() == i,
                forall|k: int|
                    0 <= k < i ==> (#[trigger] hub.lanes@[k]).handler_id == handlers@[k].id
                        && hub.lanes@[k].unused(),
                hub.inputs@.len() == i,
                forall|k: int|
                    0 <= k < i ==> (#[trigger] hub.inputs@[k]).handler == handlers@[k].handler
                        && hub.inputs@[k].rx.link() == hub.lanes@[k].outlet.link(),
                forall|event: u64| #[trigger]
                    hub.lanes_of(event) == positions(handlers@.take(i as int), event),
            decreases handlers@.len() - i,
        {
            let ghost before = hub;
            let (outlet, rx) = Outlet::new(DEFAULT_LANE_CAPACITY);
            let event = handlers[i].event;
            let mut listed: Vec<usize> = match hub.by_type.remove(&event) {
                Some(listed) => listed,
                None => Vec::new(),
            };
            assert(listed@ =~= before.lanes_of(event));
            listed.push(i);
            hub.by_type.insert(event, listed);
            hub.inputs.push(LaneInput { handler: handlers[i].handler.clone(), rx });
            hub.lanes.push(Lane { handler_id: handlers[i].id, outlet, dropped: 0, rejected: 0 });
            proof {
                assert(handlers@.take(i as int + 1).drop_last() =~= handlers@.take(i as int));
                assert(hub.by_type@ =~= before.by_type@.insert(event, listed));
                assert forall|other: u64| #[trigger]
                    hub.lanes_of(other) == positions(handlers@.take(i as int + 1), other) by {
                    assert(before.lanes_of(other) == positions(handlers@.take(i as int), other));
                }
                assert forall|other: u64| #[trigger] hub.by_type@.contains_key(other) implies {
                    &&& hub.by_type@[other]@.no_duplicates()
                    &&& forall|k: int|
                        0 <= k < hub.by_type@[other]@.len() ==> (
                        #[trigger] hub.by_type@[other]@[k]) < hub.lanes@.len()
                } by {
                    if other != event {
                        assert(before.by_type@.contains_key(other));
                    } else {
                        let old_list = before.lanes_of(event);
                        if before.by_type@.contains_key(event) {
                            assert(old_list.no_duplicates());
                        }
                        assert forall|k: int| 0 <= k < old_list.len() implies (
                        #[trigger] old_list[k]) < i by {
                            assert(before.by_type@.contains_key(event));
                        }
                        assert(hub.by_type@[other]@ =~= old_list.push(i));
                    }
                }
            }
            i = i + 1;
        }
        assert(handlers@.take(i as int) =~= handlers@);
        hub
    }

    /// Hands out what the workers need. It is there to be taken once.
    pub fn take_inputs(&mut self) -> (inputs: Vec<LaneInput<E, K>>)
        ensures
            inputs@ == old(self).inputs@,
            final(self).inputs@.len() == 0,
            *final(self) == (NotifyHub { inputs: final(self).inputs, ..*old(self) }),
    {
        let mut inputs: Vec<LaneInput<E, K>> = Vec::new();
        inputs.append(&mut self.inputs);
        assert(inputs@ =~= old(self).inputs@);
        inputs
    }

    /// A receiving side of the signal that tells the workers to end: connected to that signal, and
    /// having seen the values that it has had so far.
    pub fn shutdown_signal(&self) -> (signal: watch::Receiver<bool>)
        ensures
            signal == crate::outlet::subscribed(self.shutdown.sender(), self.shutdown.sent()),
    {
        self.shutdown.watch()
    }

    /// Takes nothing any more, and tells the workers to finish what is queued and end.
    pub fn begin_drain(&mut self)
        ensures
            final(self).shutdown.raised(),
            final(self).shutdown.sender() == old(self).shutdown.sender(),
            final(self).shutdown.sent() == old(self).shutdown.sent().push(true),
            *final(self) == (NotifyHub {
                closed: true,
                shutdown: final(self).shutdown,
                ..*old(self)
            }),
    {
        self.closed = true;
        self.shutdown.raise();
    }

    /// Puts an event into the lanes of its type. Nobody is waited for.
    ///
    /// A hub that takes nothing any more rejects the event once, and each lane of the event's type
    /// counts that. Else each lane of the event's type takes it, is too full for it, or takes
    /// nothing any more; whichever it was is counted, in the receipt and in the lane.
    pub fn enqueue(&mut self, event_type: u64, event: &Arc<E>) -> (receipt: Receipt)
        requires
            old(self).wf(),
        ensures
            final(self).wf(),
            final(self).by_type@ == old(self).by_type@,
            final(self).closed == old(self).closed,
            final(self).inputs@ == old(self).inputs@,
            final(self).shutdown == old(self).shutdown,
            final(self).lanes@.len() == old(self).lanes@.len(),
            old(self).closed ==> receipt == (Receipt { delivered: 0, dropped: 0, rejected: 1 })
                && old(self).refused(event_type, final(self).lanes@),
            !old(self).closed ==> receipt.total() == old(self).lanes_of(event_type).len(),
            !old(self).closed ==> exists|outcomes: Seq<SendOutcome>| #[trigger]
                old(self).sent(event_type, *event, outcomes, final(self).lanes@) && receipt == tally(
                    outcomes,
                ),
    {
        if self.closed {
            self.refuse(event_type);
            return Receipt { delivered: 0, dropped: 0, rejected: 1 };
        }
        let ghost before = *self;
        let ghost listed = self.lanes_of(event_type);
        let mut receipt = Receipt { delivered: 0, dropped: 0, rejected: 0 };
        let ghost mut outcomes: Seq<SendOutcome> = Seq::empty();
        match self.by_type.get(&event_type) {
            None => {
                assert(before.sent(event_type, *event, outcomes, self.lanes@));
            },
            Some(indices) => {
                assert(self.by_type@.contains_key(event_type));
                let mut k: usize = 0;
                while k < indices.len()
                    invariant
                        before.wf(),
                        indices@ == listed,
                        listed == before.lanes_of(event_type),
                        before.by_type@.contains_key(event_type),
                        k <= indices@.len(),
                        outcomes.len() == k,
                        receipt == tally(outcomes),
                        self.lanes@.len() == before.lanes@.len(),
                        self.by_type@ == before.by_type@,
                        self.closed == before.closed,
                        self.inputs@ == before.inputs@,
                        self.shutdown == before.shutdown,
                        forall|i: int|
                            0 <= i < self.lanes@.len() ==> (#[trigger] self.lanes@[i]).outlet.bound()
                                == DEFAULT_LANE_CAPACITY,
                        forall|j: int|
                            0 <= j < k ==> before.lane_after(
                                #[trigger] listed[j] as int,
                                *event,
                                outcomes[j],
                                self.lanes@[listed[j] as int],
                            ),
                        forall|i: int|
                            0 <= i < self.lanes@.len() && !listed.take(k as int).contains(i as usize)
                                ==> #[trigger] self.lanes@[i] == before.lanes@[i],
                    decreases indices@.len() - k,
                {
                    let index = indices[k];
                    assert(before.by_type@[event_type]@[k as int] < before.lanes@.len());
                    let ghost lanes_before = self.lanes@;
                    let outcome = self.lanes[index].outlet.offer(event.clone());
                    proof {
                        assert(listed.take(k as int).contains(index) ==> false) by {
                            if listed.take(k as int).contains(index) {
                                let j = choose|j: int|
                                    0 <= j < listed.take(k as int).len() && listed.take(k as int)[j]
                                        == index;
                                assert(listed[j] == listed[k as int]);
                            }
                        }
                    }
                    self.lanes[index].account(outcome);
                    count(&mut receipt, outcome, Ghost(outcomes));
                    proof {
                        let old_outcomes = outcomes;
                        outcomes = outcomes.push(outcome);
                        assert forall|j: int| 0 <= j < k + 1 implies before.lane_after(
                            #[trigger] listed[j] as int,
                            *event,
                            outcomes[j],
                            self.lanes@[listed[j] as int],
                        ) by {
                            if j < k {
                                assert(listed[j] != listed[k as int]);
                                assert(before.lane_after(
                                    listed[j] as int,
                                    *event,
                                    old_outcomes[j],
                                    lanes_before[listed[j] as int],
                                ));
                            }
                        }
                        assert forall|i: int|
                            0 <= i < self.lanes@.len() && !listed.take(k as int + 1).contains(
                                i as usize,
                            ) implies #[trigger] self.lanes@[i] == before.lanes@[i] by {
                            assert(listed.take(k as int + 1)[k as int] == index);
                            if listed.take(k as int).contains(i as usize) {
                                let j = choose|j: int|
                                    0 <= j < listed.take(k as int).len() && listed.take(k as int)[j]
                                        == i as usize;
                                assert(listed.take(k as int + 1)[j] == i as usize);
                            }
                        }
                    }
                    k = k + 1;
                }
                proof {
                    assert(listed.take(k as int) =~= listed);
                    assert(before.sent(event_type, *event, outcomes, self.lanes@));
                }
            },
        }
        proof {
            every_attempt_is_counted(outcomes);
        }
        receipt
    }

    /// Whether `after` is the `i`-th lane after it was offered `event` and that ended with
    /// `outcome`.
    pub open spec fn lane_after(
        self,
        i: int,
        event: Arc<E>,
        outcome: SendOutcome,
        after: Lane<E>,
    ) -> bool {
        &&& after.handler_id == self.lanes@[i].handler_id
        &&& after.dropped == self.lanes@[i].dropped_after(outcome)
        &&& after.rejected == self.lanes@[i].rejected_after(outcome)
        &&& after.outlet.bound() == self.lanes@[i].outlet.bound()
        &&& after.outlet.link() == self.lanes@[i].outlet.link()
        &&& after.outlet.offered() == self.lanes@[i].outlet.offered().push(event)
        &&& after.outlet.outcomes() == self.lanes@[i].outlet.outcomes().push(outcome)
        &&& after.outlet.rooms() == self.lanes@[i].outlet.rooms()
        &&& outcome == SendOutcome::Full ==> crate::outlet::sent_in(
            self.lanes@[i].outlet.outcomes(),
        ) >= self.lanes@[i].outlet.bound()
    }

    /// Whether `lanes` are the lanes after each lane of the event type counted a rejected message,
    /// and nothing else happened.
    pub open spec fn refused(self, event_type: u64, lanes: Seq<Lane<E>>) -> bool {
        let listed = self.lanes_of(event_type);
        &&& lanes.len() == self.lanes@.len()
        &&& forall|i: int|
            0 <= i < lanes.len() ==> #[trigger] lanes[i] == if listed.contains(i as usize) {
                Lane { rejected: bumped(self.lanes@[i].rejected), ..self.lanes@[i] }
            } else {
                self.lanes@[i]
            }
    }

    /// Counts a rejected message in each lane of an event type.
    fn refuse(&mut self, event_type: u64)
        requires
            old(self).wf(),
        ensures
            final(self).wf(),
            old(self).refused(event_type, final(self).lanes@),
            *final(self) == (NotifyHub { lanes: final(self).lanes, ..*old(self) }),
    {
        let ghost before = *self;
        let ghost listed = self.lanes_of(event_type);
        match self.by_type.get(&event_type) {
            None => {},
            Some(indices) => {
                let mut k: usize = 0;
                while k < indices.len()
                    invariant
                        before.wf(),
                        before.by_type@.contains_key(event_type),
                        indices@ == listed,
                        listed == before.lanes_of(event_type),
                        k <= indices@.len(),
                        *self == (NotifyHub { lanes: self.lanes, ..before }),
                        self.lanes@.len() == before.lanes@.len(),
                        forall|i: int|
                            0 <= i < self.lanes@.len() ==> #[trigger] self.lanes@[i]
                                == if listed.take(k as int).contains(i as usize) {
                                Lane {
                                    rejected: bumped(before.lanes@[i].rejected),
                                    ..before.lanes@[i]
                                }
                            } else {
                                before.lanes@[i]
                            },
                    decreases indices@.len() - k,
                {
                    let index = indices[k];
                    assert(before.by_type@[event_type]@[k as int] < before.lanes@.len());
                    let ghost lanes_before = self.lanes@;
                    let ghost seen = listed.take(k as int);
                    self.lanes[index].account(SendOutcome::Closed);
                    proof {
                        let seen_then = listed.take(k as int + 1);
                        assert(seen_then =~= seen.push(index));
                        assert(!seen.contains(index)) by {
                            if seen.contains(index) {
                                let j = choose|j: int| 0 <= j < seen.len() && seen[j] == index;
                                assert(listed[j] == listed[k as int]);
                            }
                        }
                        assert forall|i: int| 0 <= i < self.lanes@.len() implies (
                        #[trigger] self.lanes@[i]) == if seen_then.contains(i as usize) {
                            Lane {
                                rejected: bumped(before.lanes@[i].rejected),
                                ..before.lanes@[i]
                            }
                        } else {
                            before.lanes@[i]
                        } by {
                            let id: usize = i as usize;
                            assert(id == i) by {
                                assert(self.lanes@.len() == self.lanes.len());
                            }
                            if seen.contains(id) {
                                let j = choose|j: int| 0 <= j < seen.len() && seen[j] == id;
                                assert(seen_then[j] == id);
                            } else if seen_then.contains(id) {
                                let j = choose|j: int| 0 <= j < seen_then.len() && seen_then[j] == id;
                                assert(j < k ==> seen[j] == id);
                            }
                            assert(seen_then[k as int] == index);
                            assert(i != index ==> self.lanes@[i] == lanes_before[i]);
                        }
                    }
                    k = k + 1;
                }
                assert(listed.take(k as int) =~= listed);
            },
        }
    }

    /// Whether `lanes` are the lanes after each lane of the event type was offered `event` once,
    /// of which the `k`-th attempt ended with `outcomes[k]`.
    pub open spec fn sent(
        self,
        event_type: u64,
        event: Arc<E>,
        outcomes: Seq<SendOutcome>,
        lanes: Seq<Lane<E>>,
    ) -> bool {
        let listed = self.lanes_of(event_type);
        &&& outcomes.len() == listed.len()
        &&& lanes.len() == self.lanes@.len()
        &&& forall|k: int|
            0 <= k < listed.len() ==> self.lane_after(
                #[trigger] listed[k] as int,
                event,
                outcomes[k],
                lanes[listed[k] as int],
            )
        &&& forall|i: int|
            0 <= i < lanes.len() && !listed.contains(i as usize) ==> #[trigger] lanes[i]
                == self.lanes@[i]
    }

    /// How far each subscriber is behind. How much is queued is what the lanes are found to hold,
    /// which depends on what the workers have done meanwhile.
    pub fn backlog(&mut self) -> (backlogs: Vec<Backlog>)
        requires
            old(self).wf(),
        ensures
            final(self).wf(),
            *final(self) == (NotifyHub { lanes: final(self).lanes, ..*old(self) }),
            final(self).lanes@.len() == old(self).lanes@.len(),
            backlogs@.len() == old(self).lanes@.len(),
            forall|i: int|
                0 <= i < backlogs@.len() ==> old(self).lanes@[i].found(
                    #[trigger] backlogs@[i],
                    final(self).lanes@[i],
                ),
    {
        let ghost before = *self;
        let mut backlogs: Vec<Backlog> = Vec::new();
        let mut i: usize = 0;
        while i < self.lanes.len()
            invariant
                before.wf(),
                *self == (NotifyHub { lanes: self.lanes, ..before }),
                self.lanes@.len() == before.lanes@.len(),
                i <= self.lanes@.len(),
                backlogs@.len() == i,
                forall|k: int|
                    0 <= k < i ==> before.lanes@[k].found(
                        #[trigger] backlogs@[k],
                        self.lanes@[k],
                    ),
                forall|k: int|
                    i <= k < self.lanes@.len() ==> #[trigger] self.lanes@[k] == before.lanes@[k],
            decreases self.lanes@.len() - i,
        {
            let ghost lanes_before = self.lanes@;
            assert(self.lanes@[i as int] == before.lanes@[i as int]);
            let queued = self.lanes[i].outlet.queued();
            let backlog = self.lanes[i].backlog(queued);
            backlogs.push(backlog);
            assert(before.lanes@[i as int].found(backlog, self.lanes@[i as int]));
            assert forall|k: int| 0 <= k < i implies before.lanes@[k].found(
                #[trigger] backlogs@[k],
                self.lanes@[k],
            ) by {
                assert(self.lanes@[k] == lanes_before[k]);
            }
            i = i + 1;
        }
        assert forall|k: int| 0 <= k < self.lanes@.len() implies (
        #[trigger] self.lanes@[k]).outlet.bound() == DEFAULT_LANE_CAPACITY by {
            assert(before.lanes@[k].found(backlogs@[k], self.lanes@[k]));
        }
        backlogs
    }
}

/// A lane drops nothing before as many messages were put into it as it holds: where an event was
/// sent and a lane had taken fewer until then, that lane was not full, and has not dropped it.
pub proof fn a_lane_with_room_drops_nothing<E, K>(
    hub: NotifyHub<E, K>,
    event_type: u64,
    event: Arc<E>,
    outcomes: Seq<SendOutcome>,
    lanes: Seq<Lane<E>>,
    k: int,
)
    requires
        hub.wf(),
        hub.sent(event_type, event, outcomes, lanes),
        0 <= k < hub.lanes_of(event_type).len(),
        crate::outlet::sent_in(hub.lanes@[hub.lanes_of(event_type)[k] as int].outlet.outcomes())
            < DEFAULT_LANE_CAPACITY,
    ensures
        outcomes[k] != SendOutcome::Full,
        lanes[hub.lanes_of(event_type)[k] as int].dropped == hub.lanes@[hub.lanes_of(
            event_type,
        )[k] as int].dropped,
{
    let index = hub.lanes_of(event_type)[k];
    assert(hub.by_type@.contains_key(event_type));
    assert(hub.by_type@[event_type]@[k] < hub.lanes@.len());
    assert(hub.lanes@[index as int].outlet.bound() == DEFAULT_LANE_CAPACITY);
}

/// What a subscriber's worker is doing.
#[derive(Debug, Clone, Copy, PartialEq, Eq, Structural)]
pub enum WorkerMode {
    /// It waits for events, and for the signal to end.
    Serving,
    /// The signal has come: it finishes what is queued.
    Draining,
    /// It has ended.
    Ended,
}

/// What has happened to a subscriber's worker.
#[derive(Debug, Clone, Copy, PartialEq, Eq, Structural)]
pub enum WorkerEvent {
    /// It took an event out of its lane. `alive` tells whether the scope is still there.
    Took { alive: bool },
    /// Its lane is empty, and while it was draining nothing more was found.
    Empty,
    /// Nobody can send to its lane any more.
    Disconnected,
    /// The signal to end has come.
    Shutdown,
}

/// What a subscriber's worker does next.
#[derive(Debug, Clone, Copy, PartialEq, Eq, Structural)]
pub enum WorkerAction {
    /// Hand the event that was taken to the handler; its errors are nobody's concern.
    Handle,
    /// Go on.
    Wait,
    /// End.
    End,
}

impl WorkerMode {
    /// What a worker does next, and what it is doing then.
    ///
    /// An event is handled as long as the scope is there. When the signal to end comes, what is
    /// queued is still handled; then the worker ends. It also ends when nobody can send to it, or
    /// the scope is gone.
    pub open spec fn next(self, event: WorkerEvent) -> (WorkerMode, WorkerAction) {
        match (self, event) {
            (WorkerMode::Ended, _) => (WorkerMode::Ended, WorkerAction::End),
            (_, WorkerEvent::Took { alive: true }) => (self, WorkerAction::Handle),
            (_, WorkerEvent::Took { alive: false }) => (WorkerMode::Ended, WorkerAction::End),
            (_, WorkerEvent::Disconnected) => (WorkerMode::Ended, WorkerAction::End),
            (WorkerMode::Serving, WorkerEvent::Shutdown) => (
                WorkerMode::Draining,
                WorkerAction::Wait,
            ),
            (WorkerMode::Serving, WorkerEvent::Empty) => (self, WorkerAction::Wait),
            (WorkerMode::Draining, WorkerEvent::Empty) => (WorkerMode::Ended, WorkerAction::End),
            (WorkerMode::Draining, WorkerEvent::Shutdown) => (self, WorkerAction::Wait),
        }
    }

    /// Takes note of what has happened, and says what to do next.
    pub fn step(&mut self, event: WorkerEvent) -> (action: WorkerAction)
        ensures
            (*final(self), action) == old(self).next(event),
    {
        if *self == WorkerMode::Ended {
            return WorkerAction::End;
        }
        match event {
            WorkerEvent::Took { alive } => {
                if alive {
                    WorkerAction::Handle
                } else {
                    *self = WorkerMode::Ended;
                    WorkerAction::End
                }
            },
            WorkerEvent::Disconnected => {
                *self = WorkerMode::Ended;
                WorkerAction::End
            },
            WorkerEvent::Shutdown => {
                *self = WorkerMode::Draining;
                WorkerAction::Wait
            },
            WorkerEvent::Empty => {
                if *self == WorkerMode::Draining {
                    *self = WorkerMode::Ended;
                    WorkerAction::End
                } else {
                    WorkerAction::Wait
                }
            },
        }
    }
}

} // verus!
