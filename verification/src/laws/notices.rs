//! Who gets a notification, and how it is counted.

use std::sync::Arc;

use vstd::prelude::*;

use crate::event::HandlerEntry;
use crate::notify::{
    Backlog, Lane, NotifyHub, Receipt, WorkerAction, WorkerEvent, WorkerMode, DEFAULT_LANE_CAPACITY,
};
use crate::outlet::{Outlet, SendOutcome, Signal};

verus! {

/// A hub that was made for some handlers has one unused lane for each, of 256 places. The lanes of an
/// event type are those of the handlers that take it, each once, in the order of registration.
pub proof fn a_hub_has_a_lane_for_each_handler<E, K>(
    hub: NotifyHub<E, K>,
    handlers: Seq<HandlerEntry<K>>,
    event: u64,
    i: int,
)
    requires
        hub.built_from(handlers),
        handlers.len() <= usize::MAX,
    ensures
        !hub.closed,
        hub.shutdown.sent() == seq![false],
        hub.lanes@.len() == handlers.len(),
        hub.inputs@.len() == handlers.len(),
        0 <= i < handlers.len() ==> {
            &&& hub.lanes@[i].handler_id == handlers[i].id
            &&& hub.lanes@[i].dropped == 0
            &&& hub.lanes@[i].rejected == 0
            &&& hub.lanes@[i].outlet.bound() == 256
            &&& hub.lanes@[i].outlet.offered().len() == 0
            &&& hub.lanes@[i].outlet.outcomes().len() == 0
            &&& hub.inputs@[i].handler == handlers[i].handler
            &&& hub.inputs@[i].rx.link() == hub.lanes@[i].outlet.link()
        },
        hub.by_type@.contains_key(event) ==> hub.by_type@[event]@ == Seq::new(
            handlers.len(),
            |k: int| k,
        ).filter(|k: int| handlers[k].event == event).map_values(|k: int| k as usize),
        !hub.by_type@.contains_key(event) ==> forall|k: int|
            0 <= k < handlers.len() ==> (#[trigger] handlers[k]).event != event,
{
    lemma_positions(handlers, handlers.len(), event);
    assert(handlers.take(handlers.len() as int) =~= handlers);
    let taking = |k: int| handlers[k].event == event;
    let number = |k: int| k as usize;
    let all = Seq::new(handlers.len(), |k: int| k);
    let listed = all.filter(taking).map_values(number);
    assert(hub.lanes_of(event) == crate::notify::positions(handlers, event));
    if !hub.by_type@.contains_key(event) {
        assert(listed.len() == 0);
        crate::laws::numbers::lemma_filter_members(all, taking);
        assert forall|k: int| 0 <= k < handlers.len() implies (#[trigger] handlers[k]).event
            != event by {
            if taking(k) {
                assert(all[k] == k);
                assert(all.filter(taking).contains(k));
            }
        }
    }
}

proof fn lemma_positions<K>(handlers: Seq<HandlerEntry<K>>, n: nat, event: u64)
    requires
        n <= handlers.len(),
    ensures
        crate::notify::positions(handlers.take(n as int), event) == Seq::new(n, |k: int| k).filter(
            |k: int| handlers[k].event == event,
        ).map_values(|k: int| k as usize),
    decreases n,
{
    let taking = |k: int| handlers[k].event == event;
    let number = |k: int| k as usize;
    let all = Seq::new(n, |k: int| k);
    crate::laws::numbers::lemma_numbers_filter(n, taking);
    if n == 0 {
        assert(all.filter(taking).map_values(number) =~= Seq::empty());
    } else {
        lemma_positions(handlers, (n - 1) as nat, event);
        assert(handlers.take(n as int).drop_last() =~= handlers.take(n - 1));
        let before = Seq::new((n - 1) as nat, |k: int| k);
        if taking(n - 1) {
            assert(all.filter(taking).map_values(number) =~= before.filter(taking).map_values(
                number,
            ).push((n - 1) as usize));
        }
    }
}

/// A receipt counts the attempts by how they ended: none is left out, and none counts twice.
pub proof fn a_receipt_counts_every_attempt(outcomes: Seq<SendOutcome>)
    requires
        outcomes.len() <= usize::MAX,
    ensures
        crate::notify::tally(outcomes).delivered == outcomes.filter(
            |outcome: SendOutcome| outcome == SendOutcome::Sent,
        ).len(),
        crate::notify::tally(outcomes).dropped == outcomes.filter(
            |outcome: SendOutcome| outcome == SendOutcome::Full,
        ).len(),
        crate::notify::tally(outcomes).rejected == outcomes.filter(
            |outcome: SendOutcome| outcome == SendOutcome::Closed,
        ).len(),
        crate::notify::tally(outcomes).delivered + crate::notify::tally(outcomes).dropped
            + crate::notify::tally(outcomes).rejected == outcomes.len(),
    decreases outcomes.len(),
{
    crate::laws::numbers::lemma_filter_step(
        outcomes,
        |outcome: SendOutcome| outcome == SendOutcome::Sent,
    );
    crate::laws::numbers::lemma_filter_step(
        outcomes,
        |outcome: SendOutcome| outcome == SendOutcome::Full,
    );
    crate::laws::numbers::lemma_filter_step(
        outcomes,
        |outcome: SendOutcome| outcome == SendOutcome::Closed,
    );
    if outcomes.len() > 0 {
        a_receipt_counts_every_attempt(outcomes.drop_last());
    }
}

/// What a receipt speaks of is what it counts, all three added up.
pub proof fn a_receipt_speaks_of_all_it_counts(receipt: Receipt)
    ensures
        receipt.total() == receipt.delivered + receipt.dropped + receipt.rejected,
{
}

/// How many messages a queue took is how many of the attempts put one in.
pub proof fn a_queue_took_what_was_sent(outcomes: Seq<SendOutcome>)
    ensures
        crate::outlet::sent_in(outcomes) == outcomes.filter(
            |outcome: SendOutcome| outcome == SendOutcome::Sent,
        ).len(),
    decreases outcomes.len(),
{
    crate::laws::numbers::lemma_filter_step(
        outcomes,
        |outcome: SendOutcome| outcome == SendOutcome::Sent,
    );
    if outcomes.len() > 0 {
        a_queue_took_what_was_sent(outcomes.drop_last());
    }
}

/// The sums over receipts are those of their numbers: no receipts add up to nothing, one to itself,
/// and two lots of them to the sums of both.
pub proof fn receipts_add_up(some: Seq<Receipt>, more: Seq<Receipt>, one: Receipt)
    ensures
        crate::notify::delivered_in(Seq::empty()) == 0,
        crate::notify::dropped_in(Seq::empty()) == 0,
        crate::notify::rejected_in(Seq::empty()) == 0,
        crate::notify::delivered_in(seq![one]) == one.delivered,
        crate::notify::dropped_in(seq![one]) == one.dropped,
        crate::notify::rejected_in(seq![one]) == one.rejected,
        crate::notify::delivered_in(some + more) == crate::notify::delivered_in(some)
            + crate::notify::delivered_in(more),
        crate::notify::dropped_in(some + more) == crate::notify::dropped_in(some)
            + crate::notify::dropped_in(more),
        crate::notify::rejected_in(some + more) == crate::notify::rejected_in(some)
            + crate::notify::rejected_in(more),
    decreases more.len(),
{
    reveal_with_fuel(crate::notify::delivered_in, 2);
    reveal_with_fuel(crate::notify::dropped_in, 2);
    reveal_with_fuel(crate::notify::rejected_in, 2);
    assert(seq![one].drop_last() =~= Seq::empty());
    if more.len() == 0 {
        assert(some + more =~= some);
    } else {
        receipts_add_up(some, more.drop_last(), one);
        assert((some + more).drop_last() =~= some + more.drop_last());
        assert((some + more).last() == more.last());
    }
}

/// Each lane of the event's type is offered the event once, and counts it as dropped exactly where it
/// was full and as rejected exactly where nobody read it any more. The other lanes are as they were.
pub proof fn an_event_is_offered_once_to_each_lane_of_its_type<E, K>(
    hub: NotifyHub<E, K>,
    event_type: u64,
    event: Arc<E>,
    outcomes: Seq<SendOutcome>,
    lanes: Seq<Lane<E>>,
    k: int,
    i: int,
)
    requires
        hub.sent(event_type, event, outcomes, lanes),
    ensures
        lanes.len() == hub.lanes@.len(),
        outcomes.len() == if hub.by_type@.contains_key(event_type) {
            hub.by_type@[event_type]@.len()
        } else {
            0
        },
        hub.by_type@.contains_key(event_type) && 0 <= k < hub.by_type@[event_type]@.len() ==> {
            let index = hub.by_type@[event_type]@[k] as int;
            let (before, after) = (hub.lanes@[index], lanes[index]);
            &&& after.handler_id == before.handler_id
            &&& after.outlet.offered() == before.outlet.offered().push(event)
            &&& after.outlet.outcomes() == before.outlet.outcomes().push(outcomes[k])
            &&& after.outlet.link() == before.outlet.link()
            &&& after.outlet.bound() == before.outlet.bound()
            &&& after.outlet.rooms() == before.outlet.rooms()
            &&& outcomes[k] != SendOutcome::Full ==> after.dropped == before.dropped
            &&& outcomes[k] != SendOutcome::Closed ==> after.rejected == before.rejected
            &&& outcomes[k] == SendOutcome::Full && before.dropped < u64::MAX ==> after.dropped
                == before.dropped + 1
            &&& outcomes[k] == SendOutcome::Full && before.dropped == u64::MAX ==> after.dropped
                == 0
            &&& outcomes[k] == SendOutcome::Closed && before.rejected < u64::MAX ==> after.rejected
                == before.rejected + 1
            &&& outcomes[k] == SendOutcome::Closed && before.rejected == u64::MAX ==> after.rejected
                == 0
            &&& outcomes[k] == SendOutcome::Full ==> before.outlet.outcomes().filter(
                |outcome: SendOutcome| outcome == SendOutcome::Sent,
            ).len() >= before.outlet.bound()
        },
        0 <= i < lanes.len() && !(hub.by_type@.contains_key(event_type)
            && hub.by_type@[event_type]@.contains(i as usize)) ==> lanes[i] == hub.lanes@[i],
{
    if hub.by_type@.contains_key(event_type) && 0 <= k < hub.by_type@[event_type]@.len() {
        let index = hub.by_type@[event_type]@[k] as int;
        assert(hub.lanes_of(event_type)[k] as int == index);
        assert(hub.lane_after(index, event, outcomes[k], lanes[index]));
        a_queue_took_what_was_sent(hub.lanes@[index].outlet.outcomes());
    }
    if 0 <= i < lanes.len() && !(hub.by_type@.contains_key(event_type)
        && hub.by_type@[event_type]@.contains(i as usize)) {
        assert(!hub.lanes_of(event_type).contains(i as usize));
    }
}

/// A hub that takes nothing any more counts one rejected message in each lane of the event's type,
/// and nothing else changes.
pub proof fn a_refused_event_is_counted_in_the_lanes_of_its_type<E, K>(
    hub: NotifyHub<E, K>,
    event_type: u64,
    lanes: Seq<Lane<E>>,
    i: int,
)
    requires
        hub.refused(event_type, lanes),
        0 <= i < hub.lanes@.len(),
    ensures
        lanes.len() == hub.lanes@.len(),
        lanes[i].handler_id == hub.lanes@[i].handler_id,
        lanes[i].outlet == hub.lanes@[i].outlet,
        lanes[i].dropped == hub.lanes@[i].dropped,
        ({
            let concerned = hub.by_type@.contains_key(event_type)
                && hub.by_type@[event_type]@.contains(i as usize);
            let before = hub.lanes@[i].rejected;
            &&& !concerned ==> lanes[i].rejected == before
            &&& concerned && before < u64::MAX ==> lanes[i].rejected == before + 1
            &&& concerned && before == u64::MAX ==> lanes[i].rejected == 0
        }),
{
    assert(lanes[i] == lanes[i]);
    assert(!hub.by_type@.contains_key(event_type) ==> !hub.lanes_of(event_type).contains(
        i as usize,
    ));
}

/// A backlog tells the numbers of its lane; what it says is queued is what the lane's bound leaves
/// beside the room that was found, and never more than was put in. Asking changes nothing else.
pub proof fn a_backlog_tells_of_its_lane<E>(before: Lane<E>, backlog: Backlog, after: Lane<E>)
    requires
        before.found(backlog, after),
    ensures
        backlog.handler_id == before.handler_id,
        backlog.dropped == before.dropped,
        backlog.rejected == before.rejected,
        backlog.queued <= before.outlet.bound(),
        backlog.queued <= before.outlet.outcomes().filter(
            |outcome: SendOutcome| outcome == SendOutcome::Sent,
        ).len(),
        backlog.queued <= before.outlet.offered().len(),
        after.handler_id == before.handler_id,
        after.dropped == before.dropped,
        after.rejected == before.rejected,
        after.outlet.link() == before.outlet.link(),
        after.outlet.bound() == before.outlet.bound(),
        after.outlet.offered() == before.outlet.offered(),
        after.outlet.outcomes() == before.outlet.outcomes(),
        after.outlet.rooms().len() == before.outlet.rooms().len() + 1,
        after.outlet.rooms().drop_last() == before.outlet.rooms(),
        after.outlet.rooms().last() + backlog.queued == before.outlet.bound(),
{
    a_queue_took_what_was_sent(before.outlet.outcomes());
    assert(after.outlet.rooms().drop_last() =~= before.outlet.rooms());
}

/// A signal is raised exactly where the last value that was sent is.
pub proof fn a_signal_stands_as_it_was_last_sent(signal: Signal)
    requires
        signal.sent().len() > 0,
    ensures
        signal.raised() == signal.sent()[signal.sent().len() - 1],
{
}

/// While a worker has not ended, it handles every event that it takes as long as the scope is there,
/// and goes on as it did. It ends where the scope is gone, where nobody can send to it any more, or
/// where it was told to end and its lane is empty; no event changes anything after that. To be told
/// to end makes it drain its lane and no more.
pub proof fn a_worker_handles_what_is_queued_before_it_ends(mode: WorkerMode, event: WorkerEvent)
    ensures
        ({
            let (then, action) = mode.next(event);
            let over = mode == WorkerMode::Ended || event == WorkerEvent::Disconnected || event == (
            WorkerEvent::Took { alive: false }) || (mode == WorkerMode::Draining && event
                == WorkerEvent::Empty);
            &&& over <==> then == WorkerMode::Ended
            &&& over <==> action == WorkerAction::End
            &&& action == WorkerAction::Handle <==> mode != WorkerMode::Ended && event == (
            WorkerEvent::Took { alive: true })
            &&& then == WorkerMode::Draining <==> !over && (mode == WorkerMode::Draining || event
                == WorkerEvent::Shutdown)
        }),
{
}

} // verus!
