//! Who hears of an event, and what is told of it.

use vstd::prelude::*;

use crate::context::{Data, Host};
use crate::error::Error;
use crate::event::{
    ErrorPolicy, EventControl, HandlerEntry, LayerOutcome, LayerRun, Scheduling,
};

verus! {

/// Whether a handler's result holds back the handlers after it in the same scope.
spec fn holds_back<C>(
    result: Result<EventControl, Error<C>>,
    scheduling: Scheduling,
    policy: ErrorPolicy,
) -> bool {
    scheduling == Scheduling::Ordered && (result == Ok::<EventControl, Error<C>>(EventControl::Bail)
        || (result is Err && policy == ErrorPolicy::Abort))
}

/// The handlers of a scope are heard one after the other, up to the first that bails, or fails where
/// that aborts; where they run together, all are. The scope bails exactly where some handler that
/// was heard does, whatever the others say. Its errors are those of the handlers that were heard,
/// each once, in order. Gives how many were heard.
pub proof fn a_scope_bails_where_one_that_was_heard_does<C>(
    results: Seq<Result<EventControl, Error<C>>>,
    scheduling: Scheduling,
    policy: ErrorPolicy,
) -> (heard: int)
    ensures
        0 <= heard <= results.len(),
        scheduling == Scheduling::Concurrent ==> heard == results.len(),
        scheduling == Scheduling::Ordered ==> forall|i: int|
            0 <= i < heard - 1 ==> {
                &&& (#[trigger] results[i]) != Ok::<EventControl, Error<C>>(EventControl::Bail)
                &&& policy == ErrorPolicy::Abort ==> results[i] is Ok
            },
        heard < results.len() ==> heard > 0 && (results[heard - 1] == Ok::<EventControl, Error<C>>(
            EventControl::Bail,
        ) || (results[heard - 1] is Err && policy == ErrorPolicy::Abort)),
        crate::event::layer_outcome(results, scheduling, policy).bail <==> exists|i: int|
            0 <= i < heard && #[trigger] results[i] == Ok::<EventControl, Error<C>>(
                EventControl::Bail,
            ),
        crate::event::layer_outcome(results, scheduling, policy).errors == results.take(
            heard,
        ).filter(|result: Result<EventControl, Error<C>>| result is Err).map_values(
            |result: Result<EventControl, Error<C>>| result->Err_0,
        ),
        crate::event::layer_outcome(results, scheduling, policy).errors.len() == 0 <==> forall|
            i: int,
        |
            0 <= i < heard ==> (#[trigger] results[i]) is Ok,
        crate::event::layer_outcome(results, scheduling, policy).stopped <==> scheduling
            == Scheduling::Ordered && heard > 0 && (results[heard - 1] == Ok::<
            EventControl,
            Error<C>,
        >(EventControl::Bail) || (results[heard - 1] is Err && policy == ErrorPolicy::Abort)),
    decreases results.len(),
{
    let failed = |result: Result<EventControl, Error<C>>| result is Err;
    let error_of = |result: Result<EventControl, Error<C>>| result->Err_0;
    let outcome = crate::event::layer_outcome(results, scheduling, policy);
    if results.len() == 0 {
        crate::laws::numbers::lemma_filter_step(results.take(0), failed);
        assert(results.take(0).filter(failed).map_values(error_of) =~= Seq::empty());
        0
    } else {
        let front = results.drop_last();
        let before = crate::event::layer_outcome(front, scheduling, policy);
        let heard = a_scope_bails_where_one_that_was_heard_does(front, scheduling, policy);
        if before.stopped {
            assert(results.take(heard) =~= front.take(heard));
            assert forall|i: int| 0 <= i < heard implies (#[trigger] results[i]) == front[i] by {}
            assert(results[heard - 1] == front[heard - 1]);
            assert(outcome == before);
            if exists|i: int|
                0 <= i < heard && #[trigger] front[i] == Ok::<EventControl, Error<C>>(
                    EventControl::Bail,
                ) {
                let i = choose|i: int|
                    0 <= i < heard && #[trigger] front[i] == Ok::<EventControl, Error<C>>(
                        EventControl::Bail,
                    );
                assert(results[i] == front[i]);
            }
            heard
        } else {
            let n = results.len() as int;
            assert(heard == front.len());
            assert(front.take(heard) =~= front);
            assert(results.take(n) =~= results);
            crate::laws::numbers::lemma_filter_step(results, failed);
            let kept = front.filter(failed);
            assert(results.last() is Err ==> results.filter(failed).map_values(error_of)
                =~= kept.map_values(error_of).push(results.last()->Err_0));
            assert forall|i: int| 0 <= i < heard implies (#[trigger] results[i]) == front[i] by {}
            if exists|i: int|
                0 <= i < heard && #[trigger] front[i] == Ok::<EventControl, Error<C>>(
                    EventControl::Bail,
                ) {
                let i = choose|i: int|
                    0 <= i < heard && #[trigger] front[i] == Ok::<EventControl, Error<C>>(
                        EventControl::Bail,
                    );
                assert(results[i] == front[i]);
            }
            assert(results[n - 1] == results.last());
            assert forall|i: int| scheduling == Scheduling::Ordered && 0 <= i < n - 1 implies !(
            holds_back(#[trigger] results[i], scheduling, policy)) by {
                assert(results[i] == front[i]);
                if i == heard - 1 {
                    assert(!before.stopped);
                }
            }
            n
        }
    }
}

/// An event goes from a scope to those around it, until a scope bails, or fails where that aborts.
/// The errors are those of the scopes that were reached, from the inside out, and nothing else.
/// Gives how many scopes were reached.
pub proof fn an_event_goes_outwards_until_a_scope_holds_it<C>(
    layers: Seq<LayerOutcome<C>>,
    policy: ErrorPolicy,
) -> (reached: int)
    ensures
        0 <= reached <= layers.len(),
        layers.len() > 0 ==> reached > 0,
        forall|i: int|
            0 <= i < reached - 1 ==> {
                &&& !(#[trigger] layers[i]).bail
                &&& policy == ErrorPolicy::Abort ==> layers[i].errors.len() == 0
            },
        reached < layers.len() ==> layers[reached - 1].bail || (policy == ErrorPolicy::Abort
            && layers[reached - 1].errors.len() > 0),
        crate::event::emission_errors(layers, policy) == layers.take(reached).map_values(
            |layer: LayerOutcome<C>| layer.errors,
        ).flatten(),
    decreases layers.len(),
{
    let errors_of = |layer: LayerOutcome<C>| layer.errors;
    if layers.len() == 0 {
        assert(layers.take(0).map_values(errors_of) =~= Seq::empty());
        0
    } else {
        let first = layers.first();
        let rest = layers.drop_first();
        if first.bail || (policy == ErrorPolicy::Abort && first.errors.len() > 0) {
            let told = layers.take(1).map_values(errors_of);
            assert(told.first() == first.errors);
            assert(told.drop_first() =~= Seq::empty());
            assert(told.drop_first().flatten() =~= Seq::empty());
            assert(told.flatten() =~= first.errors);
            1
        } else {
            let further = an_event_goes_outwards_until_a_scope_holds_it(rest, policy);
            let reached = further + 1;
            let told = layers.take(reached).map_values(errors_of);
            assert(told.first() == first.errors);
            assert(told.drop_first() =~= rest.take(further).map_values(errors_of));
            assert forall|i: int| 0 <= i < reached - 1 implies {
                &&& !(#[trigger] layers[i]).bail
                &&& policy == ErrorPolicy::Abort ==> layers[i].errors.len() == 0
            } by {
                if i > 0 {
                    assert(layers[i] == rest[i - 1]);
                }
            }
            if reached < layers.len() {
                assert(layers[reached - 1] == if further == 0 {
                    first
                } else {
                    rest[further - 1]
                });
            }
            reached
        }
    }
}

/// Where a handler that was heard bails, no scope around its own hears of the event.
pub proof fn a_bail_keeps_the_event_from_the_scopes_around<C>(
    scopes: Seq<Seq<Result<EventControl, Error<C>>>>,
    scheduling: Scheduling,
    policy: ErrorPolicy,
    at: int,
    handler: int,
)
    requires
        0 <= at < scopes.len(),
        0 <= handler < scopes[at].len(),
        scopes[at][handler] == Ok::<EventControl, Error<C>>(EventControl::Bail),
        scheduling == Scheduling::Concurrent || forall|i: int|
            0 <= i < handler ==> {
                &&& (#[trigger] scopes[at][i]) != Ok::<EventControl, Error<C>>(EventControl::Bail)
                &&& policy == ErrorPolicy::Abort ==> scopes[at][i] is Ok
            },
    ensures
        ({
            let outcome = |results: Seq<Result<EventControl, Error<C>>>|
                crate::event::layer_outcome(results, scheduling, policy);
            crate::event::emission_errors(scopes.map_values(outcome), policy)
                == crate::event::emission_errors(scopes.take(at + 1).map_values(outcome), policy)
        }),
{
    let outcome = |results: Seq<Result<EventControl, Error<C>>>|
        crate::event::layer_outcome(results, scheduling, policy);
    let layers = scopes.map_values(outcome);
    let inner = scopes.take(at + 1).map_values(outcome);
    let heard = a_scope_bails_where_one_that_was_heard_does(scopes[at], scheduling, policy);
    assert(handler < heard) by {
        if heard <= handler && heard < scopes[at].len() {
            assert(heard > 0);
            let last = scopes[at][heard - 1];
            assert(last == Ok::<EventControl, Error<C>>(EventControl::Bail) || (last is Err
                && policy == ErrorPolicy::Abort));
        }
    }
    assert(layers[at].bail);
    lemma_scopes_after_the_end_say_nothing(layers, policy, at);
    assert(layers.take(at + 1) =~= inner);
}

proof fn lemma_scopes_after_the_end_say_nothing<C>(
    layers: Seq<LayerOutcome<C>>,
    policy: ErrorPolicy,
    at: int,
)
    requires
        0 <= at < layers.len(),
        layers[at].bail,
    ensures
        crate::event::emission_errors(layers, policy) == crate::event::emission_errors(
            layers.take(at + 1),
            policy,
        ),
    decreases at,
{
    let inner = layers.take(at + 1);
    assert(inner.first() == layers.first());
    if at > 0 {
        let rest = layers.drop_first();
        assert(rest[at - 1] == layers[at]);
        lemma_scopes_after_the_end_say_nothing(rest, policy, at - 1);
        assert(inner.drop_first() =~= rest.take(at));
    }
}

/// The handlers that hear of an event are those of its type, each once, in the order of
/// registration.
pub proof fn an_event_is_heard_by_the_handlers_of_its_type<K>(
    handlers: Seq<HandlerEntry<K>>,
    groups: Map<u64, Vec<HandlerEntry<K>>>,
    event: u64,
)
    requires
        crate::event::grouped(handlers, groups),
    ensures
        groups.contains_key(event) <==> exists|i: int|
            0 <= i < handlers.len() && (#[trigger] handlers[i]).event == event,
        groups.contains_key(event) ==> groups[event]@ == handlers.filter(
            |entry: HandlerEntry<K>| entry.event == event,
        ),
{
    let mine = |entry: HandlerEntry<K>| entry.event == event;
    lemma_of_event_filters(handlers, event);
    crate::laws::numbers::lemma_filter_members(handlers, mine);
    let kept = handlers.filter(mine);
    if groups.contains_key(event) {
        assert(kept.len() > 0);
        assert(handlers.contains(kept[0]) && mine(kept[0]));
        let i = choose|i: int| 0 <= i < handlers.len() && handlers[i] == kept[0];
        assert(handlers[i].event == event);
    }
    if exists|i: int| 0 <= i < handlers.len() && (#[trigger] handlers[i]).event == event {
        let i = choose|i: int| 0 <= i < handlers.len() && (#[trigger] handlers[i]).event == event;
        assert(mine(handlers[i]));
        assert(kept.contains(handlers[i]));
        assert(crate::event::of_event(handlers, event).len() > 0);
    }
}

proof fn lemma_of_event_filters<K>(handlers: Seq<HandlerEntry<K>>, event: u64)
    ensures
        crate::event::of_event(handlers, event) == handlers.filter(
            |entry: HandlerEntry<K>| entry.event == event,
        ),
    decreases handlers.len(),
{
    let mine = |entry: HandlerEntry<K>| entry.event == event;
    crate::laws::numbers::lemma_filter_step(handlers, mine);
    if handlers.len() > 0 {
        lemma_of_event_filters(handlers.drop_last(), event);
    }
}

/// The handlers that a scope has for an event are those in its table for that type, and none where
/// the table has no such type.
pub proof fn a_scope_hears_by_its_table<H: Host>(data: Data<H>, event: u64)
    ensures
        data.handlers_by_type@.contains_key(event) ==> data.handlers_of(event)
            == data.handlers_by_type@[event]@,
        !data.handlers_by_type@.contains_key(event) ==> data.handlers_of(event).len() == 0,
{
}

/// A handler that is heard adds its error, if it has one, and makes the scope bail where it bails,
/// whatever was heard before it; it takes neither back. The handlers after it are left out exactly
/// where they run one after the other and it bailed, or failed where that aborts; once they are left
/// out, nothing that they would say counts.
pub proof fn each_handler_that_is_heard_counts<C>(
    before: LayerOutcome<C>,
    result: Result<EventControl, Error<C>>,
    scheduling: Scheduling,
    policy: ErrorPolicy,
)
    ensures
        ({
            let after = LayerRun::after(before, result, scheduling, policy);
            let bails = result matches Ok(EventControl::Bail);
            &&& before.stopped ==> after == before
            &&& !before.stopped ==> {
                &&& after.bail <==> before.bail || bails
                &&& result is Ok ==> after.errors == before.errors
                &&& result matches Err(error) ==> after.errors == before.errors.push(error)
                &&& after.stopped <==> scheduling == Scheduling::Ordered && (bails || (
                result is Err && policy == ErrorPolicy::Abort))
            }
        }),
{
}

/// A dispatch that takes note of its handlers one by one comes to what their results amount to.
pub proof fn a_dispatch_adds_up_its_handlers<C>(
    results: Seq<Result<EventControl, Error<C>>>,
    result: Result<EventControl, Error<C>>,
    scheduling: Scheduling,
    policy: ErrorPolicy,
)
    ensures
        LayerRun::after(
            crate::event::layer_outcome(results, scheduling, policy),
            result,
            scheduling,
            policy,
        ) == crate::event::layer_outcome(results.push(result), scheduling, policy),
        crate::event::layer_outcome(
            Seq::<Result<EventControl, Error<C>>>::empty(),
            scheduling,
            policy,
        ) == (LayerOutcome { bail: false, errors: Seq::<Error<C>>::empty(), stopped: false }),
{
    assert(results.push(result).drop_last() =~= results);
}

/// The scopes around are left out exactly where a handler of the scope bailed, or one failed and
/// that aborts.
pub proof fn a_scope_holds_an_event_by_bailing_or_failing<C>(
    outcome: LayerOutcome<C>,
    policy: ErrorPolicy,
)
    ensures
        crate::event::ends_emission(outcome, policy) <==> outcome.bail || (outcome.errors.len() > 0
            && policy == ErrorPolicy::Abort),
{
}

/// What is read of a dispatch under way is what it holds.
pub proof fn a_dispatch_shows_what_it_holds<C>(run: LayerRun<C>)
    ensures
        run@.bail == run.bail,
        run@.errors == run.errors@,
        run@.stopped == run.stopped,
{
}

} // verus!
