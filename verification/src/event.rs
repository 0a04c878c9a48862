//! Events: handlers, and what their results mean for the rest of a dispatch.

use std::collections::HashMap;
use std::sync::Arc;

use vstd::prelude::*;

use crate::error::{Error, ErrorKind, Phase};
use crate::id::ScopeId;

verus! {

broadcast use vstd::std_specs::hash::group_hash_axioms;

/// What can be an event: anything that can be shared between threads.
pub trait Event: Send + Sync + 'static {

}

impl<T: Send + Sync + 'static> Event for T {

}

/// What a handler says about the rest of the dispatch.
#[derive(Debug, Clone, Copy, PartialEq, Eq, Structural)]
pub enum EventControl {
    /// Go on with the other handlers and the enclosing scopes.
    Continue,
    /// Leave out the other handlers of this scope, and the enclosing scopes.
    Bail,
}

/// Makes an event handler of a function.
pub struct FnEventHandler<F>(pub F);

/// Makes an event handler of a function that returns a future.
pub struct AsyncFnEventHandler<F>(pub F);

/// A registered event handler. `K` is the handler itself.
pub struct HandlerEntry<K> {
    /// The handler's number in its scope.
    pub id: usize,
    /// The number of the event type it handles.
    pub event: u64,
    pub handler: Arc<K>,
}

impl<K> Clone for HandlerEntry<K> {
    fn clone(&self) -> (copy: Self)
        ensures
            copy == *self,
    {
        HandlerEntry { id: self.id, event: self.event, handler: self.handler.clone() }
    }
}

/// A handle on an event subscription.
#[derive(Debug, Clone, Copy, PartialEq, Eq, Hash, Structural)]
pub struct Subscription {
    pub context_id: ScopeId,
    pub handler_id: usize,
}

/// The handlers of one event type, in order.
pub open spec fn of_event<K>(handlers: Seq<HandlerEntry<K>>, event: u64) -> Seq<HandlerEntry<K>>
    decreases handlers.len(),
{
    if handlers.len() == 0 {
        Seq::empty()
    } else {
        let before = of_event(handlers.drop_last(), event);
        if handlers.last().event == event {
            before.push(handlers.last())
        } else {
            before
        }
    }
}

/// Whether `groups` holds `handlers` by event type.
pub open spec fn grouped<K>(
    handlers: Seq<HandlerEntry<K>>,
    groups: Map<u64, Vec<HandlerEntry<K>>>,
) -> bool {
    &&& forall|event: u64| #[trigger]
        groups.contains_key(event) ==> groups[event]@ == of_event(handlers, event)
    &&& forall|event: u64|
        #![trigger groups.contains_key(event)]
        groups.contains_key(event) <==> of_event(handlers, event).len() > 0
}

/// Groups handlers by event type.
pub fn group_handlers<K>(handlers: &Vec<HandlerEntry<K>>) -> (groups: HashMap<
    u64,
    Vec<HandlerEntry<K>>,
>)
    ensures
        grouped(handlers@, groups@),
{
    let mut groups: HashMap<u64, Vec<HandlerEntry<K>>> = HashMap::new();
    let mut i: usize = 0;
    while i < handlers.len()
        invariant
            i <= handlers@.len(),
            grouped(handlers@.take(i as int), groups@),
        decreases handlers@.len() - i,
    {
        let ghost before = groups@;
        let ghost seen = handlers@.take(i as int);
        let entry = handlers[i].clone();
        let event = entry.event;
        let mut group = match groups.remove(&event) {
            Some(group) => group,
            None => Vec::new(),
        };
        proof {
            assert(group@ =~= of_event(seen, event));
        }
        group.push(entry);
        groups.insert(event, group);
        proof {
            assert(handlers@.take(i as int + 1).drop_last() =~= seen);
            assert(groups@ =~= before.insert(event, group));
            assert forall|other: u64| other != event implies before.contains_key(other)
                == groups@.contains_key(other) by {}
            assert(grouped(handlers@.take(i as int + 1), groups@));
        }
        i = i + 1;
    }
    assert(handlers@.take(i as int) =~= handlers@);
    groups
}

/// How the handlers of one scope are run.
#[derive(Debug, Clone, Copy, PartialEq, Eq, Structural)]
pub enum Scheduling {
    /// One after the other, in the order of registration.
    Ordered,
    /// All at once. A handler that bails cannot hold back those beside it.
    Concurrent,
}

/// What happens when a handler fails.
#[derive(Debug, Clone, Copy, PartialEq, Eq, Structural)]
pub enum ErrorPolicy {
    /// The dispatch ends.
    Abort,
    /// The error is kept, and the dispatch goes on.
    Collect,
}

/// The dispatch of an event in one scope, as far as it has come.
pub struct LayerRun<C> {
    /// Whether a handler has bailed.
    pub bail: bool,
    /// The errors of the handlers.
    pub errors: Vec<Error<C>>,
    /// Whether the other handlers are left out.
    pub stopped: bool,
}

/// What the results of a scope's handlers amount to.
#[verifier::ext_equal]
pub struct LayerOutcome<C> {
    pub bail: bool,
    pub errors: Seq<Error<C>>,
    pub stopped: bool,
}

/// What the results of a scope's handlers, in order, amount to. Results after the point where
/// the other handlers are left out count for nothing.
pub open spec fn layer_outcome<C>(
    results: Seq<Result<EventControl, Error<C>>>,
    scheduling: Scheduling,
    policy: ErrorPolicy,
) -> LayerOutcome<C>
    decreases results.len(),
{
    if results.len() == 0 {
        LayerOutcome { bail: false, errors: Seq::empty(), stopped: false }
    } else {
        let before = layer_outcome(results.drop_last(), scheduling, policy);
        if before.stopped {
            before
        } else {
            match results.last() {
                Ok(EventControl::Continue) => before,
                Ok(EventControl::Bail) => LayerOutcome {
                    bail: true,
                    stopped: scheduling == Scheduling::Ordered,
                    ..before
                },
                Err(error) => LayerOutcome {
                    errors: before.errors.push(error),
                    stopped: scheduling == Scheduling::Ordered && policy == ErrorPolicy::Abort,
                    ..before
                },
            }
        }
    }
}

impl<C> View for LayerRun<C> {
    type V = LayerOutcome<C>;

    open spec fn view(&self) -> LayerOutcome<C> {
        LayerOutcome { bail: self.bail, errors: self.errors@, stopped: self.stopped }
    }
}

impl<C> LayerRun<C> {
    /// A dispatch before the first handler.
    pub fn new(scheduling: Scheduling, policy: ErrorPolicy) -> (run: Self)
        ensures
            run@ == layer_outcome(
                Seq::<Result<EventControl, Error<C>>>::empty(),
                scheduling,
                policy,
            ),
            !run.stopped,
    {
        let run = LayerRun { bail: false, errors: Vec::new(), stopped: false };
        assert(run@ =~= layer_outcome(
            Seq::<Result<EventControl, Error<C>>>::empty(),
            scheduling,
            policy,
        ));
        run
    }

    /// The dispatch after the next handler has ended with `result`.
    pub open spec fn after(
        before: LayerOutcome<C>,
        result: Result<EventControl, Error<C>>,
        scheduling: Scheduling,
        policy: ErrorPolicy,
    ) -> LayerOutcome<C> {
        if before.stopped {
            before
        } else {
            match result {
                Ok(EventControl::Continue) => before,
                Ok(EventControl::Bail) => LayerOutcome {
                    bail: true,
                    stopped: scheduling == Scheduling::Ordered,
                    ..before
                },
                Err(error) => LayerOutcome {
                    errors: before.errors.push(error),
                    stopped: scheduling == Scheduling::Ordered && policy == ErrorPolicy::Abort,
                    ..before
                },
            }
        }
    }

    /// Takes note of how the next handler has ended.
    pub fn handled(
        &mut self,
        result: Result<EventControl, Error<C>>,
        scheduling: Scheduling,
        policy: ErrorPolicy,
    )
        ensures
            final(self)@ == Self::after(old(self)@, result, scheduling, policy),
    {
        if self.stopped {
            return ;
        }
        match result {
            Ok(EventControl::Continue) => {},
            Ok(EventControl::Bail) => {
                self.bail = true;
                if scheduling == Scheduling::Ordered {
                    self.stopped = true;
                }
            },
            Err(error) => {
                self.errors.push(error);
                if scheduling == Scheduling::Ordered && policy == ErrorPolicy::Abort {
                    self.stopped = true;
                }
            },
        }
        assert(self@ =~= Self::after(old(self)@, result, scheduling, policy));
    }

    /// Whether the next handler is to be run.
    pub fn wants_more(&self) -> (more: bool)
        ensures
            more == !self.stopped,
    {
        !self.stopped
    }
}

/// Dispatches an event in one scope, given what its handlers, run together, have returned.
pub fn join_layer<C>(results: Vec<Result<EventControl, Error<C>>>, policy: ErrorPolicy) -> (run:
    LayerRun<C>)
    ensures
        run@ == layer_outcome(results@, Scheduling::Concurrent, policy),
{
    let ghost all = results@;
    let mut run = LayerRun::new(Scheduling::Concurrent, policy);
    assert(all.take(0) =~= Seq::empty());
    for result in it: results
        invariant
            it.seq() == all,
            run@ == layer_outcome(all.take(it.index() as int), Scheduling::Concurrent, policy),
    {
        let ghost k = it.index() as int;
        assert(all.take(k + 1).drop_last() =~= all.take(k));
        assert(all.take(k + 1).last() == all[k]);
        run.handled(result, Scheduling::Concurrent, policy);
    }
    assert(all.take(all.len() as int) =~= all);
    run
}

/// Noting the results one by one gives what they amount to together.
pub proof fn results_add_up<C>(
    results: Seq<Result<EventControl, Error<C>>>,
    next: Result<EventControl, Error<C>>,
    scheduling: Scheduling,
    policy: ErrorPolicy,
)
    ensures
        layer_outcome(results.push(next), scheduling, policy) == LayerRun::after(
            layer_outcome(results, scheduling, policy),
            next,
            scheduling,
            policy,
        ),
{
    assert(results.push(next).drop_last() =~= results);
}

/// A handler that bails leaves out all handlers after it in its scope.
pub proof fn bail_ends_an_ordered_layer<C>(
    before: Seq<Result<EventControl, Error<C>>>,
    after: Seq<Result<EventControl, Error<C>>>,
    policy: ErrorPolicy,
)
    ensures
        ({
            let bailed = before.push(Ok(EventControl::Bail));
            layer_outcome(bailed + after, Scheduling::Ordered, policy) == layer_outcome(
                bailed,
                Scheduling::Ordered,
                policy,
            )
        }),
    decreases after.len(),
{
    let bailed = before.push(Ok(EventControl::Bail));
    assert(bailed.drop_last() =~= before);
    if after.len() == 0 {
        assert(bailed + after =~= bailed);
    } else {
        bail_ends_an_ordered_layer(before, after.drop_last(), policy);
        assert((bailed + after).drop_last() =~= bailed + after.drop_last());
    }
}

/// Where handlers run one after the other and an error ends the dispatch, there is at most one.
pub proof fn strict_layers_have_one_error<C>(results: Seq<Result<EventControl, Error<C>>>)
    ensures
        ({
            let outcome = layer_outcome(results, Scheduling::Ordered, ErrorPolicy::Abort);
            &&& outcome.errors.len() <= 1
            &&& outcome.errors.len() == 1 ==> outcome.stopped
        }),
    decreases results.len(),
{
    if results.len() > 0 {
        strict_layers_have_one_error(results.drop_last());
    }
}

/// The dispatch of an event through a scope and those that enclose it.
pub struct Emission<C> {
    pub scheduling: Scheduling,
    pub policy: ErrorPolicy,
    /// The errors of all handlers so far.
    pub errors: Vec<Error<C>>,
    /// Whether the enclosing scopes are left out.
    pub ended: bool,
}

/// Whether the enclosing scopes are left out after a scope's handlers amounted to `outcome`.
pub open spec fn ends_emission<C>(outcome: LayerOutcome<C>, policy: ErrorPolicy) -> bool {
    outcome.bail || (policy == ErrorPolicy::Abort && outcome.errors.len() > 0)
}

/// The errors of a dispatch through several scopes, from the inside out, given what the handlers
/// of each amount to. Scopes after the point where the enclosing ones are left out count for
/// nothing.
pub open spec fn emission_errors<C>(layers: Seq<LayerOutcome<C>>, policy: ErrorPolicy) -> Seq<
    Error<C>,
>
    decreases layers.len(),
{
    if layers.len() == 0 {
        Seq::empty()
    } else {
        let first = layers.first();
        first.errors + if ends_emission(first, policy) {
            Seq::empty()
        } else {
            emission_errors(layers.drop_first(), policy)
        }
    }
}

/// A strict, ordered dispatch through any number of scopes has at most one error.
pub proof fn strict_emissions_have_one_error<C>(layers: Seq<Seq<Result<EventControl, Error<C>>>>)
    ensures
        emission_errors(
            layers.map_values(
                |results: Seq<Result<EventControl, Error<C>>>|
                    layer_outcome(results, Scheduling::Ordered, ErrorPolicy::Abort),
            ),
            ErrorPolicy::Abort,
        ).len() <= 1,
    decreases layers.len(),
{
    let outcome = |results: Seq<Result<EventControl, Error<C>>>|
        layer_outcome(results, Scheduling::Ordered, ErrorPolicy::Abort);
    let outcomes = layers.map_values(outcome);
    if layers.len() > 0 {
        strict_layers_have_one_error(layers.first());
        strict_emissions_have_one_error(layers.drop_first());
        assert(outcomes.first() == outcome(layers.first()));
        assert(outcomes.drop_first() =~= layers.drop_first().map_values(outcome));
    }
}

/// Where errors are collected and nobody bails, every scope is reached and no error is lost.
pub proof fn collecting_reaches_every_scope<C>(layers: Seq<LayerOutcome<C>>)
    requires
        forall|i: int| 0 <= i < layers.len() ==> !(#[trigger] layers[i]).bail,
    ensures
        emission_errors(layers, ErrorPolicy::Collect) == layers.map_values(
            |layer: LayerOutcome<C>| layer.errors,
        ).flatten(),
    decreases layers.len(),
{
    let errors = |layer: LayerOutcome<C>| layer.errors;
    let all = layers.map_values(errors);
    if layers.len() > 0 {
        assert(!layers[0].bail);
        let rest = layers.drop_first();
        assert forall|i: int| 0 <= i < rest.len() implies !(#[trigger] rest[i]).bail by {
            assert(rest[i] == layers[i + 1]);
        }
        collecting_reaches_every_scope(rest);
        assert(all.drop_first() =~= rest.map_values(errors));
        assert(all.first() == layers.first().errors);
    }
}

impl<C> Emission<C> {
    /// A dispatch before the innermost scope.
    pub fn new(scheduling: Scheduling, policy: ErrorPolicy) -> (emission: Self)
        ensures
            emission.scheduling == scheduling,
            emission.policy == policy,
            emission.errors@.len() == 0,
            !emission.ended,
    {
        Emission { scheduling, policy, errors: Vec::new(), ended: false }
    }

    /// Takes note of what the handlers of the next scope amount to. Tells whether the dispatch
    /// goes on with the enclosing one.
    pub fn layer_done(&mut self, run: LayerRun<C>) -> (go_on: bool)
        requires
            !old(self).ended,
        ensures
            final(self).scheduling == old(self).scheduling,
            final(self).policy == old(self).policy,
            final(self).errors@ == old(self).errors@ + run@.errors,
            final(self).ended == ends_emission(run@, old(self).policy),
            go_on == !final(self).ended,
            forall|outer: Seq<LayerOutcome<C>>|
                old(self).errors@ + emission_errors(
                    #[trigger] (seq![run@] + outer),
                    old(self).policy,
                ) == final(self).errors@ + if go_on {
                    emission_errors(outer, old(self).policy)
                } else {
                    Seq::empty()
                },
    {
        let mut errors = run.errors;
        let abort = self.policy == ErrorPolicy::Abort && errors.len() > 0;
        self.ended = run.bail || abort;
        self.errors.append(&mut errors);
        proof {
            assert forall|outer: Seq<LayerOutcome<C>>|
                old(self).errors@ + emission_errors(
                    #[trigger] (seq![run@] + outer),
                    old(self).policy,
                ) == self.errors@ + if !self.ended {
                    emission_errors(outer, old(self).policy)
                } else {
                    Seq::empty()
                } by {
                let layers = seq![run@] + outer;
                assert(layers.first() == run@);
                assert(layers.drop_first() =~= outer);
                assert(old(self).errors@ + emission_errors(layers, old(self).policy)
                    =~= self.errors@ + if !self.ended {
                    emission_errors(outer, old(self).policy)
                } else {
                    Seq::empty()
                });
            }
        }
        !self.ended
    }

    /// What a strict, ordered dispatch returns: the first error, if there is one.
    pub fn first_error(self) -> (result: Result<(), Error<C>>)
        ensures
            result == if self.errors@.len() == 0 {
                Ok(())
            } else {
                Err(self.errors@[0])
            },
    {
        let mut errors = self.errors;
        if errors.len() == 0 {
            Ok(())
        } else {
            Err(errors.remove(0))
        }
    }

    /// What a strict, concurrent dispatch returns: all errors together, if there are any.
    pub fn all_errors(self) -> (result: Result<(), Error<C>>)
        ensures
            self.errors@.len() == 0 ==> result is Ok,
            self.errors@.len() > 0 ==> result == Err::<(), Error<C>>(
                Error::plain(Phase::Event, ErrorKind::Multiple(Arc::new(self.errors))),
            ),
    {
        if self.errors.len() == 0 {
            Ok(())
        } else {
            Err(Error::new(Phase::Event, ErrorKind::Multiple(Arc::new(self.errors))))
        }
    }
}

} // verus!
