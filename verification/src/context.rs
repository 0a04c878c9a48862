//! The frozen side of a scope: its services, plugins and event handlers, and the chain of scopes
//! that enclose it.

use std::collections::HashMap;
use std::sync::Arc;

use vstd::prelude::*;

use crate::error::{Error, Phase};
use crate::event::HandlerEntry;
use crate::id::ScopeId;
use crate::plugin::ServiceKey;
use crate::schedule::contains_name;
use crate::service::{Found, ServiceRegistry, Services};

verus! {

broadcast use vstd::std_specs::hash::group_hash_axioms;

/// The types of what a host of the framework puts into it, and what a plugin is asked.
pub trait Host {
    /// A service value.
    type Value;

    /// A factory of a service value.
    type Factory;

    /// A plugin.
    type Plugin;

    /// A hook that runs when a scope is ready, or when it is disposed of.
    type Hook;

    /// A hook that runs when a scope begins to close.
    type CloseHook;

    /// An event handler.
    type Handler;

    /// An event, as it is kept in a queue.
    type Event;

    /// The cause of an error from outside the framework.
    type Cause;

    /// A point in time.
    type Deadline;

    /// What a plugin says when it is asked for its priority. It may answer differently each time.
    fn priority(plugin: &Self::Plugin) -> i32;
}

/// A scope after it was built. Nothing in it changes any more.
pub struct Data<H: Host> {
    pub context_id: ScopeId,
    pub parent: Option<Arc<Data<H>>>,
    pub services: ServiceRegistry<H::Value, H::Factory>,
    /// The names of the installed plugins.
    pub plugin_names: Vec<&'static str>,
    /// The event handlers by event type, each group in the order of registration.
    pub handlers_by_type: HashMap<u64, Vec<HandlerEntry<H::Handler>>>,
}

/// The slot of a service in the nearest of several scopes that has it, from the inside out.
pub open spec fn nearest<H: Host>(
    services: Services<H::Value, H::Factory>,
    parent: Option<Arc<Data<H>>>,
    id: u64,
) -> Option<Services<H::Value, H::Factory>>
    decreases parent,
{
    if services.has_slot(id) {
        Some(services)
    } else {
        match parent {
            Some(outer) => nearest(outer.services@, outer.parent, id),
            None => None,
        }
    }
}

/// The collected values of a service, the scope's own first, then those of the enclosing scopes
/// from the inside out.
pub open spec fn collected_outward<H: Host>(
    services: Services<H::Value, H::Factory>,
    parent: Option<Arc<Data<H>>>,
    id: u64,
) -> Seq<H::Value>
    decreases parent,
{
    services.collected(id) + match parent {
        Some(outer) => collected_outward(outer.services@, outer.parent, id),
        None => Seq::empty(),
    }
}

/// Whether a scope or one that encloses it has a value, a factory or a collection for a service.
pub open spec fn present_outward<H: Host>(
    services: Services<H::Value, H::Factory>,
    parent: Option<Arc<Data<H>>>,
    id: u64,
) -> bool
    decreases parent,
{
    services.has_slot(id) || services.collections.contains_key(id) || match parent {
        Some(outer) => present_outward(outer.services@, outer.parent, id),
        None => false,
    }
}

/// Whether what was found is what the nearest scope with the slot holds.
pub open spec fn found_in<V, G>(
    holder: Option<Services<V, G>>,
    id: u64,
    found: Option<Found<'_, V, G>>,
) -> bool {
    match found {
        Some(Found::Value(value)) => holder is Some && holder->0.values.contains_key(id) && *value
            == holder->0.values[id],
        Some(Found::Factory(factory)) => holder is Some && holder->0.factories.contains_key(id)
            && *factory == holder->0.factories[id],
        None => holder is None,
    }
}

impl<H: Host> Data<H> {
    /// The registries of this scope and of all that enclose it are well-formed.
    pub open spec fn wf(self) -> bool
        decreases self,
    {
        self.services.wf() && match self.parent {
            Some(outer) => outer.wf(),
            None => true,
        }
    }

    /// The number of enclosing scopes.
    pub open spec fn depth_is(self) -> nat
        decreases self,
    {
        match self.parent {
            Some(outer) => 1 + outer.depth_is(),
            None => 0,
        }
    }

    /// Whether a plugin of this name is installed here or in an enclosing scope.
    pub open spec fn knows_plugin(self, name: Seq<char>) -> bool
        decreases self,
    {
        crate::schedule::has_name(self.plugin_names@, name) || match self.parent {
            Some(outer) => outer.knows_plugin(name),
            None => false,
        }
    }

    /// The number of enclosing scopes.
    pub fn depth(&self) -> (depth: usize)
        requires
            self.depth_is() <= usize::MAX,
        ensures
            depth == self.depth_is(),
    {
        let mut depth: usize = 0;
        let mut current: &Data<H> = self;
        loop
            invariant
                self.depth_is() <= usize::MAX,
                self.depth_is() == depth + current.depth_is(),
            decreases *current,
        {
            match &current.parent {
                Some(outer) => {
                    depth = depth + 1;
                    current = outer;
                },
                None => {
                    return depth;
                },
            }
        }
    }

    /// Looks for the slot of a service, here and then outwards.
    pub fn find(&self, id: u64) -> (found: Option<Found<'_, H::Value, H::Factory>>)
        requires
            self.wf(),
        ensures
            found_in(nearest(self.services@, self.parent, id), id, found),
    {
        let mut current: &Data<H> = self;
        loop
            invariant
                current.wf(),
                nearest(self.services@, self.parent, id) == nearest(
                    current.services@,
                    current.parent,
                    id,
                ),
            decreases *current,
        {
            match current.services.lookup(id) {
                Some(found) => {
                    return Some(found);
                },
                None => {},
            }
            match &current.parent {
                Some(outer) => {
                    current = outer;
                },
                None => {
                    return None;
                },
            }
        }
    }

    /// The collected values of a service here.
    pub fn all(&self, id: u64) -> (values: Vec<&H::Value>)
        ensures
            values@.len() == self.services@.collected(id).len(),
            forall|i: int|
                0 <= i < values@.len() ==> *#[trigger] values@[i] == self.services@.collected(id)[i],
    {
        self.services.all(id)
    }

    /// The collected values of a service here, and then those of the enclosing scopes.
    pub fn all_with_parents(&self, id: u64) -> (values: Vec<&H::Value>)
        ensures
            ({
                let expected = collected_outward(self.services@, self.parent, id);
                &&& values@.len() == expected.len()
                &&& forall|i: int|
                    0 <= i < values@.len() ==> *#[trigger] values@[i] == expected[i]
            }),
    {
        let mut values: Vec<&H::Value> = Vec::new();
        let mut current: &Data<H> = self;
        let ghost expected = collected_outward(self.services@, self.parent, id);
        loop
            invariant
                expected == collected_outward(self.services@, self.parent, id),
                expected.len() == values@.len() + collected_outward(
                    current.services@,
                    current.parent,
                    id,
                ).len(),
                forall|i: int| 0 <= i < values@.len() ==> *#[trigger] values@[i] == expected[i],
                forall|i: int|
                    values@.len() <= i < expected.len() ==> #[trigger] expected[i]
                        == collected_outward(current.services@, current.parent, id)[i
                        - values@.len()],
            decreases *current,
        {
            let ghost before = values@;
            let ghost rest = collected_outward(current.services@, current.parent, id);
            let mut here = current.services.all(id);
            let ghost own = here@;
            values.append(&mut here);
            assert forall|i: int| 0 <= i < values@.len() implies *#[trigger] values@[i]
                == expected[i] by {
                if i < before.len() {
                    assert(values@[i] == before[i]);
                } else {
                    assert(values@[i] == own[i - before.len()]);
                    assert(rest[i - before.len()] == current.services@.collected(id)[i
                        - before.len()]);
                }
            }
            match &current.parent {
                Some(outer) => {
                    assert forall|i: int|
                        values@.len() <= i < expected.len() implies #[trigger] expected[i]
                        == collected_outward(outer.services@, outer.parent, id)[i
                        - values@.len()] by {
                        assert(expected[i] == rest[i - before.len()]);
                    }
                    current = outer;
                },
                None => {
                    return values;
                },
            }
        }
    }

    /// Whether there is a value, a factory or a collection for a service, here or outwards.
    pub fn contains(&self, id: u64) -> (present: bool)
        ensures
            present == present_outward(self.services@, self.parent, id),
    {
        let mut current: &Data<H> = self;
        loop
            invariant
                present_outward(self.services@, self.parent, id) == present_outward(
                    current.services@,
                    current.parent,
                    id,
                ),
            decreases *current,
        {
            if current.services.contains(id) {
                return true;
            }
            match &current.parent {
                Some(outer) => {
                    current = outer;
                },
                None => {
                    return false;
                },
            }
        }
    }

    /// Whether there is a value or a factory for a service, here or outwards.
    pub fn contains_type(&self, id: u64) -> (present: bool)
        ensures
            present == (nearest(self.services@, self.parent, id) is Some),
    {
        let mut current: &Data<H> = self;
        loop
            invariant
                nearest(self.services@, self.parent, id) == nearest(
                    current.services@,
                    current.parent,
                    id,
                ),
            decreases *current,
        {
            if current.services.contains_type(id) {
                return true;
            }
            match &current.parent {
                Some(outer) => {
                    current = outer;
                },
                None => {
                    return false;
                },
            }
        }
    }

    /// Whether a plugin of this name is installed, here or outwards.
    pub fn has_plugin(&self, name: &str) -> (known: bool)
        ensures
            known == self.knows_plugin(name@),
    {
        let mut current: &Data<H> = self;
        loop
            invariant
                self.knows_plugin(name@) == current.knows_plugin(name@),
            decreases *current,
        {
            if contains_name(&current.plugin_names, name) {
                return true;
            }
            match &current.parent {
                Some(outer) => {
                    current = outer;
                },
                None => {
                    return false;
                },
            }
        }
    }

    /// The names of all plugins installed here or outwards.
    pub fn plugin_names_outward(&self) -> (names: Vec<&'static str>)
        ensures
            forall|name: Seq<char>| #[trigger] crate::schedule::has_name(names@, name) == self.knows_plugin(name),
    {
        let mut names: Vec<&'static str> = Vec::new();
        let mut current: &Data<H> = self;
        loop
            invariant
                forall|name: Seq<char>| #[trigger]
                    self.knows_plugin(name) == (crate::schedule::has_name(names@, name)
                        || current.knows_plugin(name)),
            decreases *current,
        {
            let ghost before = names@;
            let ghost own = current.plugin_names@;
            let mut i: usize = 0;
            while i < current.plugin_names.len()
                invariant
                    i <= current.plugin_names@.len(),
                    own == current.plugin_names@,
                    names@ =~= before + own.take(i as int),
                decreases current.plugin_names@.len() - i,
            {
                names.push(current.plugin_names[i]);
                i = i + 1;
            }
            proof {
                assert(own.take(i as int) =~= own);
                lemma_names_of_both(before, own);
            }
            match &current.parent {
                Some(outer) => {
                    assert forall|name: Seq<char>| #[trigger]
                        self.knows_plugin(name) == (crate::schedule::has_name(names@, name)
                            || outer.knows_plugin(name)) by {
                        assert(crate::schedule::has_name(before + own, name) == (
                        crate::schedule::has_name(before, name) || crate::schedule::has_name(
                            own,
                            name,
                        )));
                    }
                    current = outer;
                },
                None => {
                    assert forall|name: Seq<char>| #[trigger]
                        crate::schedule::has_name(names@, name) == self.knows_plugin(name) by {}
                    return names;
                },
            }
        }
    }

    /// The handlers of an event type, in the order of registration.
    pub open spec fn handlers_of(self, event: u64) -> Seq<HandlerEntry<H::Handler>> {
        if self.handlers_by_type@.contains_key(event) {
            self.handlers_by_type@[event]@
        } else {
            Seq::empty()
        }
    }

    /// The handlers of an event type, in the order of registration; `None` where there are none.
    pub fn event_handlers_for(&self, event: u64) -> (handlers: Option<
        &Vec<HandlerEntry<H::Handler>>,
    >)
        ensures
            match handlers {
                Some(handlers) => handlers@ == self.handlers_of(event),
                None => self.handlers_of(event).len() == 0,
            },
    {
        self.handlers_by_type.get(&event)
    }
}

proof fn lemma_names_of_both(one: Seq<&'static str>, other: Seq<&'static str>)
    ensures
        forall|name: Seq<char>| #[trigger]
            crate::schedule::has_name(one + other, name) == (crate::schedule::has_name(one, name)
                || crate::schedule::has_name(other, name)),
{
    let both = one + other;
    assert forall|name: Seq<char>| #[trigger]
        crate::schedule::has_name(both, name) == (crate::schedule::has_name(one, name)
            || crate::schedule::has_name(other, name)) by {
        if crate::schedule::has_name(one, name) {
            let k = choose|k: int| 0 <= k < one.len() && (#[trigger] one[k])@ == name;
            assert(both[k]@ == name);
        }
        if crate::schedule::has_name(other, name) {
            let k = choose|k: int| 0 <= k < other.len() && (#[trigger] other[k])@ == name;
            assert(both[one.len() + k]@ == name);
        }
        if crate::schedule::has_name(both, name) {
            let k = choose|k: int| 0 <= k < both.len() && (#[trigger] both[k])@ == name;
            if k < one.len() {
                assert(one[k]@ == name);
            } else {
                assert(other[k - one.len()]@ == name);
            }
        }
    }
}

/// The scopes in which an event has handlers, from `data` outwards.
pub open spec fn listening<H: Host>(data: Arc<Data<H>>, event: u64) -> Seq<Context<H>>
    decreases data,
{
    let here = if data.handlers_of(event).len() > 0 {
        seq![Context { inner: data }]
    } else {
        Seq::empty()
    };
    here + match data.parent {
        Some(outer) => listening(outer, event),
        None => Seq::empty(),
    }
}

/// A scope and those around it, from `data` outwards.
pub open spec fn enclosing<H: Host>(data: Arc<Data<H>>) -> Seq<Context<H>>
    decreases data,
{
    seq![Context { inner: data }] + match data.parent {
        Some(outer) => enclosing(outer),
        None => Seq::empty(),
    }
}

/// A handle on a built scope.
pub struct Context<H: Host> {
    pub inner: Arc<Data<H>>,
}

impl<H: Host> Clone for Context<H> {
    fn clone(&self) -> (copy: Self)
        ensures
            copy == *self,
    {
        Context { inner: self.inner.clone() }
    }
}

impl<H: Host> Context<H> {
    /// The scope's id.
    pub fn id(&self) -> (id: ScopeId)
        ensures
            id == self.inner.context_id,
    {
        self.inner.context_id
    }

    /// A handle on the enclosing scope; `None` at the root.
    pub fn parent(&self) -> (parent: Option<Context<H>>)
        ensures
            parent == match self.inner.parent {
                Some(outer) => Some(Context { inner: outer }),
                None => None,
            },
    {
        match &self.inner.parent {
            Some(outer) => Some(Context { inner: outer.clone() }),
            None => None,
        }
    }

    /// This scope and those around it, outwards.
    pub fn outward(&self) -> (scopes: Vec<Context<H>>)
        ensures
            scopes@ == enclosing(self.inner),
    {
        let mut scopes: Vec<Context<H>> = Vec::new();
        let mut current: Arc<Data<H>> = self.inner.clone();
        loop
            invariant
                enclosing(self.inner) == scopes@ + enclosing(current),
            decreases current,
        {
            let outer: Option<Arc<Data<H>>> = match &current.parent {
                Some(outer) => Some(outer.clone()),
                None => None,
            };
            scopes.push(Context { inner: current.clone() });
            match outer {
                Some(outer) => {
                    proof {
                        assert(enclosing(self.inner) =~= scopes@ + enclosing(outer));
                    }
                    current = outer;
                },
                None => {
                    proof {
                        assert(enclosing(self.inner) =~= scopes@);
                    }
                    return scopes;
                },
            }
        }
    }

    /// The scopes in which an event has handlers, this one first, then outwards.
    pub fn listeners(&self, event: u64) -> (scopes: Vec<Context<H>>)
        ensures
            scopes@ == listening(self.inner, event),
    {
        let mut scopes: Vec<Context<H>> = Vec::new();
        let mut current: Arc<Data<H>> = self.inner.clone();
        loop
            invariant
                listening(self.inner, event) == scopes@ + listening(current, event),
            decreases current,
        {
            let here = match current.event_handlers_for(event) {
                Some(handlers) => handlers.len() > 0,
                None => false,
            };
            let ghost before = scopes@;
            if here {
                scopes.push(Context { inner: current.clone() });
            }
            let outer: Option<Arc<Data<H>>> = match &current.parent {
                Some(outer) => Some(outer.clone()),
                None => None,
            };
            match outer {
                Some(outer) => {
                    proof {
                        assert(listening(self.inner, event) =~= scopes@ + listening(outer, event));
                    }
                    current = outer;
                },
                None => {
                    proof {
                        assert(listening(self.inner, event) =~= scopes@);
                    }
                    return scopes;
                },
            }
        }
    }

    /// The slot of a service, here or in the nearest enclosing scope that has it, if there is one.
    pub fn try_require(&self, key: ServiceKey) -> (found: Option<Found<'_, H::Value, H::Factory>>)
        requires
            self.inner.wf(),
        ensures
            found_in(nearest(self.inner.services@, self.inner.parent, key.id), key.id, found),
    {
        self.inner.find(key.id)
    }

    /// The slot of a service, here or in the nearest enclosing scope that has it. That there is
    /// none is an error of the phase `Require`.
    pub fn require(&self, key: ServiceKey) -> (found: Result<
        Found<'_, H::Value, H::Factory>,
        Error<H::Cause>,
    >)
        requires
            self.inner.wf(),
        ensures
            match found {
                Ok(found) => found_in(
                    nearest(self.inner.services@, self.inner.parent, key.id),
                    key.id,
                    Some(found),
                ),
                Err(error) => nearest(self.inner.services@, self.inner.parent, key.id) is None
                    && error.says_not_found(Phase::Require, key.name@),
            },
    {
        match self.inner.find(key.id) {
            Some(found) => Ok(found),
            None => Err(Error::service_not_found(Phase::Require, key.name)),
        }
    }

    /// The collected values of a service in this scope.
    pub fn require_all(&self, key: ServiceKey) -> (values: Vec<&H::Value>)
        ensures
            values@.len() == self.inner.services@.collected(key.id).len(),
            forall|i: int|
                0 <= i < values@.len() ==> *#[trigger] values@[i]
                    == self.inner.services@.collected(key.id)[i],
    {
        self.inner.all(key.id)
    }

    /// The collected values of a service in this scope, and then in those that enclose it.
    pub fn require_all_recursive(&self, key: ServiceKey) -> (values: Vec<&H::Value>)
        ensures
            ({
                let expected = collected_outward(
                    self.inner.services@,
                    self.inner.parent,
                    key.id,
                );
                &&& values@.len() == expected.len()
                &&& forall|i: int|
                    0 <= i < values@.len() ==> *#[trigger] values@[i] == expected[i]
            }),
    {
        self.inner.all_with_parents(key.id)
    }

    /// Whether there is a value, a factory or a collection for a service, here or outwards.
    pub fn contains(&self, key: ServiceKey) -> (present: bool)
        ensures
            present == present_outward(self.inner.services@, self.inner.parent, key.id),
    {
        self.inner.contains(key.id)
    }

    /// Whether a plugin of this name is installed, here or outwards.
    pub fn has_plugin(&self, name: &str) -> (known: bool)
        ensures
            known == self.inner.knows_plugin(name@),
    {
        self.inner.has_plugin(name)
    }
}

/// A scope's own slot hides the slots of the scopes that enclose it, whatever those hold.
pub proof fn own_slot_hides_outer_slots<H: Host>(
    services: Services<H::Value, H::Factory>,
    one: Option<Arc<Data<H>>>,
    other: Option<Arc<Data<H>>>,
    id: u64,
)
    requires
        services.has_slot(id),
    ensures
        nearest(services, one, id) == Some(services),
        nearest(services, one, id) == nearest(services, other, id),
{
}

/// A service that a scope does not have itself is the one that the enclosing scope finds.
pub proof fn missing_slot_is_looked_up_outside<H: Host>(
    services: Services<H::Value, H::Factory>,
    outer: Arc<Data<H>>,
    id: u64,
)
    requires
        !services.has_slot(id),
    ensures
        nearest(services, Some(outer), id) == nearest(outer.services@, outer.parent, id),
{
}

} // verus!
