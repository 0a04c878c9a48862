//! The services of one scope.
//!
//! A service type has one slot, which holds a value or a factory, and beside it a collection to
//! which any number of values can be added. `V` is a service value and `G` a factory.

use std::collections::hash_map::Entry;
use std::collections::HashMap;

use vstd::prelude::*;

use crate::error::{Error, ErrorKind, Phase};
use crate::plugin::ServiceKey;

verus! {

broadcast use vstd::std_specs::hash::group_hash_axioms;

/// What a registry holds.
#[verifier::ext_equal]
pub struct Services<V, G> {
    pub values: Map<u64, V>,
    pub factories: Map<u64, G>,
    pub collections: Map<u64, Seq<V>>,
}

impl<V, G> Services<V, G> {
    /// Whether the slot is taken, by a value or a factory.
    pub open spec fn has_slot(self, id: u64) -> bool {
        self.values.contains_key(id) || self.factories.contains_key(id)
    }

    /// The values in a collection; none where there is no such collection.
    pub open spec fn collected(self, id: u64) -> Seq<V> {
        if self.collections.contains_key(id) {
            self.collections[id]
        } else {
            Seq::empty()
        }
    }

    /// The services after a value was added to a collection.
    pub open spec fn collect(self, id: u64, value: V) -> Self {
        Services {
            collections: self.collections.insert(id, self.collected(id).push(value)),
            ..self
        }
    }

    /// The services after the value added last to a collection was taken back. An empty
    /// collection does not stay.
    pub open spec fn uncollect(self, id: u64) -> Self {
        if !self.collections.contains_key(id) {
            self
        } else if self.collections[id].len() <= 1 {
            Services { collections: self.collections.remove(id), ..self }
        } else {
            Services {
                collections: self.collections.insert(id, self.collections[id].drop_last()),
                ..self
            }
        }
    }
}

/// A slot of a registry.
pub enum Found<'a, V, G> {
    Value(&'a V),
    Factory(&'a G),
}

/// A slot of a registry, to be changed.
pub enum FoundMut<'a, V, G> {
    Value(&'a mut V),
    Factory(&'a mut G),
}

/// The services of one scope.
pub struct ServiceRegistry<V, G> {
    pub services: HashMap<u64, V>,
    pub collections: HashMap<u64, Vec<V>>,
    pub factories: HashMap<u64, G>,
}

impl<V, G> View for ServiceRegistry<V, G> {
    type V = Services<V, G>;

    open spec fn view(&self) -> Services<V, G> {
        Services {
            values: self.services@,
            factories: self.factories@,
            collections: self.collections@.map_values(|values: Vec<V>| values@),
        }
    }
}

impl<V, G> ServiceRegistry<V, G> {
    /// A slot holds a value or a factory but not both, and no collection is empty.
    pub open spec fn wf(self) -> bool {
        &&& forall|id: u64| #[trigger]
            self.services@.contains_key(id) ==> !self.factories@.contains_key(id)
        &&& forall|id: u64| #[trigger]
            self.collections@.contains_key(id) ==> self.collections@[id]@.len() > 0
    }

    /// An empty registry.
    pub fn new() -> (registry: Self)
        ensures
            registry.wf(),
            registry@ == (Services::<V, G> {
                values: Map::empty(),
                factories: Map::empty(),
                collections: Map::empty(),
            }),
    {
        let registry = ServiceRegistry {
            services: HashMap::new(),
            collections: HashMap::new(),
            factories: HashMap::new(),
        };
        assert(registry@.collections =~= Map::empty());
        registry
    }

    /// Whether the slot is taken, by a value or a factory. Collections do not count.
    pub fn contains_type(&self, id: u64) -> (taken: bool)
        ensures
            taken == self@.has_slot(id),
    {
        self.services.contains_key(&id) || self.factories.contains_key(&id)
    }

    fn duplicate_slot_error<C>(key: ServiceKey) -> (error: Error<C>)
        ensures
            error.says_taken(key.name@),
    {
        Error::new(Phase::Build, ErrorKind::ServiceAlreadyRegistered(String::from_str(key.name)))
    }

    /// Puts a value into its slot, unless the slot is taken.
    pub fn provide<C>(&mut self, key: ServiceKey, value: V) -> (result: Result<(), Error<C>>)
        requires
            old(self).wf(),
        ensures
            final(self).wf(),
            result is Err <==> old(self)@.has_slot(key.id),
            result matches Err(error) ==> error.says_taken(key.name@),
            final(self)@ == if result is Err {
                old(self)@
            } else {
                Services { values: old(self)@.values.insert(key.id, value), ..old(self)@ }
            },
    {
        if self.contains_type(key.id) {
            return Err(Self::duplicate_slot_error(key));
        }
        self.services.insert(key.id, value);
        Ok(())
    }

    /// Puts a factory into its slot, unless the slot is taken.
    pub fn provide_factory<C>(&mut self, key: ServiceKey, factory: G) -> (result: Result<
        (),
        Error<C>,
    >)
        requires
            old(self).wf(),
        ensures
            final(self).wf(),
            result is Err <==> old(self)@.has_slot(key.id),
            result matches Err(error) ==> error.says_taken(key.name@),
            final(self)@ == if result is Err {
                old(self)@
            } else {
                Services { factories: old(self)@.factories.insert(key.id, factory), ..old(self)@ }
            },
    {
        if self.contains_type(key.id) {
            return Err(Self::duplicate_slot_error(key));
        }
        self.factories.insert(key.id, factory);
        Ok(())
    }

    /// Adds a value to a collection. This always succeeds.
    pub fn provide_collect<C>(&mut self, key: ServiceKey, value: V) -> (result: Result<
        (),
        Error<C>,
    >)
        requires
            old(self).wf(),
        ensures
            final(self).wf(),
            result is Ok,
            final(self)@ == old(self)@.collect(key.id, value),
    {
        let ghost before = self.collections@;
        let mut values = match self.collections.remove(&key.id) {
            Some(values) => values,
            None => Vec::new(),
        };
        assert(values@ == old(self)@.collected(key.id));
        values.push(value);
        self.collections.insert(key.id, values);
        proof {
            assert(self.collections@ =~= before.insert(key.id, values));
            assert(self@.collections =~= old(self)@.collect(key.id, value).collections);
        }
        Ok(())
    }

    /// What is in the slot of a service.
    pub fn lookup(&self, id: u64) -> (found: Option<Found<'_, V, G>>)
        requires
            self.wf(),
        ensures
            match found {
                Some(Found::Value(value)) => self@.values.contains_key(id) && *value
                    == self@.values[id],
                Some(Found::Factory(factory)) => self@.factories.contains_key(id) && *factory
                    == self@.factories[id],
                None => !self@.has_slot(id),
            },
    {
        match self.services.get(&id) {
            Some(value) => Some(Found::Value(value)),
            None => match self.factories.get(&id) {
                Some(factory) => Some(Found::Factory(factory)),
                None => None,
            },
        }
    }

    /// What is in the slot of a service, to be changed.
    pub fn lookup_mut(&mut self, id: u64) -> (found: Option<FoundMut<'_, V, G>>)
        requires
            old(self).wf(),
        ensures
            final(self).wf(),
            match found {
                Some(FoundMut::Value(value)) => {
                    &&& old(self)@.values.contains_key(id)
                    &&& *value == old(self)@.values[id]
                    &&& final(self)@ == (Services {
                        values: old(self)@.values.insert(id, *final(value)),
                        ..old(self)@
                    })
                },
                Some(FoundMut::Factory(factory)) => {
                    &&& old(self)@.factories.contains_key(id)
                    &&& *factory == old(self)@.factories[id]
                    &&& final(self)@ == (Services {
                        factories: old(self)@.factories.insert(id, *final(factory)),
                        ..old(self)@
                    })
                },
                None => !old(self)@.has_slot(id) && final(self)@ == old(self)@,
            },
    {
        if self.services.contains_key(&id) {
            match self.services.entry(id) {
                Entry::Occupied(slot) => Some(FoundMut::Value(slot.into_mut())),
                Entry::Vacant(_) => None,
            }
        } else if self.factories.contains_key(&id) {
            match self.factories.entry(id) {
                Entry::Occupied(slot) => Some(FoundMut::Factory(slot.into_mut())),
                Entry::Vacant(_) => None,
            }
        } else {
            None
        }
    }

    /// The values of a collection, in the order in which they were added.
    pub fn all(&self, id: u64) -> (values: Vec<&V>)
        ensures
            values@.len() == self@.collected(id).len(),
            forall|i: int| 0 <= i < values@.len() ==> *#[trigger] values@[i] == self@.collected(id)[i],
    {
        let mut result: Vec<&V> = Vec::new();
        match self.collections.get(&id) {
            Some(values) => {
                let mut i: usize = 0;
                while i < values.len()
                    invariant
                        i <= values@.len(),
                        values@ == self@.collected(id),
                        result@.len() == i,
                        forall|k: int|
                            0 <= k < i ==> *#[trigger] result@[k] == self@.collected(id)[k],
                    decreases values@.len() - i,
                {
                    result.push(&values[i]);
                    i = i + 1;
                }
            },
            None => {},
        }
        result
    }

    /// Whether there is a value, a factory or a collection for a service.
    pub fn contains(&self, id: u64) -> (present: bool)
        ensures
            present == (self@.has_slot(id) || self@.collections.contains_key(id)),
    {
        self.contains_type(id) || self.collections.contains_key(&id)
    }

    /// Takes a value out of its slot. A factory is not taken out.
    pub fn remove<C>(&mut self, key: ServiceKey) -> (result: Result<V, Error<C>>)
        requires
            old(self).wf(),
        ensures
            final(self).wf(),
            result is Ok <==> old(self)@.values.contains_key(key.id),
            result matches Ok(value) ==> value == old(self)@.values[key.id],
            result matches Err(error) ==> error.says_not_found(Phase::Build, key.name@),
            final(self)@ == (Services { values: old(self)@.values.remove(key.id), ..old(self)@ }),
    {
        match self.services.remove(&key.id) {
            Some(value) => Ok(value),
            None => {
                assert(old(self)@.values.remove(key.id) =~= old(self)@.values);
                Err(Error::service_not_found(Phase::Build, key.name))
            },
        }
    }

    /// Takes back a value that was provided.
    pub fn remove_service_key(&mut self, id: u64)
        requires
            old(self).wf(),
        ensures
            final(self).wf(),
            final(self)@ == (Services { values: old(self)@.values.remove(id), ..old(self)@ }),
    {
        self.services.remove(&id);
    }

    /// Takes back a factory that was provided.
    pub fn remove_factory_key(&mut self, id: u64)
        requires
            old(self).wf(),
        ensures
            final(self).wf(),
            final(self)@ == (Services { factories: old(self)@.factories.remove(id), ..old(self)@ }),
    {
        self.factories.remove(&id);
    }

    /// Takes back the value that was added last to a collection.
    pub fn pop_collection(&mut self, id: u64)
        requires
            old(self).wf(),
        ensures
            final(self).wf(),
            final(self)@ == old(self)@.uncollect(id),
    {
        let ghost before = self.collections@;
        match self.collections.remove(&id) {
            Some(values) => {
                let mut values = values;
                values.pop();
                if values.len() > 0 {
                    self.collections.insert(id, values);
                    assert(self.collections@ =~= before.insert(id, values));
                }
            },
            None => {},
        }
        assert(self@.collections =~= old(self)@.uncollect(id).collections);
    }
}

/// A factory that makes a value when it is first asked for, and keeps it.
pub struct TypedFactory<V, F> {
    pub factory: F,
    pub value: Option<V>,
}

impl<V, C, F: Fn() -> Result<V, Error<C>>> TypedFactory<V, F> {
    /// A factory that has made nothing yet.
    pub fn new(factory: F) -> (made: Self)
        ensures
            made == (TypedFactory::<V, F> { factory, value: None }),
    {
        TypedFactory { factory, value: None }
    }

    /// What asking the factory for its value does: nothing where it has one; else it is run, and
    /// where that succeeds the value is kept.
    pub open spec fn asked(self, after: Self, result: Result<(), Error<C>>) -> bool {
        &&& after.factory == self.factory
        &&& match self.value {
            Some(_) => result is Ok && after == self,
            None => exists|made: Result<V, Error<C>>| #[trigger]
                call_ensures(self.factory, (), made) && match made {
                    Ok(value) => result is Ok && after.value == Some(value),
                    Err(error) => result == Err::<(), Error<C>>(error) && after.value is None,
                },
        }
    }

    /// Makes the value, unless it was made before. A failure is not kept: the next time is a new
    /// attempt.
    pub fn initialise(&mut self) -> (result: Result<(), Error<C>>)
        requires
            call_requires(old(self).factory, ()),
        ensures
            old(self).asked(*final(self), result),
            result is Ok ==> final(self).value is Some,
    {
        if self.value.is_some() {
            return Ok(());
        }
        match (self.factory)() {
            Ok(value) => {
                self.value = Some(value);
                Ok(())
            },
            Err(error) => Err(error),
        }
    }

    /// The value, made now if it was not made before.
    pub fn get(&mut self) -> (result: Result<&V, Error<C>>)
        requires
            call_requires(old(self).factory, ()),
        ensures
            match result {
                Ok(value) => old(self).asked(*final(self), Ok(())) && final(self).value == Some(
                    *value,
                ),
                Err(error) => old(self).asked(*final(self), Err(error)),
            },
    {
        match self.initialise() {
            Err(error) => Err(error),
            Ok(()) => Ok(self.value.as_ref().unwrap()),
        }
    }
}

impl<V, C, F: Fn() -> Result<V, Error<C>>> TypedFactory<V, F> {
    /// The value, to be changed, made now if it was not made before.
    pub fn get_mut(&mut self) -> (result: Result<&mut V, Error<C>>)
        requires
            call_requires(old(self).factory, ()),
        ensures
            match result {
                Ok(value) => {
                    &&& old(self).asked(
                        (TypedFactory { factory: old(self).factory, value: Some(*value) }),
                        Ok(()),
                    )
                    &&& *final(self) == (TypedFactory {
                        factory: old(self).factory,
                        value: Some(*final(value)),
                    })
                },
                Err(error) => old(self).asked(*final(self), Err(error)),
            },
    {
        match self.initialise() {
            Err(error) => Err(error),
            Ok(()) => match &mut self.value {
                Some(value) => Ok(value),
                None => Err(Error::new(Phase::Build, ErrorKind::Other)),
            },
        }
    }
}

impl<V, C, F: Fn() -> Result<V, Error<C>>> ServiceRegistry<V, TypedFactory<V, F>> {
    /// Every factory can be run.
    pub open spec fn runnable(self) -> bool {
        forall|id: u64| #[trigger]
            self.factories@.contains_key(id) ==> call_requires(self.factories@[id].factory, ())
    }

    /// The value that a service has now: the one in its slot, or the one that its factory made.
    pub open spec fn current(self, id: u64) -> Option<V> {
        if self.services@.contains_key(id) {
            Some(self.services@[id])
        } else if self.factories@.contains_key(id) {
            self.factories@[id].value
        } else {
            None
        }
    }

    /// What asking for a service does: where its slot holds a factory, that is asked; nothing
    /// else changes.
    pub open spec fn asked(self, after: Self, id: u64, result: Result<(), Error<C>>) -> bool {
        &&& after@.values == self@.values
        &&& after@.collections == self@.collections
        &&& if !self.services@.contains_key(id) && self.factories@.contains_key(id) {
            &&& after.factories@.contains_key(id)
            &&& after.factories@ == self.factories@.insert(id, after.factories@[id])
            &&& self.factories@[id].asked(after.factories@[id], result)
        } else {
            result is Ok && after.factories@ == self.factories@
        }
    }

    /// Makes the value of a service whose slot holds a factory, unless it was made before.
    fn initialise(&mut self, id: u64) -> (result: Result<(), Error<C>>)
        requires
            old(self).wf(),
            old(self).runnable(),
        ensures
            final(self).wf(),
            final(self).runnable(),
            old(self).asked(*final(self), id, result),
            result is Ok && old(self)@.has_slot(id) ==> final(self).current(id) is Some,
    {
        if self.services.contains_key(&id) {
            return Ok(());
        }
        match self.factories.remove(&id) {
            None => {
                assert(self.factories@ =~= old(self).factories@);
                Ok(())
            },
            Some(factory) => {
                let mut factory = factory;
                let result = factory.initialise();
                self.factories.insert(id, factory);
                assert(self.factories@ =~= old(self).factories@.insert(id, factory));
                result
            },
        }
    }

    fn peek(&self, id: u64) -> (value: Option<&V>)
        ensures
            value == match self.current(id) {
                Some(v) => Some(&v),
                None => None,
            },
    {
        match self.services.get(&id) {
            Some(value) => Some(value),
            None => match self.factories.get(&id) {
                Some(factory) => factory.value.as_ref(),
                None => None,
            },
        }
    }

    /// The value of a service, if there is one; a factory is run where it must be. A factory that
    /// fails is an error, not a missing service.
    pub fn try_get(&mut self, key: ServiceKey) -> (result: Result<Option<&V>, Error<C>>)
        requires
            old(self).wf(),
            old(self).runnable(),
        ensures
            final(self).wf(),
            final(self).runnable(),
            match result {
                Ok(value) => {
                    &&& old(self).asked(*final(self), key.id, Ok(()))
                    &&& value is Some <==> old(self)@.has_slot(key.id)
                    &&& value matches Some(v) ==> final(self).current(key.id) == Some(*v)
                },
                Err(error) => old(self)@.has_slot(key.id) && old(self).asked(
                    *final(self),
                    key.id,
                    Err(error),
                ),
            },
    {
        match self.initialise(key.id) {
            Err(error) => Err(error),
            Ok(()) => Ok(self.peek(key.id)),
        }
    }

    /// The value of a service; a factory is run where it must be.
    pub fn get(&mut self, key: ServiceKey) -> (result: Result<&V, Error<C>>)
        requires
            old(self).wf(),
            old(self).runnable(),
        ensures
            final(self).wf(),
            final(self).runnable(),
            old(self)@.has_slot(key.id) ==> match result {
                Ok(value) => old(self).asked(*final(self), key.id, Ok(())) && final(self).current(
                    key.id,
                ) == Some(*value),
                Err(error) => old(self).asked(*final(self), key.id, Err(error)),
            },
            !old(self)@.has_slot(key.id) ==> {
                &&& result matches Err(error) && error.says_not_found(Phase::Build, key.name@)
                &&& final(self)@ == old(self)@
            },
    {
        match self.initialise(key.id) {
            Err(error) => Err(error),
            Ok(()) => match self.peek(key.id) {
                Some(value) => Ok(value),
                None => Err(Error::service_not_found(Phase::Build, key.name)),
            },
        }
    }

    /// The value of a service, to be changed; a factory is run where it must be.
    pub fn get_mut(&mut self, key: ServiceKey) -> (result: Result<&mut V, Error<C>>)
        requires
            old(self).wf(),
            old(self).runnable(),
        ensures
            final(self).wf(),
            final(self).runnable(),
            !old(self)@.has_slot(key.id) ==> {
                &&& result matches Err(error) && error.says_not_found(Phase::Build, key.name@)
                &&& final(self)@ == old(self)@
            },
            old(self)@.has_slot(key.id) ==> match result {
                Err(error) => old(self).asked(*final(self), key.id, Err(error)),
                Ok(value) => {
                    &&& final(self).current(key.id) == Some(*final(value))
                    &&& final(self)@.collections == old(self)@.collections
                    &&& if old(self).services@.contains_key(key.id) {
                        &&& *value == old(self).services@[key.id]
                        &&& final(self).services@ == old(self).services@.insert(
                            key.id,
                            *final(value),
                        )
                        &&& final(self).factories@ == old(self).factories@
                    } else {
                        let before = old(self).factories@[key.id];
                        &&& before.asked(
                            (TypedFactory { factory: before.factory, value: Some(*value) }),
                            Ok(()),
                        )
                        &&& final(self).services@ == old(self).services@
                        &&& final(self).factories@ == old(self).factories@.insert(
                            key.id,
                            (TypedFactory { factory: before.factory, value: Some(*final(value)) }),
                        )
                    }
                },
            },
    {
        let id = key.id;
        if self.services.contains_key(&id) {
            match self.services.entry(id) {
                Entry::Occupied(slot) => Ok(slot.into_mut()),
                Entry::Vacant(_) => Err(Error::service_not_found(Phase::Build, key.name)),
            }
        } else if self.factories.contains_key(&id) {
            match self.initialise(id) {
                Err(error) => Err(error),
                Ok(()) => match self.factories.entry(id) {
                    Entry::Occupied(slot) => match &mut slot.into_mut().value {
                        Some(value) => Ok(value),
                        None => Err(Error::service_not_found(Phase::Build, key.name)),
                    },
                    Entry::Vacant(_) => Err(Error::service_not_found(Phase::Build, key.name)),
                },
            }
        } else {
            Err(Error::service_not_found(Phase::Build, key.name))
        }
    }
}

/// Taking back what was added last to a collection undoes the addition, whatever else the
/// collection holds.
pub proof fn uncollect_undoes_collect<V, G>(services: Services<V, G>, id: u64, value: V)
    requires
        services.collections.contains_key(id) ==> services.collections[id].len() > 0,
    ensures
        services.collect(id, value).uncollect(id) == services,
{
    let added = services.collect(id, value);
    if services.collections.contains_key(id) {
        assert(added.collections[id].drop_last() =~= services.collections[id]);
    }
    assert(added.uncollect(id) =~= services);
}

/// A value that can be changed while the scope runs.
pub struct DynamicValue<T> {
    pub value: T,
}

impl<T> DynamicValue<T> {
    /// A changeable value that is `initial` at first.
    pub fn new(initial: T) -> (cell: Self)
        ensures
            cell.value == initial,
    {
        DynamicValue { value: initial }
    }

    /// The value as it is now.
    pub fn read(&self) -> (value: &T)
        ensures
            *value == self.value,
    {
        &self.value
    }

    /// The value, to be changed in place.
    pub fn write(&mut self) -> (value: &mut T)
        ensures
            *value == old(self).value,
            final(self).value == *final(value),
    {
        &mut self.value
    }

    /// Replaces the value.
    pub fn set(&mut self, value: T)
        ensures
            final(self).value == value,
    {
        self.value = value;
    }

    /// Changes the value through a function.
    pub fn update<F: FnOnce(&mut T)>(&mut self, f: F)
        requires
            forall|m: &mut T| *m == old(self).value ==> #[trigger] call_requires(f, (m,)),
        ensures
            exists|m: &mut T| #[trigger]
                call_ensures(f, (m,), ()) && *m == old(self).value && *final(m) == final(self).value,
    {
        f(&mut self.value)
    }
}

} // verus!
