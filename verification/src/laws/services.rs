//! What a registry of services holds.

use vstd::prelude::*;

use crate::error::Error;
use crate::service::{ServiceRegistry, Services, TypedFactory};

verus! {

/// What a registry shows is what it holds: its values, its factories, and the values of each of its
/// collections. A slot is taken exactly where it holds a value or a factory.
pub proof fn a_registry_shows_what_it_holds<V, G>(registry: ServiceRegistry<V, G>, id: u64)
    ensures
        registry@.values == registry.services@,
        registry@.factories == registry.factories@,
        registry@.has_slot(id) <==> registry.services@.contains_key(id)
            || registry.factories@.contains_key(id),
        registry@.collections.contains_key(id) <==> registry.collections@.contains_key(id),
        registry.collections@.contains_key(id) ==> registry@.collected(id)
            == registry.collections@[id]@,
        !registry.collections@.contains_key(id) ==> registry@.collected(id) == Seq::<V>::empty(),
{
}

/// A value that is put into a collection is its last one, after all that it held; nothing else
/// changes.
pub proof fn a_collection_grows_at_its_end<V, G>(
    services: Services<V, G>,
    id: u64,
    value: V,
    other: u64,
)
    ensures
        services.collect(id, value).collections.contains_key(id),
        services.collections.contains_key(id) ==> services.collect(id, value).collections[id]
            == services.collections[id].push(value),
        !services.collections.contains_key(id) ==> services.collect(id, value).collections[id]
            == seq![value],
        other != id ==> {
            let after = services.collect(id, value).collections;
            &&& after.contains_key(other) == services.collections.contains_key(other)
            &&& after.contains_key(other) ==> after[other] == services.collections[other]
        },
        services.collect(id, value).values == services.values,
        services.collect(id, value).factories == services.factories,
{
    assert(Seq::<V>::empty().push(value) =~= seq![value]);
}

/// Taking back the value that was put last into a collection undoes just that. A collection of one
/// value is gone then; where there is none, nothing changes.
pub proof fn taking_back_undoes_the_last_value<V, G>(
    services: Services<V, G>,
    id: u64,
    value: V,
    other: u64,
)
    requires
        services.collections.contains_key(id) ==> services.collections[id].len() > 0,
    ensures
        services.collect(id, value).uncollect(id) == services,
        !services.collections.contains_key(id) ==> services.uncollect(id) == services,
        services.collections.contains_key(id) && services.collections[id].len() == 1
            ==> services.uncollect(id).collections == services.collections.remove(id),
        services.collections.contains_key(id) && services.collections[id].len() > 1
            ==> services.uncollect(id).collections.contains_key(id) && services.uncollect(
            id,
        ).collections[id] == services.collections[id].take(services.collections[id].len() - 1),
        other != id ==> {
            let after = services.uncollect(id).collections;
            &&& after.contains_key(other) == services.collections.contains_key(other)
            &&& after.contains_key(other) ==> after[other] == services.collections[other]
        },
        services.uncollect(id).values == services.values,
        services.uncollect(id).factories == services.factories,
{
    let grown = services.collect(id, value);
    assert(grown.collections[id].drop_last() =~= services.collected(id));
    assert(grown.uncollect(id).collections =~= services.collections);
    if services.collections.contains_key(id) {
        assert(services.collections[id].drop_last() =~= services.collections[id].take(
            services.collections[id].len() - 1,
        ));
    }
}

/// A factory that has made its value keeps it, and asking it again succeeds. What one that has made
/// none comes to is what running it gave: a value is kept, and an error is passed on and leaves the
/// factory without a value.
pub proof fn a_factory_makes_its_value_once<V, C, F: Fn() -> Result<V, Error<C>>>(
    before: TypedFactory<V, F>,
    after: TypedFactory<V, F>,
    result: Result<(), Error<C>>,
)
    requires
        before.asked(after, result),
    ensures
        after.factory == before.factory,
        before.value is Some ==> result is Ok && after.value == before.value,
        result is Ok <==> after.value is Some,
        before.value is None && result is Ok ==> call_ensures(
            before.factory,
            (),
            Ok::<V, Error<C>>(after.value->0),
        ),
        result matches Err(error) ==> before.value is None && call_ensures(
            before.factory,
            (),
            Err::<V, Error<C>>(error),
        ),
{
}

/// The value in a slot comes before what a factory made for it. Asking for a service runs the
/// factory of its slot, if it holds one and no value, and touches no other.
pub proof fn asking_touches_the_factory_of_the_slot_alone<V, C, F: Fn() -> Result<V, Error<C>>>(
    before: ServiceRegistry<V, TypedFactory<V, F>>,
    after: ServiceRegistry<V, TypedFactory<V, F>>,
    id: u64,
    result: Result<(), Error<C>>,
    other: u64,
)
    requires
        before.asked(after, id, result),
    ensures
        after.services@ == before.services@,
        after@.collections == before@.collections,
        after.factories@.contains_key(other) == before.factories@.contains_key(other),
        other != id && before.factories@.contains_key(other) ==> after.factories@[other]
            == before.factories@[other],
        before.services@.contains_key(id) ==> result is Ok && after.current(id) == Some(
            before.services@[id],
        ) && after.factories@ == before.factories@,
        !before.services@.contains_key(id) && !before.factories@.contains_key(id)
            ==> result is Ok && after.current(id) is None && after.factories@
            == before.factories@,
        !before.services@.contains_key(id) && before.factories@.contains_key(id) ==> {
            &&& after.current(id) == after.factories@[id].value
            &&& after.factories@[id].factory == before.factories@[id].factory
            &&& before.factories@[id].value is Some ==> result is Ok && after.factories@[id].value
                == before.factories@[id].value
            &&& result is Ok <==> after.factories@[id].value is Some
            &&& before.factories@[id].value is None && result is Ok ==> call_ensures(
                before.factories@[id].factory,
                (),
                Ok::<V, Error<C>>(after.factories@[id].value->0),
            )
            &&& result matches Err(error) ==> call_ensures(
                before.factories@[id].factory,
                (),
                Err::<V, Error<C>>(error),
            )
        },
{
    if !before.services@.contains_key(id) && before.factories@.contains_key(id) {
        a_factory_makes_its_value_once(before.factories@[id], after.factories@[id], result);
    }
}

} // verus!
