//! What is found in a scope and in those around it.

use std::sync::Arc;

use vstd::prelude::*;

use crate::builder::Builder;
use crate::context::{Context, Data, Host};
use crate::error::{Error, ErrorKind, Phase};
use crate::schedule::Schedule;
use crate::service::{Found, ServiceRegistry};

verus! {

/// Whether `outer` are the scopes around one whose parent is `parent`, from the inside out: each is
/// the parent of the one before, and the last has none.
pub open spec fn around<H: Host>(
    parent: Option<Arc<Data<H>>>,
    outer: Seq<Arc<Data<H>>>,
) -> bool {
    &&& parent == if outer.len() == 0 {
        None
    } else {
        Some(outer[0])
    }
    &&& forall|i: int, k: int|
        #![trigger outer[i], outer[k]]
        0 <= i && k == i + 1 && k < outer.len() ==> outer[i].parent == Some(outer[k])
    &&& outer.len() > 0 ==> outer.last().parent is None
}

/// Every scope has its scopes around it, finitely many.
pub proof fn every_scope_lies_in_finitely_many<H: Host>(parent: Option<Arc<Data<H>>>) -> (outer: Seq<
    Arc<Data<H>>,
>)
    ensures
        around(parent, outer),
    decreases parent,
{
    match parent {
        None => Seq::empty(),
        Some(data) => {
            let further = every_scope_lies_in_finitely_many(parent_of(data));
            let outer = seq![data] + further;
            assert forall|i: int, k: int|
                #![trigger outer[i], outer[k]]
                0 <= i && k == i + 1 && k < outer.len() implies outer[i].parent == Some(outer[k]) by {
                if i > 0 {
                    assert(outer[i] == further[i - 1] && outer[k] == further[k - 1]);
                } else {
                    assert(outer[k] == further[0]);
                }
            }
            if further.len() > 0 {
                assert(outer.last() == further.last());
            }
            outer
        },
    }
}

spec fn services_of<H: Host>(data: Arc<Data<H>>) -> ServiceRegistry<H::Value, H::Factory> {
    data.services
}

spec fn parent_of<H: Host>(data: Arc<Data<H>>) -> Option<Arc<Data<H>>> {
    data.parent
}

spec fn knows<H: Host>(data: Arc<Data<H>>, name: Seq<char>) -> bool {
    data.knows_plugin(name)
}

/// The scopes around a scope are those around its parent, behind the parent.
proof fn lemma_around_steps<H: Host>(parent: Option<Arc<Data<H>>>, outer: Seq<Arc<Data<H>>>)
    requires
        around(parent, outer),
    ensures
        parent is None <==> outer.len() == 0,
        parent matches Some(data) ==> outer[0] == data && around(data.parent, outer.drop_first()),
{
    if outer.len() > 0 {
        let further = outer.drop_first();
        if further.len() > 0 {
            assert(outer[0].parent == Some(outer[1]));
            assert(further[0] == outer[1]);
            assert(further.last() == outer.last());
        } else {
            assert(outer.last() == outer[0]);
        }
        assert forall|i: int, k: int|
            #![trigger further[i], further[k]]
            0 <= i && k == i + 1 && k < further.len() implies further[i].parent == Some(
            further[k],
        ) by {
            assert(further[i] == outer[i + 1] && further[k] == outer[k + 1]);
        }
    }
}

/// The registries of a scope and of those around it, from the inside out.
pub open spec fn registries<H: Host>(
    own: ServiceRegistry<H::Value, H::Factory>,
    outer: Seq<Arc<Data<H>>>,
) -> Seq<ServiceRegistry<H::Value, H::Factory>> {
    seq![own] + outer.map_values(|data: Arc<Data<H>>| data.services)
}

/// A service is the one of the innermost scope that has a value or a factory for it: that scope's
/// own, or that of the nearest scope around it. It is missing exactly where none has either.
pub proof fn a_service_is_that_of_the_innermost_scope<H: Host>(
    own: ServiceRegistry<H::Value, H::Factory>,
    parent: Option<Arc<Data<H>>>,
    outer: Seq<Arc<Data<H>>>,
    id: u64,
    found: Option<Found<'_, H::Value, H::Factory>>,
)
    requires
        around(parent, outer),
        crate::context::found_in(crate::context::nearest(own@, parent, id), id, found),
    ensures
        found is None <==> forall|i: int|
            0 <= i < outer.len() + 1 ==> {
                &&& !(#[trigger] registries(own, outer)[i]).services@.contains_key(id)
                &&& !registries(own, outer)[i].factories@.contains_key(id)
            },
        found matches Some(Found::Value(value)) ==> exists|i: int|
            {
                &&& 0 <= i < outer.len() + 1
                &&& (#[trigger] registries(own, outer)[i]).services@.contains_key(id)
                &&& *value == registries(own, outer)[i].services@[id]
                &&& forall|j: int|
                    0 <= j < i ==> {
                        &&& !(#[trigger] registries(own, outer)[j]).services@.contains_key(id)
                        &&& !registries(own, outer)[j].factories@.contains_key(id)
                    }
            },
        found matches Some(Found::Factory(factory)) ==> exists|i: int|
            {
                &&& 0 <= i < outer.len() + 1
                &&& (#[trigger] registries(own, outer)[i]).factories@.contains_key(id)
                &&& *factory == registries(own, outer)[i].factories@[id]
                &&& forall|j: int|
                    0 <= j < i ==> {
                        &&& !(#[trigger] registries(own, outer)[j]).services@.contains_key(id)
                        &&& !registries(own, outer)[j].factories@.contains_key(id)
                    }
            },
{
    let all = registries(own, outer);
    let i = lemma_nearest(own, parent, outer, id);
    if i < all.len() {
        assert(all[i] == registries(own, outer)[i]);
    }
}

/// Where the nearest scope with a slot stands; the number of scopes where there is none.
proof fn lemma_nearest<H: Host>(
    own: ServiceRegistry<H::Value, H::Factory>,
    parent: Option<Arc<Data<H>>>,
    outer: Seq<Arc<Data<H>>>,
    id: u64,
) -> (at: int)
    requires
        around(parent, outer),
    ensures
        0 <= at <= outer.len() + 1,
        forall|j: int|
            0 <= j < at ==> {
                &&& !(#[trigger] registries(own, outer)[j]).services@.contains_key(id)
                &&& !registries(own, outer)[j].factories@.contains_key(id)
            },
        at < outer.len() + 1 ==> {
            &&& registries(own, outer)[at].services@.contains_key(id) || registries(
                own,
                outer,
            )[at].factories@.contains_key(id)
            &&& crate::context::nearest(own@, parent, id) == Some(registries(own, outer)[at]@)
        },
        at == outer.len() + 1 ==> crate::context::nearest(own@, parent, id) is None,
    decreases outer.len(),
{
    lemma_around_steps(parent, outer);
    let all = registries(own, outer);
    assert(all[0] == own);
    if own.services@.contains_key(id) || own.factories@.contains_key(id) {
        0
    } else {
        match parent {
            None => 1,
            Some(data) => {
                let further = outer.drop_first();
                let at = lemma_nearest(services_of(data), parent_of(data), further, id);
                let rest = registries(services_of(data), further);
                assert(all.drop_first() =~= rest);
                assert forall|j: int| 0 <= j < at + 1 implies {
                    &&& !(#[trigger] all[j]).services@.contains_key(id)
                    &&& !all[j].factories@.contains_key(id)
                } by {
                    if j > 0 {
                        assert(all[j] == rest[j - 1]);
                    }
                }
                if at < further.len() + 1 {
                    assert(all[at + 1] == rest[at]);
                }
                at + 1
            },
        }
    }
}

/// The values collected for a service, here and outwards, are those of this scope, then those of
/// each scope around it in turn: none is left out, and nothing is added. At the root they are its
/// own.
pub proof fn a_collection_holds_the_values_of_every_scope<H: Host>(
    own: ServiceRegistry<H::Value, H::Factory>,
    parent: Option<Arc<Data<H>>>,
    outer: Seq<Arc<Data<H>>>,
    id: u64,
)
    requires
        around(parent, outer),
    ensures
        crate::context::collected_outward(own@, parent, id) == registries(own, outer).map_values(
            |registry: ServiceRegistry<H::Value, H::Factory>|
                if registry.collections@.contains_key(id) {
                    registry.collections@[id]@
                } else {
                    Seq::empty()
                },
        ).flatten(),
        parent is None && own.collections@.contains_key(id) ==> crate::context::collected_outward(
            own@,
            parent,
            id,
        ) == own.collections@[id]@,
        parent is None && !own.collections@.contains_key(id) ==> crate::context::collected_outward(
            own@,
            parent,
            id,
        ).len() == 0,
        forall|i: int, k: int|
            0 <= i < outer.len() && (#[trigger] outer[i]).services.collections@.contains_key(id)
                && 0 <= k < outer[i].services.collections@[id]@.len()
                ==> crate::context::collected_outward(own@, parent, id).contains(
                #[trigger] outer[i].services.collections@[id]@[k],
            ),
    decreases outer.len(),
{
    lemma_around_steps(parent, outer);
    let here = |registry: ServiceRegistry<H::Value, H::Factory>|
        if registry.collections@.contains_key(id) {
            registry.collections@[id]@
        } else {
            Seq::empty()
        };
    let all = registries(own, outer);
    let parts = all.map_values(here);
    let whole = crate::context::collected_outward(own@, parent, id);
    assert(parts.first() == here(own));
    assert(own@.collected(id) =~= here(own));
    match parent {
        None => {
            assert(parts.drop_first() =~= Seq::empty());
            assert(parts.drop_first().flatten() =~= Seq::<H::Value>::empty());
            assert(whole =~= parts.flatten());
            assert(whole =~= here(own));
        },
        Some(data) => {
            let further = outer.drop_first();
            a_collection_holds_the_values_of_every_scope(services_of(data), parent_of(data), further, id);
            let rest = registries(services_of(data), further);
            assert(all.drop_first() =~= rest);
            assert(parts.drop_first() =~= rest.map_values(here));
            assert(whole =~= parts.flatten());
            let tail = crate::context::collected_outward(services_of(data)@, parent_of(data), id);
            assert forall|i: int, k: int|
                0 <= i < outer.len() && (#[trigger] outer[i]).services.collections@.contains_key(id)
                    && 0 <= k < outer[i].services.collections@[id]@.len() implies whole.contains(
                #[trigger] outer[i].services.collections@[id]@[k],
            ) by {
                let value = outer[i].services.collections@[id]@[k];
                if i == 0 {
                    assert(here(services_of(data))[k] == value);
                    assert(tail[k] == value);
                    assert(whole[here(own).len() + k] == value);
                } else {
                    assert(further[i - 1] == outer[i]);
                    assert(tail.contains(value));
                    let p = choose|p: int| 0 <= p < tail.len() && tail[p] == value;
                    assert(whole[here(own).len() + p] == value);
                }
            }
        },
    }
}

/// The recursive collection of a scope is its own collected values, followed by the recursive
/// collection of its parent.
pub proof fn a_collection_goes_on_with_that_of_the_parent<H: Host>(
    own: ServiceRegistry<H::Value, H::Factory>,
    parent: Arc<Data<H>>,
    id: u64,
)
    ensures
        crate::context::collected_outward(own@, Some(parent), id) == (
        if own.collections@.contains_key(id) {
            own.collections@[id]@
        } else {
            Seq::empty()
        }) + crate::context::collected_outward(parent.services@, parent.parent, id),
{
    assert(own@.collected(id) =~= if own.collections@.contains_key(id) {
        own.collections@[id]@
    } else {
        Seq::empty()
    });
}

/// A service is present exactly where this scope or one around it has a value, a factory or a
/// collection for it.
pub proof fn a_service_is_present_where_some_scope_has_it<H: Host>(
    own: ServiceRegistry<H::Value, H::Factory>,
    parent: Option<Arc<Data<H>>>,
    outer: Seq<Arc<Data<H>>>,
    id: u64,
)
    requires
        around(parent, outer),
    ensures
        crate::context::present_outward(own@, parent, id) <==> exists|i: int|
            0 <= i < outer.len() + 1 && ((#[trigger] registries(own, outer)[i]).services@.contains_key(
                id,
            ) || registries(own, outer)[i].factories@.contains_key(id) || registries(
                own,
                outer,
            )[i].collections@.contains_key(id)),
    decreases outer.len(),
{
    lemma_around_steps(parent, outer);
    let all = registries(own, outer);
    assert(all[0] == own);
    assert(own@.collections.contains_key(id) == own.collections@.contains_key(id));
    match parent {
        None => {},
        Some(data) => {
            let further = outer.drop_first();
            a_service_is_present_where_some_scope_has_it(services_of(data), parent_of(data), further, id);
            let rest = registries(services_of(data), further);
            assert(all.drop_first() =~= rest);
            assert forall|i: int| 0 <= i < rest.len() implies (#[trigger] rest[i]) == all[i + 1] by {}
            assert forall|i: int| 0 < i < all.len() implies (#[trigger] all[i]) == rest[i - 1] by {}
        },
    }
}

/// A scope and those around it: listed from the inside out, counted, and those of them that have
/// handlers for an event. A plugin is known exactly where one of them has installed it.
pub proof fn the_scopes_around_are_walked_from_the_inside_out<H: Host>(
    data: Arc<Data<H>>,
    outer: Seq<Arc<Data<H>>>,
    event: u64,
    name: Seq<char>,
)
    requires
        around(data.parent, outer),
    ensures
        crate::context::enclosing(data) == (seq![data] + outer).map_values(
            |scope: Arc<Data<H>>| Context { inner: scope },
        ),
        data.depth_is() == outer.len(),
        crate::context::listening(data, event) == (seq![data] + outer).filter(
            |scope: Arc<Data<H>>|
                scope.handlers_by_type@.contains_key(event)
                    && scope.handlers_by_type@[event]@.len() > 0,
        ).map_values(|scope: Arc<Data<H>>| Context { inner: scope }),
        data.knows_plugin(name) <==> exists|i: int, k: int|
            0 <= i < outer.len() + 1 && 0 <= k < (seq![data] + outer)[i].plugin_names@.len() && (
            #[trigger] (seq![data] + outer)[i].plugin_names@[k])@ == name,
    decreases outer.len(),
{
    lemma_around_steps(parent_of(data), outer);
    let all = seq![data] + outer;
    let listens = |scope: Arc<Data<H>>|
        scope.handlers_by_type@.contains_key(event) && scope.handlers_by_type@[event]@.len() > 0;
    let handle = |scope: Arc<Data<H>>| Context { inner: scope };
    reveal(Seq::filter);
    let mine = seq![data];
    assert(mine.drop_last() =~= Seq::empty());
    assert(mine.last() == data);
    assert(mine.drop_last().filter(listens) =~= Seq::empty());
    assert(mine.filter(listens) =~= if listens(data) {
        seq![data]
    } else {
        Seq::empty()
    });
    Seq::filter_distributes_over_add(mine, outer, listens);
    match parent_of(data) {
        None => {
            assert(outer =~= Seq::empty());
            assert(crate::context::enclosing(data) =~= all.map_values(handle));
            assert(outer.filter(listens) =~= Seq::empty());
            assert(crate::context::listening(data, event) =~= all.filter(listens).map_values(handle));
            assert(all[0] == data);
            if knows(data, name) {
                let k = choose|k: int|
                    0 <= k < data.plugin_names@.len() && (#[trigger] data.plugin_names@[k])@ == name;
                assert(all[0].plugin_names@[k]@ == name);
            }
        },
        Some(next) => {
            let further = outer.drop_first();
            the_scopes_around_are_walked_from_the_inside_out(next, further, event, name);
            let rest = seq![next] + further;
            assert(rest =~= outer);
            assert(crate::context::enclosing(data) =~= all.map_values(handle));
            assert(crate::context::listening(data, event) =~= all.filter(listens).map_values(handle));
            if knows(data, name) {
                if crate::schedule::has_name(data.plugin_names@, name) {
                    let k = choose|k: int|
                        0 <= k < data.plugin_names@.len() && (#[trigger] data.plugin_names@[k])@
                            == name;
                    assert(all[0].plugin_names@[k]@ == name);
                } else {
                    let (i, k) = choose|i: int, k: int|
                        0 <= i < further.len() + 1 && 0 <= k < rest[i].plugin_names@.len() && (
                        #[trigger] rest[i].plugin_names@[k])@ == name;
                    assert(all[i + 1].plugin_names@[k]@ == name);
                }
            }
            if exists|i: int, k: int|
                0 <= i < outer.len() + 1 && 0 <= k < all[i].plugin_names@.len() && (
                #[trigger] all[i].plugin_names@[k])@ == name {
                let (i, k) = choose|i: int, k: int|
                    0 <= i < outer.len() + 1 && 0 <= k < all[i].plugin_names@.len() && (
                    #[trigger] all[i].plugin_names@[k])@ == name;
                if i == 0 {
                    assert(data.plugin_names@[k]@ == name);
                } else {
                    assert(rest[i - 1].plugin_names@[k]@ == name);
                }
            }
        },
    }
}

/// A scope is built only where each service that one of its plugins must have is there: this scope
/// or one around it, be it a root or a child, has a value or a factory for it.
pub proof fn no_scope_is_built_without_a_service_that_it_needs<H: Host>(
    builder: Builder<H>,
    outer: Seq<Arc<Data<H>>>,
    schedule: Schedule,
    plugin: int,
    dep: int,
)
    requires
        around(builder.parent, outer),
        builder.validated(Ok(schedule)),
        0 <= plugin < builder.plugins@.len(),
        0 <= dep < builder.plugins@[plugin].info.deps@.len(),
        !builder.plugins@[plugin].info.deps@[dep].optional,
    ensures
        ({
            let id = builder.plugins@[plugin].info.deps@[dep].type_id;
            exists|i: int|
                0 <= i < outer.len() + 1 && ((#[trigger] registries(
                    builder.services,
                    outer,
                )[i]).services@.contains_key(id) || registries(
                    builder.services,
                    outer,
                )[i].factories@.contains_key(id))
        }),
{
    let id = builder.plugins@[plugin].info.deps@[dep].type_id;
    assert(builder.service_met(plugin, dep));
    let at = lemma_nearest(builder.services, builder.parent, outer, id);
    assert(registries(builder.services, outer)[at].services@.contains_key(id) || registries(
        builder.services,
        outer,
    )[at].factories@.contains_key(id));
}

/// Where a service that a plugin must have is nowhere, the scope is not built, and the error names
/// the first such service: in the order of the plugins, and of what each needs.
pub proof fn the_first_missing_service_is_named<H: Host>(
    builder: Builder<H>,
    outer: Seq<Arc<Data<H>>>,
    result: Result<Schedule, Error<H::Cause>>,
    plugin: int,
    dep: int,
)
    requires
        around(builder.parent, outer),
        builder.validated(result),
        0 <= plugin < builder.plugins@.len(),
        0 <= dep < builder.plugins@[plugin].info.deps@.len(),
        !builder.plugins@[plugin].info.deps@[dep].optional,
        forall|i: int|
            0 <= i < outer.len() + 1 ==> {
                let id = builder.plugins@[plugin].info.deps@[dep].type_id;
                &&& !(#[trigger] registries(builder.services, outer)[i]).services@.contains_key(id)
                &&& !registries(builder.services, outer)[i].factories@.contains_key(id)
            },
        forall|a: int, b: int|
            0 <= a < builder.plugins@.len() && 0 <= b < builder.plugins@[a].info.deps@.len() && (a
                < plugin || (a == plugin && b < dep))
                && !(#[trigger] builder.plugins@[a].info.deps@[b]).optional ==> exists|i: int|
                0 <= i < outer.len() + 1 && ((#[trigger] registries(
                    builder.services,
                    outer,
                )[i]).services@.contains_key(builder.plugins@[a].info.deps@[b].type_id)
                    || registries(builder.services, outer)[i].factories@.contains_key(
                    builder.plugins@[a].info.deps@[b].type_id,
                )),
    ensures
        result matches Err(error) && error.phase == Phase::Verify && error.plugin is None
            && error.source is None && (error.kind matches ErrorKind::ServiceNotFound(name) && name@
            == builder.plugins@[plugin].info.deps@[dep].name@),
{
    let id = builder.plugins@[plugin].info.deps@[dep].type_id;
    let at = lemma_nearest(builder.services, builder.parent, outer, id);
    assert(!builder.service_met(plugin, dep));
    assert(!builder.services_met());
    let (i, k) = choose|i: int, k: int| #[trigger]
        builder.first_unmet_service(i, k) && result->Err_0.says_not_found(
            Phase::Verify,
            builder.plugins@[i].info.deps@[k].name@,
        );
    if i < plugin || (i == plugin && k < dep) {
        let other = builder.plugins@[i].info.deps@[k];
        assert(!builder.service_met(i, k));
        assert(!other.optional);
        let there = lemma_nearest(builder.services, builder.parent, outer, other.type_id);
        assert(false);
    }
    if plugin < i || (plugin == i && dep < k) {
        assert(builder.service_met(plugin, dep));
        assert(false);
    }
}

/// A scope that is built has been scheduled by what its plugins answered when they were asked for
/// their priorities, one answer each, and with the names of the plugins of the scopes around it, and
/// no others, as those that need not be found in the scope itself.
pub proof fn a_scope_is_scheduled_by_what_its_plugins_answered<H: Host>(
    builder: Builder<H>,
    inherited: Seq<&'static str>,
    priorities: Seq<i32>,
    schedule: Schedule,
    i: int,
    name: Seq<char>,
)
    requires
        builder.scheduled(inherited, priorities, Ok(schedule)),
    ensures
        priorities.len() == builder.plugins@.len(),
        0 <= i < builder.plugins@.len() ==> call_ensures(
            H::priority,
            (&builder.plugins@[i].plugin,),
            priorities[i],
        ),
        (exists|k: int| 0 <= k < inherited.len() && (#[trigger] inherited[k])@ == name) <==> (
        builder.parent matches Some(outer) && outer.knows_plugin(name)),
        crate::schedule::schedule_result::<H::Plugin, H::Cause>(
            builder.plugins@,
            inherited,
            priorities,
            Ok(schedule),
        ),
{
    assert(crate::schedule::has_name(inherited, name) == (builder.parent matches Some(outer)
        && knows(outer, name)));
}

/// Where every service that a plugin must have is in this scope or in one around it, what comes out
/// of the validation is what comes out of scheduling the plugins.
pub proof fn a_scope_without_missing_services_is_scheduled<H: Host>(
    builder: Builder<H>,
    outer: Seq<Arc<Data<H>>>,
    result: Result<Schedule, Error<H::Cause>>,
)
    requires
        around(builder.parent, outer),
        builder.validated(result),
        forall|a: int, b: int|
            0 <= a < builder.plugins@.len() && 0 <= b < builder.plugins@[a].info.deps@.len()
                && !(#[trigger] builder.plugins@[a].info.deps@[b]).optional ==> exists|i: int|
                0 <= i < outer.len() + 1 && ((#[trigger] registries(
                    builder.services,
                    outer,
                )[i]).services@.contains_key(builder.plugins@[a].info.deps@[b].type_id)
                    || registries(builder.services, outer)[i].factories@.contains_key(
                    builder.plugins@[a].info.deps@[b].type_id,
                )),
    ensures
        exists|inherited: Seq<&'static str>, priorities: Seq<i32>| #[trigger]
            builder.scheduled(inherited, priorities, result),
{
    assert forall|a: int, b: int|
        0 <= a < builder.plugins@.len() && 0 <= b
            < builder.plugins@[a].info.deps@.len() implies #[trigger] builder.service_met(a, b) by {
        let needed = builder.plugins@[a].info.deps@[b];
        if !needed.optional {
            let at = lemma_nearest(builder.services, builder.parent, outer, needed.type_id);
        }
    }
}

} // verus!
