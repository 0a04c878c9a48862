//! In which order plugins start.

use vstd::prelude::*;

use crate::error::{Error, ErrorKind, Phase};
use crate::schedule::{Graph, PluginRecord, Schedule};

verus! {

/// Whether the `j`-th plugin is the one that is called `name`: the first one, where there are
/// several.
pub open spec fn is_called<P>(plugins: Seq<PluginRecord<P>>, j: int, name: Seq<char>) -> bool {
    &&& 0 <= j < plugins.len()
    &&& plugins[j].info.name@ == name
    &&& forall|h: int| 0 <= h < j ==> (#[trigger] plugins[h]).info.name@ != name
}

/// Whether the `i`-th plugin has a dependency, optional or not, on the `j`-th.
pub open spec fn wants<P>(plugins: Seq<PluginRecord<P>>, i: int, j: int) -> bool {
    exists|d: int|
        0 <= d < plugins[i].info.plugin_deps@.len() && is_called(
            plugins,
            j,
            (#[trigger] plugins[i].info.plugin_deps@[d]).plugin_name@,
        )
}

/// Whether the `d`-th dependency of the `i`-th plugin must be there and is not: no plugin of this
/// scope bears the name, and none of the enclosing scopes, whose plugins `inherited` names.
pub open spec fn lacks<P>(
    plugins: Seq<PluginRecord<P>>,
    inherited: Seq<&'static str>,
    i: int,
    d: int,
) -> bool {
    &&& 0 <= i < plugins.len()
    &&& 0 <= d < plugins[i].info.plugin_deps@.len()
    &&& !plugins[i].info.plugin_deps@[d].optional
    &&& forall|j: int|
        0 <= j < plugins.len() ==> (#[trigger] plugins[j]).info.name@
            != plugins[i].info.plugin_deps@[d].plugin_name@
    &&& forall|j: int|
        0 <= j < inherited.len() ==> (#[trigger] inherited[j])@
            != plugins[i].info.plugin_deps@[d].plugin_name@
}

/// A name leads to the first plugin that bears it, and nowhere exactly where none does.
pub proof fn a_name_leads_to_the_first_that_bears_it<P>(
    plugins: Seq<PluginRecord<P>>,
    name: Seq<char>,
)
    ensures
        match crate::schedule::plugin_position(plugins, name) {
            Some(j) => {
                &&& 0 <= j < plugins.len()
                &&& plugins[j].info.name@ == name
                &&& forall|h: int| 0 <= h < j ==> (#[trigger] plugins[h]).info.name@ != name
            },
            None => forall|h: int|
                0 <= h < plugins.len() ==> (#[trigger] plugins[h]).info.name@ != name,
        },
    decreases plugins.len(),
{
    if plugins.len() > 0 {
        let front = plugins.drop_last();
        a_name_leads_to_the_first_that_bears_it(front, name);
        assert forall|h: int| 0 <= h < front.len() implies (#[trigger] plugins[h]) == front[h] by {}
        match crate::schedule::plugin_position(front, name) {
            Some(j) => {
                assert(plugins[j] == front[j]);
            },
            None => {},
        }
    }
}

proof fn lemma_local_needs<P>(
    plugins: Seq<PluginRecord<P>>,
    deps: Seq<crate::plugin::PluginDependency>,
    k: nat,
    j: int,
)
    requires
        k <= deps.len(),
    ensures
        crate::schedule::local_needs(plugins, deps, k).contains(j) <==> exists|d: int|
            0 <= d < k && is_called(plugins, j, (#[trigger] deps[d]).plugin_name@),
    decreases k,
{
    let needs = crate::schedule::local_needs(plugins, deps, k);
    if k > 0 {
        let before = crate::schedule::local_needs(plugins, deps, (k - 1) as nat);
        lemma_local_needs(plugins, deps, (k - 1) as nat, j);
        let name = deps[k - 1].plugin_name@;
        a_name_leads_to_the_first_that_bears_it(plugins, name);
        let found = crate::schedule::plugin_position(plugins, name);
        assert(is_called(plugins, j, name) <==> found == Some(j)) by {
            if found is Some && is_called(plugins, j, name) {
                let f = found->0;
                if f < j {
                    assert(plugins[f].info.name@ != name);
                }
                if j < f {
                    assert(plugins[j].info.name@ != name);
                }
            }
        }
        if needs.contains(j) {
            let i = choose|i: int| 0 <= i < needs.len() && needs[i] == j;
            if i < before.len() {
                assert(before[i] == j);
                assert(before.contains(j));
            } else {
                assert(is_called(plugins, j, deps[k - 1].plugin_name@));
            }
        }
        if exists|d: int| 0 <= d < k && is_called(plugins, j, (#[trigger] deps[d]).plugin_name@) {
            let d = choose|d: int|
                0 <= d < k && is_called(plugins, j, (#[trigger] deps[d]).plugin_name@);
            if d == k - 1 {
                assert(needs[needs.len() - 1] == j);
            } else {
                assert(before.contains(j));
                let i = choose|i: int| 0 <= i < before.len() && before[i] == j;
                assert(needs[i] == j);
            }
        }
    }
}

/// One plugin has to wait for another exactly where it has a dependency on it, be it optional or
/// not, and the other is in the same scope.
pub proof fn every_dependency_found_here_is_waited_for<P>(
    plugins: Seq<PluginRecord<P>>,
    needs: Seq<Vec<usize>>,
    i: int,
    j: int,
)
    requires
        crate::schedule::needs_of(plugins, needs),
        0 <= i < plugins.len(),
    ensures
        (exists|k: int| 0 <= k < needs[i]@.len() && #[trigger] needs[i]@[k] == j) <==> exists|d: int|
            0 <= d < plugins[i].info.plugin_deps@.len() && is_called(
                plugins,
                j,
                (#[trigger] plugins[i].info.plugin_deps@[d]).plugin_name@,
            ),
{
    let deps = plugins[i].info.plugin_deps@;
    let mine = crate::schedule::local_needs(plugins, deps, deps.len());
    lemma_local_needs(plugins, deps, deps.len(), j);
    assert(needs[i]@.map_values(|x: usize| x as int) == mine);
    assert(mine.len() == needs[i]@.len());
    assert forall|k: int| 0 <= k < mine.len() implies (#[trigger] needs[i]@[k]) as int == mine[k] by {
        assert(needs[i]@.map_values(|x: usize| x as int)[k] == needs[i]@[k] as int);
    }
    if exists|k: int| 0 <= k < needs[i]@.len() && #[trigger] needs[i]@[k] == j {
        let k = choose|k: int| 0 <= k < needs[i]@.len() && #[trigger] needs[i]@[k] == j;
        assert(mine[k] == j);
        assert(mine.contains(j));
    }
    if mine.contains(j) {
        let k = choose|k: int| 0 <= k < mine.len() && mine[k] == j;
        assert(needs[i]@[k] == j);
    }
}

/// What is known of the graph behind a schedule.
proof fn lemma_graph<P, C>(
    plugins: Seq<PluginRecord<P>>,
    inherited: Seq<&'static str>,
    priorities: Seq<i32>,
    schedule: Schedule,
) -> (graph: Graph)
    requires
        crate::schedule::schedule_result(
            plugins,
            inherited,
            priorities,
            Ok::<Schedule, Error<C>>(schedule),
        ),
    ensures
        graph.wf(),
        graph.scheduled(schedule),
        graph.size() == plugins.len(),
        graph.priority@ == priorities,
        crate::schedule::needs_of(plugins, graph.needs@),
        forall|i: int, j: int|
            0 <= i < plugins.len() ==> (#[trigger] graph.depends(i, j) <==> wants(plugins, i, j)),
{
    let graph = choose|graph: Graph|
        #[trigger] crate::schedule::graph_of(plugins, priorities, graph) && graph.wf()
            && !graph.cyclic() && graph.scheduled(schedule);
    assert forall|i: int, j: int| 0 <= i < plugins.len() implies (#[trigger] graph.depends(i, j)
        <==> wants(plugins, i, j)) by {
        every_dependency_found_here_is_waited_for(plugins, graph.needs@, i, j);
    }
    graph
}

/// A schedule holds each plugin exactly once in its order, and in exactly one of its layers.
pub proof fn a_schedule_holds_each_plugin_once<P, C>(
    plugins: Seq<PluginRecord<P>>,
    inherited: Seq<&'static str>,
    priorities: Seq<i32>,
    schedule: Schedule,
    i: int,
)
    requires
        crate::schedule::schedule_result(
            plugins,
            inherited,
            priorities,
            Ok::<Schedule, Error<C>>(schedule),
        ),
        0 <= i < plugins.len(),
    ensures
        schedule.order@.len() == plugins.len(),
        schedule.order@.no_duplicates(),
        schedule.order@.contains(i as usize),
        exists|d: int|
            0 <= d < schedule.layers@.len() && (#[trigger] schedule.layers@[d])@.contains(
                i as usize,
            ) && forall|e: int|
                0 <= e < schedule.layers@.len() && (#[trigger] schedule.layers@[e])@.contains(
                    i as usize,
                ) ==> e == d,
{
    let graph = lemma_graph::<P, C>(plugins, inherited, priorities, schedule);
    crate::schedule::order_holds_each_plugin_once(graph, schedule.order@);
    crate::schedule::layers_hold_each_plugin_once(graph, schedule, i);
    assert(schedule.order@.contains(i as usize));
    let d = choose|d: int|
        0 <= d < schedule.layers@.len() && #[trigger] schedule.layers@[d]@.contains(i as usize);
    assert(schedule.layers@[d]@.contains(i as usize));
}

/// Whatever a plugin depends on in its own scope, be it optional or not, starts before it: it stands
/// earlier in the order, and in an earlier layer.
pub proof fn a_dependency_starts_before_what_wants_it<P, C>(
    plugins: Seq<PluginRecord<P>>,
    inherited: Seq<&'static str>,
    priorities: Seq<i32>,
    schedule: Schedule,
    i: int,
    d: int,
    j: int,
)
    requires
        crate::schedule::schedule_result(
            plugins,
            inherited,
            priorities,
            Ok::<Schedule, Error<C>>(schedule),
        ),
        0 <= i < plugins.len(),
        0 <= d < plugins[i].info.plugin_deps@.len(),
        is_called(plugins, j, plugins[i].info.plugin_deps@[d].plugin_name@),
    ensures
        exists|a: int, b: int|
            0 <= a < b < schedule.order@.len() && #[trigger] schedule.order@[a] == j
                && #[trigger] schedule.order@[b] == i,
        exists|e: int, f: int|
            0 <= e < f < schedule.layers@.len() && (#[trigger] schedule.layers@[e])@.contains(
                j as usize,
            ) && (#[trigger] schedule.layers@[f])@.contains(i as usize),
{
    let graph = lemma_graph::<P, C>(plugins, inherited, priorities, schedule);
    let order = schedule.order@;
    assert(is_called(plugins, j, (plugins[i].info.plugin_deps@[d]).plugin_name@));
    assert(wants(plugins, i, j));
    assert(graph.depends(i, j));
    crate::schedule::order_holds_each_plugin_once(graph, order);
    assert(graph.needs.len() == graph.size());
    assert(order.contains(i as usize));
    let b = choose|b: int| 0 <= b < order.len() && order[b] == i as usize;
    crate::schedule::order_respects_dependencies(graph, order, b, j);
    let a = choose|a: int| 0 <= a < b && #[trigger] order[a] == j;
    assert(order[a] == j && order[b] == i);
    crate::schedule::layers_hold_each_plugin_once(graph, schedule, i);
    let f = choose|f: int|
        0 <= f < schedule.layers@.len() && #[trigger] schedule.layers@[f]@.contains(i as usize);
    let at = choose|at: int|
        0 <= at < schedule.layers@[f]@.len() && schedule.layers@[f]@[at] == i as usize;
    crate::schedule::layers_respect_dependencies(graph, schedule, f, at, j);
    let e = choose|e: int| 0 <= e < f && #[trigger] schedule.layers@[e]@.contains(j as usize);
    assert(schedule.layers@[e]@.contains(j as usize) && schedule.layers@[f]@.contains(i as usize));
}

/// Of two plugins that could both start, the one with the higher priority does first, and of equal
/// ones the one that was registered first: a later plugin, all of whose dependencies here stand
/// before an earlier one, has a lower priority than that one, or the same and was registered later.
pub proof fn the_higher_priority_starts_first<P, C>(
    plugins: Seq<PluginRecord<P>>,
    inherited: Seq<&'static str>,
    priorities: Seq<i32>,
    schedule: Schedule,
    a: int,
    b: int,
)
    requires
        crate::schedule::schedule_result(
            plugins,
            inherited,
            priorities,
            Ok::<Schedule, Error<C>>(schedule),
        ),
        0 <= a < b < schedule.order@.len(),
        forall|j: int| #[trigger]
            wants(plugins, schedule.order@[b] as int, j) ==> exists|c: int|
                0 <= c < a && #[trigger] schedule.order@[c] == j,
    ensures
        priorities[schedule.order@[a] as int] > priorities[schedule.order@[b] as int] || (
        priorities[schedule.order@[a] as int] == priorities[schedule.order@[b] as int]
            && schedule.order@[a] < schedule.order@[b]),
{
    let graph = lemma_graph::<P, C>(plugins, inherited, priorities, schedule);
    let order = schedule.order@;
    crate::schedule::order_holds_each_plugin_once(graph, order);
    let x = order[a] as int;
    let y = order[b] as int;
    let started = order.take(a);
    assert(graph.next(started, x));
    assert(graph.ready(started, y)) by {
        if started.contains(y as usize) {
            let c = choose|c: int| 0 <= c < started.len() && started[c] == y as usize;
            assert(order[c] == order[b]);
        }
        assert forall|k: int| 0 <= k < graph.needs@[y]@.len() implies started.contains(
            #[trigger] graph.needs@[y]@[k],
        ) by {
            let j = graph.needs@[y]@[k] as int;
            assert(graph.depends(y, j));
            assert(wants(plugins, y, j));
            let c = choose|c: int| 0 <= c < a && #[trigger] order[c] == j;
            assert(started[c] == graph.needs@[y]@[k]);
        }
    }
    assert(graph.ahead(x, y));
    assert(order[a] != order[b]);
}

/// A plugin does not wait longer than it must: it stands in the first layer, or in the one right
/// after that of something that it depends on. Within a layer the plugins stand as in the order.
pub proof fn a_layer_is_as_early_as_can_be<P, C>(
    plugins: Seq<PluginRecord<P>>,
    inherited: Seq<&'static str>,
    priorities: Seq<i32>,
    schedule: Schedule,
    f: int,
    at: int,
)
    requires
        crate::schedule::schedule_result(
            plugins,
            inherited,
            priorities,
            Ok::<Schedule, Error<C>>(schedule),
        ),
        0 <= f < schedule.layers@.len(),
        0 <= at < schedule.layers@[f]@.len(),
    ensures
        f > 0 ==> exists|j: int|
            schedule.layers@[f - 1]@.contains(j as usize) && #[trigger] wants(
                plugins,
                schedule.layers@[f]@[at] as int,
                j,
            ),
        schedule.layers@[f]@ == schedule.order@.filter(
            |x: usize| schedule.layers@[f]@.contains(x),
        ),
{
    let graph = lemma_graph::<P, C>(plugins, inherited, priorities, schedule);
    let order = schedule.order@;
    let depth = choose|depth: Seq<nat>|
        graph.depths(depth) && #[trigger] Graph::grouped(order, depth, schedule.layers@);
    assert(schedule.layers@[f]@ == Graph::layer(order, depth, f as nat));
    lemma_layer_is_its_own_filter(order, depth, f as nat, schedule.layers@[f]@);
    if f > 0 {
        assert(schedule.layers@[f - 1]@ == Graph::layer(order, depth, (f - 1) as nat));
        let j = lemma_layer_before(graph, order, depth, f as nat, schedule.layers@[f]@[at]);
        assert(wants(plugins, schedule.layers@[f]@[at] as int, j));
    }
}

/// What stands in a layer depends on something in the layer before it.
proof fn lemma_layer_before(
    graph: Graph,
    order: Seq<usize>,
    depth: Seq<nat>,
    d: nat,
    x: usize,
) -> (j: int)
    requires
        graph.wf(),
        graph.greedy(order),
        order.len() == graph.size(),
        graph.depths(depth),
        d > 0,
        Graph::layer(order, depth, d).contains(x),
    ensures
        0 <= x < graph.size(),
        graph.depends(x as int, j),
        Graph::layer(order, depth, (d - 1) as nat).contains(j as usize),
{
    crate::schedule::order_holds_each_plugin_once(graph, order);
    assert(graph.needs.len() == graph.size());
    lemma_in_layer(order, depth, d, x);
    let i = x as int;
    assert(depth[i] > 0);
    let k = choose|k: int|
        0 <= k < graph.needs@[i]@.len() && depth[#[trigger] graph.needs@[i]@[k] as int] + 1
            == depth[i];
    let j = graph.needs@[i]@[k] as int;
    assert(graph.depends(i, j));
    assert(order.contains(j as usize));
    lemma_in_layer(order, depth, (d - 1) as nat, j as usize);
    j
}

/// A layer holds what stands in the order and has its depth.
proof fn lemma_in_layer(order: Seq<usize>, depth: Seq<nat>, d: nat, x: usize)
    ensures
        Graph::layer(order, depth, d).contains(x) <==> order.contains(x) && depth[x as int] == d,
{
    let deep = |y: usize| depth[y as int] == d;
    lemma_layer_filters(order, depth, d);
    crate::laws::numbers::lemma_filter_members(order, deep);
    let left = order.filter(deep);
    if left.contains(x) {
        let i = choose|i: int| 0 <= i < left.len() && left[i] == x;
        assert(order.contains(left[i]) && deep(left[i]));
    }
    if order.contains(x) && deep(x) {
        let i = choose|i: int| 0 <= i < order.len() && order[i] == x;
        assert(left.contains(order[i]));
    }
}

/// A layer is what the order leaves when all that is not in the layer is taken out.
proof fn lemma_layer_is_its_own_filter(
    order: Seq<usize>,
    depth: Seq<nat>,
    d: nat,
    layer: Seq<usize>,
)
    requires
        layer == Graph::layer(order, depth, d),
    ensures
        layer == order.filter(|x: usize| layer.contains(x)),
{
    let deep = |x: usize| depth[x as int] == d;
    let inside = |x: usize| layer.contains(x);
    lemma_layer_filters(order, depth, d);
    assert forall|i: int| 0 <= i < order.len() implies (layer.contains(#[trigger] order[i]) == deep(
        order[i],
    )) by {
        lemma_in_layer(order, depth, d, order[i]);
    }
    lemma_filter_agrees(order, deep, inside, layer);
}

proof fn lemma_layer_filters(order: Seq<usize>, depth: Seq<nat>, d: nat)
    ensures
        Graph::layer(order, depth, d) == order.filter(|x: usize| depth[x as int] == d),
    decreases order.len(),
{
    let deep = |x: usize| depth[x as int] == d;
    crate::laws::numbers::lemma_filter_step(order, deep);
    if order.len() > 0 {
        lemma_layer_filters(order.drop_last(), depth, d);
    }
}

/// Being among what a filter leaves is as good a filter.
proof fn lemma_filter_agrees(
    order: Seq<usize>,
    p: spec_fn(usize) -> bool,
    inside: spec_fn(usize) -> bool,
    left: Seq<usize>,
)
    requires
        forall|x: usize| #[trigger] inside(x) == left.contains(x),
        forall|i: int| 0 <= i < order.len() ==> (left.contains(#[trigger] order[i]) == p(order[i])),
    ensures
        order.filter(p) == order.filter(inside),
    decreases order.len(),
{
    crate::laws::numbers::lemma_filter_step(order, p);
    crate::laws::numbers::lemma_filter_step(order, inside);
    if order.len() > 0 {
        let front = order.drop_last();
        assert forall|i: int| 0 <= i < front.len() implies (left.contains(#[trigger] front[i]) == p(
            front[i],
        )) by {
            assert(front[i] == order[i]);
        }
        lemma_filter_agrees(front, p, inside, left);
        assert(order[order.len() - 1] == order.last());
    }
}

/// Where a plugin that must be there is nowhere, there is no schedule, and the error names the first
/// such plugin: in the order of the plugins, and of what each depends on.
pub proof fn the_first_missing_plugin_is_named<P, C>(
    plugins: Seq<PluginRecord<P>>,
    inherited: Seq<&'static str>,
    priorities: Seq<i32>,
    result: Result<Schedule, Error<C>>,
    i: int,
    d: int,
)
    requires
        crate::schedule::schedule_result(plugins, inherited, priorities, result),
        lacks(plugins, inherited, i, d),
        forall|a: int, b: int|
            a < i || (a == i && b < d) ==> !(#[trigger] lacks(plugins, inherited, a, b)),
    ensures
        result matches Err(error) && error.phase == Phase::Verify && error.plugin is None
            && error.source is None && (error.kind matches ErrorKind::PluginDependencyNotFound(name)
            && name@ == plugins[i].info.plugin_deps@[d].plugin_name@),
{
    lemma_met(plugins, inherited, i, d);
    assert(!crate::schedule::dependency_met(plugins, inherited, i, d));
    assert(!crate::schedule::all_met(plugins, inherited));
    let (a, b) = choose|a: int, b: int|
        #[trigger] crate::schedule::first_unmet(plugins, inherited, a, b)
            && result->Err_0.kind->PluginDependencyNotFound_0@
            == plugins[a].info.plugin_deps@[b].plugin_name@;
    lemma_met(plugins, inherited, a, b);
    assert(lacks(plugins, inherited, a, b));
    if i < a || (i == a && d < b) {
        assert(crate::schedule::dependency_met(plugins, inherited, i, d));
    }
}

proof fn lemma_met<P>(
    plugins: Seq<PluginRecord<P>>,
    inherited: Seq<&'static str>,
    i: int,
    d: int,
)
    requires
        0 <= i < plugins.len(),
        0 <= d < plugins[i].info.plugin_deps@.len(),
    ensures
        crate::schedule::dependency_met(plugins, inherited, i, d) <==> !lacks(
            plugins,
            inherited,
            i,
            d,
        ),
{
    let name = plugins[i].info.plugin_deps@[d].plugin_name@;
    a_name_leads_to_the_first_that_bears_it(plugins, name);
}

/// Whether a set of plugins holds itself up: it is not empty, and each in it has a dependency on one
/// in it.
pub open spec fn holds_itself_up<P>(plugins: Seq<PluginRecord<P>>, set: Set<int>) -> bool {
    &&& exists|i: int| set.contains(i)
    &&& forall|i: int| set.contains(i) ==> 0 <= i < plugins.len() && #[trigger] wants_one_of(
        plugins,
        i,
        set,
    )
}

/// Whether the `i`-th plugin has a dependency on one in `set`.
pub open spec fn wants_one_of<P>(plugins: Seq<PluginRecord<P>>, i: int, set: Set<int>) -> bool {
    exists|j: int| set.contains(j) && #[trigger] wants(plugins, i, j)
}

/// Where every plugin that must be there is, there is a schedule exactly where no plugins hold one
/// another up in a circle; else the error says that they do.
pub proof fn only_a_circle_keeps_plugins_from_starting<P, C>(
    plugins: Seq<PluginRecord<P>>,
    inherited: Seq<&'static str>,
    priorities: Seq<i32>,
    result: Result<Schedule, Error<C>>,
)
    requires
        crate::schedule::schedule_result(plugins, inherited, priorities, result),
        forall|a: int, b: int| !(#[trigger] lacks(plugins, inherited, a, b)),
    ensures
        result is Err <==> exists|set: Set<int>| #[trigger] holds_itself_up(plugins, set),
        result matches Err(error) ==> error.phase == Phase::Verify && error.plugin is None
            && error.source is None && error.kind is PluginDependencyCycle,
{
    match result {
        Ok(schedule) => {
            let graph = choose|graph: Graph|
                #[trigger] crate::schedule::graph_of(plugins, priorities, graph) && graph.wf()
                    && !graph.cyclic() && graph.scheduled(schedule);
            lemma_circles(plugins, priorities, graph);
        },
        Err(error) => {
            if error.kind is PluginDependencyNotFound {
                let (a, b) = choose|a: int, b: int|
                    #[trigger] crate::schedule::first_unmet(plugins, inherited, a, b)
                        && error.kind->PluginDependencyNotFound_0@
                        == plugins[a].info.plugin_deps@[b].plugin_name@;
                lemma_met(plugins, inherited, a, b);
                assert(lacks(plugins, inherited, a, b));
            } else {
                let graph = choose|graph: Graph|
                    #[trigger] crate::schedule::graph_of(plugins, priorities, graph) && graph.wf()
                        && graph.cyclic();
                lemma_circles(plugins, priorities, graph);
            }
        },
    }
}

proof fn lemma_circles<P>(plugins: Seq<PluginRecord<P>>, priorities: Seq<i32>, graph: Graph)
    requires
        crate::schedule::graph_of(plugins, priorities, graph),
    ensures
        graph.cyclic() <==> exists|set: Set<int>| #[trigger] holds_itself_up(plugins, set),
{
    if graph.cyclic() {
        let set = choose|set: Set<int>| #[trigger] graph.stuck(set);
        lemma_stuck_holds_itself_up(plugins, graph, set);
    }
    if exists|set: Set<int>| #[trigger] holds_itself_up(plugins, set) {
        let set = choose|set: Set<int>| #[trigger] holds_itself_up(plugins, set);
        lemma_holding_itself_up_is_stuck(plugins, graph, set);
    }
}

proof fn lemma_stuck_holds_itself_up<P>(
    plugins: Seq<PluginRecord<P>>,
    graph: Graph,
    set: Set<int>,
)
    requires
        crate::schedule::needs_of(plugins, graph.needs@),
        graph.stuck(set),
    ensures
        holds_itself_up(plugins, set),
{
    assert forall|i: int| set.contains(i) implies 0 <= i < plugins.len()
        && #[trigger] wants_one_of(plugins, i, set) by {
        lemma_one_is_wanted(plugins, graph, set, i);
    }
}

proof fn lemma_one_is_wanted<P>(
    plugins: Seq<PluginRecord<P>>,
    graph: Graph,
    set: Set<int>,
    i: int,
)
    requires
        crate::schedule::needs_of(plugins, graph.needs@),
        0 <= i < plugins.len(),
        exists|k: int|
            0 <= k < graph.needs@[i]@.len() && set.contains(#[trigger] graph.needs@[i]@[k] as int),
    ensures
        wants_one_of(plugins, i, set),
{
    let k = choose|k: int|
        0 <= k < graph.needs@[i]@.len() && set.contains(#[trigger] graph.needs@[i]@[k] as int);
    lemma_edge_is_wanted(plugins, graph, i, k);
}

proof fn lemma_one_is_needed<P>(
    plugins: Seq<PluginRecord<P>>,
    graph: Graph,
    set: Set<int>,
    i: int,
)
    requires
        crate::schedule::needs_of(plugins, graph.needs@),
        0 <= i < plugins.len(),
        wants_one_of(plugins, i, set),
    ensures
        exists|k: int|
            0 <= k < graph.needs@[i]@.len() && set.contains(#[trigger] graph.needs@[i]@[k] as int),
{
    let j = choose|j: int| set.contains(j) && #[trigger] wants(plugins, i, j);
    let k = lemma_wanted_is_an_edge(plugins, graph, i, j);
    assert(set.contains(graph.needs@[i]@[k] as int));
}

proof fn lemma_edge_is_wanted<P>(plugins: Seq<PluginRecord<P>>, graph: Graph, i: int, k: int)
    requires
        crate::schedule::needs_of(plugins, graph.needs@),
        0 <= i < plugins.len(),
        0 <= k < graph.needs@[i]@.len(),
    ensures
        wants(plugins, i, graph.needs@[i]@[k] as int),
{
    let j = graph.needs@[i]@[k] as int;
    every_dependency_found_here_is_waited_for(plugins, graph.needs@, i, j);
    assert(graph.needs@[i]@[k] == j);
}

proof fn lemma_wanted_is_an_edge<P>(
    plugins: Seq<PluginRecord<P>>,
    graph: Graph,
    i: int,
    j: int,
) -> (k: int)
    requires
        crate::schedule::needs_of(plugins, graph.needs@),
        0 <= i < plugins.len(),
        wants(plugins, i, j),
    ensures
        0 <= k < graph.needs@[i]@.len(),
        graph.needs@[i]@[k] == j,
{
    every_dependency_found_here_is_waited_for(plugins, graph.needs@, i, j);
    choose|k: int| 0 <= k < graph.needs@[i]@.len() && #[trigger] graph.needs@[i]@[k] == j
}

proof fn lemma_holding_itself_up_is_stuck<P>(
    plugins: Seq<PluginRecord<P>>,
    graph: Graph,
    set: Set<int>,
)
    requires
        crate::schedule::needs_of(plugins, graph.needs@),
        holds_itself_up(plugins, set),
    ensures
        graph.stuck(set),
{
    assert forall|i: int| #[trigger] set.contains(i) implies 0 <= i < graph.size() && exists|k: int|
        0 <= k < graph.needs@[i]@.len() && set.contains(#[trigger] graph.needs@[i]@[k] as int) by {
        assert(wants_one_of(plugins, i, set));
        lemma_one_is_needed(plugins, graph, set, i);
    }
}

/// The priorities that a schedule goes by are what the plugins answered, one answer for each.
pub proof fn priorities_are_what_was_answered<P, F: Fn(&P) -> i32>(
    plugins: Seq<PluginRecord<P>>,
    priority: F,
    priorities: Seq<i32>,
    i: int,
)
    requires
        crate::schedule::answered(plugins, priority, priorities),
    ensures
        priorities.len() == plugins.len(),
        0 <= i < plugins.len() ==> call_ensures(priority, (&plugins[i].plugin,), priorities[i]),
{
}

/// In a schedule that is used up there is nothing left to start.
pub proof fn a_used_up_schedule_starts_nothing(schedule: Schedule)
    ensures
        schedule.is_empty() <==> schedule.order@.len() == 0 && schedule.layers@.len() == 0,
{
}

} // verus!
