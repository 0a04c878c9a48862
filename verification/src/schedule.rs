//! The start schedule of a scope's plugins, computed from their dependencies and priorities.

use vstd::prelude::*;

use crate::error::{Error, ErrorKind, Phase};
use crate::plugin::{Dependency, PluginDependency};
use crate::text::same_text;

verus! {

/// What is known of a plugin from the moment it is registered. Its priority is not: a plugin is
/// asked for that while the schedule is computed, once nothing that it needs is left to start.
pub struct PluginInfo {
    /// The name it was registered under.
    pub name: &'static str,
    /// The services it needs.
    pub deps: Vec<Dependency>,
    /// The plugins it needs.
    pub plugin_deps: Vec<PluginDependency>,
}

/// A plugin together with what is known of it.
pub struct PluginRecord<P> {
    pub plugin: P,
    pub info: PluginInfo,
}

/// The dependencies between the plugins of one scope, by index.
pub struct Graph {
    /// For each plugin, the plugins of the same scope that must start before it.
    pub needs: Vec<Vec<usize>>,
    /// For each plugin, its priority: among plugins that could start next, the one with the highest
    /// priority does.
    pub priority: Vec<i32>,
}

/// When the plugins of a scope start.
pub struct Schedule {
    /// The order in which they start one by one; they stop in the reverse order.
    pub order: Vec<usize>,
    /// The groups in which they start together, one group after the other.
    pub layers: Vec<Vec<usize>>,
}

impl Schedule {
    /// Whether nothing is scheduled.
    pub open spec fn is_empty(self) -> bool {
        self.order@.len() == 0 && self.layers@.len() == 0
    }
}

/// The index of the first plugin that is called `name`.
pub open spec fn plugin_position<P>(plugins: Seq<PluginRecord<P>>, name: Seq<char>) -> Option<int>
    decreases plugins.len(),
{
    if plugins.len() == 0 {
        None
    } else {
        match plugin_position(plugins.drop_last(), name) {
            Some(i) => Some(i),
            None => if plugins.last().info.name@ == name {
                Some(plugins.len() - 1)
            } else {
                None
            },
        }
    }
}

/// Finds the plugin that is called `name`.
pub fn find_plugin<P>(plugins: &Vec<PluginRecord<P>>, name: &str) -> (index: Option<usize>)
    ensures
        match index {
            Some(i) => plugin_position(plugins@, name@) == Some(i as int) && i < plugins@.len()
                && plugins@[i as int].info.name@ == name@,
            None => plugin_position(plugins@, name@) is None,
        },
{
    let mut i: usize = 0;
    while i < plugins.len()
        invariant
            i <= plugins@.len(),
            plugin_position(plugins@.take(i as int), name@) is None,
        decreases plugins@.len() - i,
    {
        assert(plugins@.take(i as int + 1).drop_last() =~= plugins@.take(i as int));
        if same_text(plugins[i].info.name, name) {
            proof {
                lemma_position_prefix(plugins@, name@, i as int + 1);
            }
            return Some(i);
        }
        i = i + 1;
    }
    assert(plugins@.take(i as int) =~= plugins@);
    None
}

proof fn lemma_position_prefix<P>(plugins: Seq<PluginRecord<P>>, name: Seq<char>, k: int)
    requires
        0 <= k <= plugins.len(),
        plugin_position(plugins.take(k), name) is Some,
    ensures
        plugin_position(plugins, name) == plugin_position(plugins.take(k), name),
    decreases plugins.len(),
{
    if k == plugins.len() {
        assert(plugins.take(k) =~= plugins);
    } else {
        assert(plugins.drop_last().take(k) =~= plugins.take(k));
        lemma_position_prefix(plugins.drop_last(), name, k);
    }
}

/// The position that is found lies within the list and bears the name.
pub proof fn position_bears_the_name<P>(plugins: Seq<PluginRecord<P>>, name: Seq<char>)
    ensures
        match plugin_position(plugins, name) {
            Some(i) => 0 <= i < plugins.len() && plugins[i].info.name@ == name,
            None => forall|i: int| 0 <= i < plugins.len() ==> plugins[i].info.name@ != name,
        },
    decreases plugins.len(),
{
    if plugins.len() > 0 {
        position_bears_the_name(plugins.drop_last(), name);
        if plugin_position(plugins, name) is None {
            assert forall|i: int| 0 <= i < plugins.len() implies plugins[i].info.name@ != name by {
                if i < plugins.len() - 1 {
                    assert(plugins.drop_last()[i] == plugins[i]);
                }
            }
        }
    }
}

/// Whether `names` holds `name`.
pub open spec fn has_name(names: Seq<&'static str>, name: Seq<char>) -> bool {
    exists|i: int| 0 <= i < names.len() && (#[trigger] names[i])@ == name
}

/// Whether `names` holds `name`.
pub fn contains_name(names: &Vec<&'static str>, name: &str) -> (found: bool)
    ensures
        found == has_name(names@, name@),
{
    let mut i: usize = 0;
    while i < names.len()
        invariant
            i <= names@.len(),
            forall|k: int| 0 <= k < i ==> (#[trigger] names@[k])@ != name@,
        decreases names@.len() - i,
    {
        if same_text(names[i], name) {
            assert(names@[i as int]@ == name@);
            return true;
        }
        i = i + 1;
    }
    false
}

/// The local plugins that the first `k` dependencies in `deps` resolve to. A dependency on
/// a plugin of an enclosing scope orders nothing here.
pub open spec fn local_needs<P>(
    plugins: Seq<PluginRecord<P>>,
    deps: Seq<PluginDependency>,
    k: nat,
) -> Seq<int>
    decreases k,
{
    if k == 0 {
        Seq::empty()
    } else {
        let before = local_needs(plugins, deps, (k - 1) as nat);
        match plugin_position(plugins, deps[k - 1].plugin_name@) {
            Some(i) => before.push(i),
            None => before,
        }
    }
}

/// Whether the `k`-th plugin dependency of the `i`-th plugin is satisfied: the plugin is here, in
/// an enclosing scope, or may be absent.
pub open spec fn dependency_met<P>(
    plugins: Seq<PluginRecord<P>>,
    inherited: Seq<&'static str>,
    i: int,
    k: int,
) -> bool {
    let d = plugins[i].info.plugin_deps@[k];
    d.optional || plugin_position(plugins, d.plugin_name@) is Some || has_name(
        inherited,
        d.plugin_name@,
    )
}

/// Whether the `k`-th dependency of the `i`-th plugin is the first that is not satisfied.
pub open spec fn first_unmet<P>(
    plugins: Seq<PluginRecord<P>>,
    inherited: Seq<&'static str>,
    i: int,
    k: int,
) -> bool {
    &&& 0 <= i < plugins.len()
    &&& 0 <= k < plugins[i].info.plugin_deps@.len()
    &&& !dependency_met(plugins, inherited, i, k)
    &&& forall|a: int, b: int|
        0 <= a < plugins.len() && 0 <= b < plugins[a].info.plugin_deps@.len() && (a < i || (a == i
            && b < k)) ==> #[trigger] dependency_met(plugins, inherited, a, b)
}

/// Whether every plugin dependency is satisfied.
pub open spec fn all_met<P>(
    plugins: Seq<PluginRecord<P>>,
    inherited: Seq<&'static str>,
) -> bool {
    forall|a: int, b: int|
        0 <= a < plugins.len() && 0 <= b < plugins[a].info.plugin_deps@.len()
            ==> #[trigger] dependency_met(plugins, inherited, a, b)
}

impl Graph {
    /// The number of plugins.
    pub open spec fn size(self) -> nat {
        self.needs@.len()
    }

    /// Every edge leads to a plugin of the graph, and every plugin has a priority.
    pub open spec fn wf(self) -> bool {
        &&& self.priority@.len() == self.needs@.len()
        &&& forall|i: int, k: int|
            0 <= i < self.size() && 0 <= k < self.needs@[i]@.len() ==> (
            #[trigger] self.needs@[i]@[k]) < self.size()
    }

    /// Whether plugin `i` needs plugin `j`.
    pub open spec fn depends(self, i: int, j: int) -> bool {
        exists|k: int| 0 <= k < self.needs@[i]@.len() && #[trigger] self.needs@[i]@[k] == j
    }

    /// Whether plugin `i` can start once those in `started` have: it has not started, and all
    /// that it needs have.
    pub open spec fn ready(self, started: Seq<usize>, i: int) -> bool {
        &&& 0 <= i < self.size()
        &&& !started.contains(i as usize)
        &&& forall|k: int|
            0 <= k < self.needs@[i]@.len() ==> started.contains(#[trigger] self.needs@[i]@[k])
    }

    /// Whether plugin `i` goes before plugin `j` when both could start: the higher priority
    /// first, and the one registered first among equals.
    pub open spec fn ahead(self, i: int, j: int) -> bool {
        self.priority@[i] > self.priority@[j] || (self.priority@[i] == self.priority@[j] && i <= j)
    }

    /// Whether plugin `i` is the one to start next.
    pub open spec fn next(self, started: Seq<usize>, i: int) -> bool {
        self.ready(started, i) && forall|j: int| #[trigger]
            self.ready(started, j) ==> self.ahead(i, j)
    }

    /// Whether each plugin in `order` is the one to start next after those before it.
    pub open spec fn greedy(self, order: Seq<usize>) -> bool {
        forall|k: int| 0 <= k < order.len() ==> self.next(order.take(k), #[trigger] order[k] as int)
    }

    /// Whether some plugins can never start: a set of them in which each needs another (or
    /// itself).
    pub open spec fn cyclic(self) -> bool {
        exists|s: Set<int>| #[trigger] self.stuck(s)
    }

    /// A set of plugins that is not empty and in which each needs one of the set.
    pub open spec fn stuck(self, s: Set<int>) -> bool {
        &&& exists|i: int| s.contains(i)
        &&& forall|i: int| #[trigger]
            s.contains(i) ==> 0 <= i < self.size() && exists|k: int|
                0 <= k < self.needs@[i]@.len() && s.contains(#[trigger] self.needs@[i]@[k] as int)
    }

    /// Whether `depth` gives the length of the longest chain of dependencies below each plugin.
    pub open spec fn depths(self, depth: Seq<nat>) -> bool {
        &&& depth.len() == self.size()
        &&& forall|i: int, k: int|
            0 <= i < self.size() && 0 <= k < self.needs@[i]@.len()
                ==> depth[#[trigger] self.needs@[i]@[k] as int] < depth[i]
        &&& forall|i: int|
            0 <= i < self.size() && #[trigger] depth[i] > 0 ==> exists|k: int|
                0 <= k < self.needs@[i]@.len() && depth[#[trigger] self.needs@[i]@[k] as int] + 1
                    == depth[i]
    }

    /// The order of the plugins that start at depth `d`, out of `order`.
    pub open spec fn layer(order: Seq<usize>, depth: Seq<nat>, d: nat) -> Seq<usize>
        decreases order.len(),
    {
        if order.len() == 0 {
            Seq::empty()
        } else {
            let before = Self::layer(order.drop_last(), depth, d);
            if depth[order.last() as int] == d {
                before.push(order.last())
            } else {
                before
            }
        }
    }

    /// Whether `layers` groups `order` by `depth`: one group per depth that occurs.
    pub open spec fn grouped(order: Seq<usize>, depth: Seq<nat>, layers: Seq<Vec<usize>>) -> bool {
        &&& forall|d: int|
            0 <= d < layers.len() ==> (#[trigger] layers[d])@ == Self::layer(order, depth, d as nat)
                && layers[d]@.len() > 0
        &&& forall|i: int| 0 <= i < order.len() ==> depth[#[trigger] order[i] as int] < layers.len()
    }

    /// Whether `schedule` is the schedule of this graph.
    pub open spec fn scheduled(self, schedule: Schedule) -> bool {
        &&& self.greedy(schedule.order@)
        &&& schedule.order@.len() == self.size()
        &&& exists|depth: Seq<nat>|
            self.depths(depth) && #[trigger] Self::grouped(
                schedule.order@,
                depth,
                schedule.layers@,
            )
    }
}

/// Whether `needs` are the dependencies between `plugins`.
pub open spec fn needs_of<P>(plugins: Seq<PluginRecord<P>>, needs: Seq<Vec<usize>>) -> bool {
    &&& needs.len() == plugins.len()
    &&& forall|i: int|
        0 <= i < plugins.len() ==> (#[trigger] needs[i])@.map_values(|x: usize| x as int)
            == local_needs(
            plugins,
            plugins[i].info.plugin_deps@,
            plugins[i].info.plugin_deps@.len(),
        )
}

/// Whether `graph` holds the dependencies between `plugins`, and their `priorities`.
pub open spec fn graph_of<P>(
    plugins: Seq<PluginRecord<P>>,
    priorities: Seq<i32>,
    graph: Graph,
) -> bool {
    &&& needs_of(plugins, graph.needs@)
    &&& graph.priority@ == priorities
}

/// Whether `priorities` are answers that the plugins gave when they were asked with `priority`, in
/// order.
pub open spec fn answered<P, F: Fn(&P) -> i32>(
    plugins: Seq<PluginRecord<P>>,
    priority: F,
    priorities: Seq<i32>,
) -> bool {
    &&& priorities.len() == plugins.len()
    &&& forall|i: int|
        0 <= i < plugins.len() ==> call_ensures(
            priority,
            (&plugins[i].plugin,),
            #[trigger] priorities[i],
        )
}

/// Resolves the plugin dependencies of `plugins`, looking for plugins of enclosing scopes in
/// `inherited`.
pub fn resolve_dependencies<P, C>(
    plugins: &Vec<PluginRecord<P>>,
    inherited: &Vec<&'static str>,
) -> (needs: Result<Vec<Vec<usize>>, Error<C>>)
    ensures
        match needs {
            Ok(needs) => {
                &&& all_met(plugins@, inherited@)
                &&& needs_of(plugins@, needs@)
                &&& forall|a: int, b: int|
                    0 <= a < needs@.len() && 0 <= b < needs@[a]@.len() ==> (
                    #[trigger] needs@[a]@[b]) < plugins@.len()
            },
            Err(error) => {
                &&& error.phase == Phase::Verify
                &&& error.plugin is None
                &&& error.source is None
                &&& error.kind matches ErrorKind::PluginDependencyNotFound(name) && exists|
                    i: int,
                    k: int,
                |
                    #[trigger] first_unmet(plugins@, inherited@, i, k) && name@
                        == plugins@[i].info.plugin_deps@[k].plugin_name@
            },
        },
{
    let mut needs: Vec<Vec<usize>> = Vec::new();
    let mut i: usize = 0;
    while i < plugins.len()
        invariant
            i <= plugins@.len(),
            needs@.len() == i,
            forall|a: int|
                0 <= a < i ==> (#[trigger] needs@[a])@.map_values(|x: usize| x as int)
                    == local_needs(
                    plugins@,
                    plugins@[a].info.plugin_deps@,
                    plugins@[a].info.plugin_deps@.len(),
                ),
            forall|a: int, b: int|
                0 <= a < i && 0 <= b < needs@[a]@.len() ==> (#[trigger] needs@[a]@[b])
                    < plugins@.len(),
            forall|a: int, b: int|
                0 <= a < i && 0 <= b < plugins@[a].info.plugin_deps@.len()
                    ==> #[trigger] dependency_met(plugins@, inherited@, a, b),
        decreases plugins@.len() - i,
    {
        let deps = &plugins[i].info.plugin_deps;
        let mut mine: Vec<usize> = Vec::new();
        let mut k: usize = 0;
        while k < deps.len()
            invariant
                i < plugins@.len(),
                k <= deps@.len(),
                deps@ == plugins@[i as int].info.plugin_deps@,
                mine@.map_values(|x: usize| x as int) =~= local_needs(plugins@, deps@, k as nat),
                forall|b: int| 0 <= b < mine@.len() ==> #[trigger] mine@[b] < plugins@.len(),
                forall|a: int, b: int|
                    0 <= a < plugins@.len() && 0 <= b < plugins@[a].info.plugin_deps@.len() && (a < i
                        || (a == i && b < k)) ==> #[trigger] dependency_met(
                        plugins@,
                        inherited@,
                        a,
                        b,
                    ),
            decreases deps@.len() - k,
        {
            let dep = deps[k];
            match find_plugin(plugins, dep.plugin_name) {
                Some(j) => {
                    mine.push(j);
                },
                None => {
                    if !dep.optional && !contains_name(inherited, dep.plugin_name) {
                        assert(first_unmet(plugins@, inherited@, i as int, k as int));
                        return Err(
                            Error::new(
                                Phase::Verify,
                                ErrorKind::PluginDependencyNotFound(
                                    String::from_str(dep.plugin_name),
                                ),
                            ),
                        );
                    }
                },
            }
            assert(dependency_met(plugins@, inherited@, i as int, k as int));
            k = k + 1;
        }
        needs.push(mine);
        i = i + 1;
    }
    Ok(needs)
}

/// Whether `done` marks exactly the plugins in `started`.
spec fn marks(done: Seq<bool>, started: Seq<usize>) -> bool {
    &&& forall|i: int| 0 <= i < done.len() ==> #[trigger] done[i] == started.contains(i as usize)
    &&& forall|k: int| 0 <= k < started.len() ==> #[trigger] started[k] < done.len()
}

proof fn lemma_distinct_bound(started: Seq<usize>, n: nat)
    requires
        n <= usize::MAX,
        started.no_duplicates(),
        forall|k: int| 0 <= k < started.len() ==> #[trigger] started[k] < n,
    ensures
        started.len() <= n,
        started.len() < n ==> exists|i: int| 0 <= i < n && !#[trigger] started.contains(i as usize),
        started.len() == n ==> forall|i: int|
            0 <= i < n ==> #[trigger] started.contains(i as usize),
{
    let ints = started.map_values(|x: usize| x as int);
    assert(ints.no_duplicates());
    ints.unique_seq_to_set();
    let range = vstd::set_lib::set_int_range(0, n as int);
    vstd::set_lib::lemma_int_range(0, n as int);
    assert(ints.to_set().subset_of(range)) by {
        assert forall|x: int| ints.to_set().contains(x) implies range.contains(x) by {
            let k = choose|k: int| 0 <= k < ints.len() && ints[k] == x;
            assert(started[k] < n);
        }
    }
    vstd::set_lib::lemma_len_subset(ints.to_set(), range);
    if started.len() < n {
        if forall|i: int| 0 <= i < n ==> #[trigger] started.contains(i as usize) {
            assert(range.subset_of(ints.to_set())) by {
                assert forall|x: int| range.contains(x) implies ints.to_set().contains(x) by {
                    assert(started.contains(x as usize));
                    let k = choose|k: int| 0 <= k < started.len() && started[k] == x as usize;
                    assert(ints[k] == x);
                }
            }
            vstd::set_lib::lemma_len_subset(range, ints.to_set());
        }
    }
    if started.len() == n {
        assert forall|i: int| 0 <= i < n implies #[trigger] started.contains(i as usize) by {
            if !started.contains(i as usize) {
                assert(!ints.to_set().contains(i)) by {
                    if ints.contains(i) {
                        let k = choose|k: int| 0 <= k < ints.len() && ints[k] == i;
                        assert(started[k] == i as usize);
                    }
                }
                assert(ints.to_set().subset_of(range.remove(i)));
                vstd::set_lib::lemma_len_subset(ints.to_set(), range.remove(i));
            }
        }
    }
}

impl Graph {
    /// Whether plugin `i` can start once those in `started` have.
    fn is_ready(&self, i: usize, started: &Vec<usize>, done: &Vec<bool>) -> (free: bool)
        requires
            self.wf(),
            i < self.size(),
            done@.len() == self.size(),
            marks(done@, started@),
        ensures
            free == self.ready(started@, i as int),
    {
        let mut free = !done[i];
        let needs = &self.needs[i];
        let mut k: usize = 0;
        while k < needs.len()
            invariant
                self.wf(),
                i < self.size(),
                done@.len() == self.size(),
                marks(done@, started@),
                needs@ == self.needs@[i as int]@,
                k <= needs@.len(),
                free == (!started@.contains(i) && forall|a: int|
                    0 <= a < k ==> started@.contains(#[trigger] needs@[a])),
            decreases needs@.len() - k,
        {
            let j = needs[k];
            assert(self.needs@[i as int]@[k as int] < self.size());
            assert(done@[j as int] == started@.contains(j));
            if !done[j] {
                free = false;
            }
            k = k + 1;
        }
        free
    }

    /// Finds the plugin to start next, if any can start.
    fn pick_next(&self, started: &Vec<usize>, done: &Vec<bool>) -> (next: Option<usize>)
        requires
            self.wf(),
            done@.len() == self.size(),
            marks(done@, started@),
        ensures
            match next {
                Some(i) => self.next(started@, i as int),
                None => forall|i: int| !#[trigger] self.ready(started@, i),
            },
    {
        let mut best: Option<usize> = None;
        let mut i: usize = 0;
        while i < self.needs.len()
            invariant
                self.wf(),
                i <= self.size(),
                done@.len() == self.size(),
                marks(done@, started@),
                match best {
                    Some(b) => b < i && self.ready(started@, b as int) && forall|j: int|
                        0 <= j < i && #[trigger] self.ready(started@, j) ==> self.ahead(
                            b as int,
                            j,
                        ),
                    None => forall|j: int| 0 <= j < i ==> !#[trigger] self.ready(started@, j),
                },
            decreases self.size() - i,
        {
            let free = self.is_ready(i, started, done);
            if free {
                match best {
                    Some(b) => {
                        if self.priority[i] > self.priority[b] {
                            best = Some(i);
                        }
                    },
                    None => {
                        best = Some(i);
                    },
                }
            }
            i = i + 1;
        }
        best
    }

    /// Adds the plugin to start next to an order.
    fn append(&self, next: usize, order: &mut Vec<usize>, done: &mut Vec<bool>)
        requires
            self.wf(),
            old(done)@.len() == self.size(),
            marks(old(done)@, old(order)@),
            old(order)@.no_duplicates(),
            self.greedy(old(order)@),
            self.next(old(order)@, next as int),
        ensures
            final(order)@ == old(order)@.push(next),
            final(done)@.len() == self.size(),
            marks(final(done)@, final(order)@),
            final(order)@.no_duplicates(),
            final(order)@.len() <= self.size(),
            self.greedy(final(order)@),
    {
        let ghost before = order@;
        let ghost n = self.needs.len();
        order.push(next);
        done.set(next, true);
        proof {
            assert(order@.take(before.len() as int) =~= before);
            assert forall|k: int| 0 <= k < order@.len() implies self.next(
                order@.take(k),
                #[trigger] order@[k] as int,
            ) by {
                if k < before.len() {
                    assert(order@.take(k) =~= before.take(k));
                    assert(order@[k] == before[k]);
                }
            }
            assert forall|i: int| 0 <= i < done@.len() implies #[trigger] done@[i]
                == order@.contains(i as usize) by {
                if i == next {
                    assert(order@[before.len() as int] == next);
                } else if before.contains(i as usize) {
                    let k = choose|k: int| 0 <= k < before.len() && before[k] == i as usize;
                    assert(order@[k] == i as usize);
                }
            }
            lemma_distinct_bound(order@, n as nat);
        }
    }

    /// Asks those plugins for their priority that can start once those in `order` have and were not
    /// asked before, in the order of registration.
    fn ask_ready<P, F: Fn(&P) -> i32>(
        &mut self,
        plugins: &Vec<PluginRecord<P>>,
        priority: &F,
        order: &Vec<usize>,
        done: &Vec<bool>,
        asked: &mut Vec<bool>,
    )
        requires
            old(self).wf(),
            plugins@.len() == old(self).size(),
            forall|i: int|
                0 <= i < plugins@.len() ==> call_requires(
                    *priority,
                    (&(#[trigger] plugins@[i]).plugin,),
                ),
            done@.len() == old(self).size(),
            marks(done@, order@),
            old(self).asked_so_far(plugins@, *priority, order@, order@.len() as int, old(asked)@),
        ensures
            final(self).wf(),
            final(self).needs == old(self).needs,
            final(self).asked_so_far(
                plugins@,
                *priority,
                order@,
                order@.len() as int + 1,
                final(asked)@,
            ),
    {
        let ghost before = *self;
        let mut i: usize = 0;
        while i < self.needs.len()
            invariant
                before.wf(),
                self.wf(),
                self.needs == before.needs,
                i <= self.size(),
                plugins@.len() == self.size(),
                forall|k: int|
                    0 <= k < plugins@.len() ==> call_requires(
                        *priority,
                        (&(#[trigger] plugins@[k]).plugin,),
                    ),
                done@.len() == self.size(),
                marks(done@, order@),
                self.asked_so_far(plugins@, *priority, order@, order@.len() as int, asked@),
                forall|k: int|
                    0 <= k < i && #[trigger] self.ready(order@, k) ==> asked@[k],
            decreases self.size() - i,
        {
            let ghost held = *self;
            let ghost held_asked = asked@;
            if !asked[i] && self.is_ready(i, order, done) {
                let answer = priority(&plugins[i].plugin);
                self.priority.set(i, answer);
                asked.set(i, true);
                proof {
                    lemma_unasked_is_free(held, *self, order@, i as int);
                    assert forall|j: int, k: int|
                        0 <= k < order@.len() && #[trigger] self.ready(
                            #[trigger] order@.take(k),
                            j,
                        ) implies asked@[j] by {
                        assert(held.ready(order@.take(k), j));
                    }
                    assert forall|k: int| 0 <= k < i + 1 && #[trigger] self.ready(
                        order@,
                        k,
                    ) implies asked@[k] by {
                        assert(held.ready(order@, k));
                    }
                }
            }
            i = i + 1;
        }
        proof {
            assert(order@.take(order@.len() as int) =~= order@);
        }
    }

    /// Whether `asked` marks at least the plugins that could start after one of the first `steps`
    /// prefixes of `order`, and each plugin that it marks has the priority that it answered; and
    /// the order is the right one by these.
    spec fn asked_so_far<P, F: Fn(&P) -> i32>(
        self,
        plugins: Seq<PluginRecord<P>>,
        priority: F,
        order: Seq<usize>,
        steps: int,
        asked: Seq<bool>,
    ) -> bool {
        &&& asked.len() == self.size()
        &&& forall|i: int|
            0 <= i < asked.len() && #[trigger] asked[i] ==> call_ensures(
                priority,
                (&plugins[i].plugin,),
                self.priority@[i],
            )
        &&& forall|i: int, k: int|
            0 <= k < steps && #[trigger] self.ready(#[trigger] order.take(k), i) ==> asked[i]
        &&& self.greedy(order)
    }

    /// The order in which the plugins start one by one, as far as they can. Each plugin is asked for
    /// its priority once it could start, and that is filled in.
    fn start_order_asking<P, F: Fn(&P) -> i32>(
        &mut self,
        plugins: &Vec<PluginRecord<P>>,
        priority: F,
    ) -> (order: Vec<usize>)
        requires
            old(self).wf(),
            plugins@.len() == old(self).size(),
            forall|i: int|
                0 <= i < plugins@.len() ==> call_requires(
                    priority,
                    (&(#[trigger] plugins@[i]).plugin,),
                ),
        ensures
            final(self).wf(),
            final(self).needs == old(self).needs,
            final(self).greedy(order@),
            order@.no_duplicates(),
            order@.len() <= final(self).size(),
            forall|k: int| 0 <= k < order@.len() ==> #[trigger] order@[k] < final(self).size(),
            order@.len() < final(self).size() ==> forall|i: int| !#[trigger] final(self).ready(order@, i),
            order@.len() == final(self).size() ==> answered(plugins@, priority, final(self).priority@),
    {
        let n = self.needs.len();
        let mut done: Vec<bool> = Vec::new();
        let mut asked: Vec<bool> = Vec::new();
        let mut i: usize = 0;
        while i < n
            invariant
                i <= n,
                done@.len() == i,
                asked@.len() == i,
                forall|k: int| 0 <= k < i ==> !#[trigger] done@[k],
                forall|k: int| 0 <= k < i ==> !#[trigger] asked@[k],
            decreases n - i,
        {
            done.push(false);
            asked.push(false);
            i = i + 1;
        }
        let mut order: Vec<usize> = Vec::new();
        assert(marks(done@, order@));
        loop
            invariant
                self.wf(),
                self.needs == old(self).needs,
                n == self.size(),
                plugins@.len() == n,
                forall|i: int|
                    0 <= i < plugins@.len() ==> call_requires(
                        priority,
                        (&(#[trigger] plugins@[i]).plugin,),
                    ),
                done@.len() == n,
                marks(done@, order@),
                order@.no_duplicates(),
                order@.len() <= n,
                self.asked_so_far(plugins@, priority, order@, order@.len() as int, asked@),
            ensures
                forall|i: int| !#[trigger] self.ready(order@, i),
            decreases n - order@.len(),
        {
            self.ask_ready(plugins, &priority, &order, &done, &mut asked);
            match self.pick_next(&order, &done) {
                Some(next) => {
                    let ghost before = order@;
                    self.append(next, &mut order, &mut done);
                    proof {
                        assert forall|i: int, k: int|
                            0 <= k < order@.len() && #[trigger] self.ready(
                                #[trigger] order@.take(k),
                                i,
                            ) implies asked@[i] by {
                            assert(order@.take(k) =~= before.take(k));
                        }
                    }
                },
                None => {
                    break;
                },
            }
        }
        proof {
            if order@.len() == n {
                lemma_distinct_bound(order@, n as nat);
                assert forall|i: int| 0 <= i < n implies call_ensures(
                    priority,
                    (&plugins@[i].plugin,),
                    #[trigger] self.priority@[i],
                ) by {
                    assert(order@.contains(i as usize));
                    let k = choose|k: int| 0 <= k < order@.len() && order@[k] == i as usize;
                    assert(self.next(order@.take(k), order@[k] as int));
                    assert(self.ready(order@.take(k), i));
                    assert(asked@[i]);
                }
            }
        }
        order
    }

    /// The order in which the plugins start one by one, as far as they can.
    fn start_order(&self) -> (order: Vec<usize>)
        requires
            self.wf(),
        ensures
            self.greedy(order@),
            order@.no_duplicates(),
            order@.len() <= self.size(),
            forall|k: int| 0 <= k < order@.len() ==> #[trigger] order@[k] < self.size(),
            order@.len() < self.size() ==> forall|i: int| !#[trigger] self.ready(order@, i),
    {
        let n = self.needs.len();
        let mut done: Vec<bool> = Vec::new();
        let mut i: usize = 0;
        while i < n
            invariant
                i <= n,
                done@.len() == i,
                forall|k: int| 0 <= k < i ==> !#[trigger] done@[k],
            decreases n - i,
        {
            done.push(false);
            i = i + 1;
        }
        let mut order: Vec<usize> = Vec::new();
        assert(marks(done@, order@));
        loop
            invariant
                self.wf(),
                n == self.size(),
                done@.len() == n,
                marks(done@, order@),
                order@.no_duplicates(),
                order@.len() <= n,
                self.greedy(order@),
            ensures
                forall|i: int| !#[trigger] self.ready(order@, i),
            decreases n - order@.len(),
        {
            match self.pick_next(&order, &done) {
                Some(next) => {
                    self.append(next, &mut order, &mut done);
                },
                None => {
                    break;
                },
            }
        }
        order
    }
}

/// Where plugin `i` could not start after any proper prefix of `order`, its priority has no say in
/// whether that is the right order.
proof fn lemma_unasked_is_free(before: Graph, after: Graph, order: Seq<usize>, i: int)
    requires
        before.wf(),
        after.needs == before.needs,
        after.priority@.len() == before.priority@.len(),
        forall|j: int|
            0 <= j < before.priority@.len() && j != i ==> #[trigger] after.priority@[j]
                == before.priority@[j],
        forall|k: int| 0 <= k < order.len() ==> !before.ready(#[trigger] order.take(k), i),
        before.greedy(order),
    ensures
        after.greedy(order),
{
    assert forall|k: int| 0 <= k < order.len() implies after.next(
        order.take(k),
        #[trigger] order[k] as int,
    ) by {
        let started = order.take(k);
        let next = order[k] as int;
        assert(before.next(started, next));
        assert(!before.ready(started, i));
        assert forall|j: int| #[trigger] after.ready(started, j) implies after.ahead(next, j) by {
            assert(before.ready(started, j));
            assert(before.ahead(next, j));
            assert(j != i && next != i);
        }
    }
}

proof fn lemma_stuck(graph: Graph, order: Seq<usize>)
    requires
        graph.wf(),
        order.no_duplicates(),
        forall|k: int| 0 <= k < order.len() ==> #[trigger] order[k] < graph.size(),
        order.len() < graph.size(),
        forall|i: int| !#[trigger] graph.ready(order, i),
    ensures
        graph.cyclic(),
{
    assert(graph.needs.len() == graph.size());
    lemma_distinct_bound(order, graph.size());
    let s = Set::new(|i: int| 0 <= i < graph.size() && !order.contains(i as usize));
    let w = choose|i: int| 0 <= i < graph.size() && !#[trigger] order.contains(i as usize);
    assert(s.contains(w));
    assert forall|i: int| #[trigger] s.contains(i) implies 0 <= i < graph.size() && exists|k: int|
        0 <= k < graph.needs@[i]@.len() && s.contains(#[trigger] graph.needs@[i]@[k] as int) by {
        assert(!graph.ready(order, i));
        let k = choose|k: int|
            0 <= k < graph.needs@[i]@.len() && !order.contains(#[trigger] graph.needs@[i]@[k]);
        assert(s.contains(graph.needs@[i]@[k] as int));
    }
    assert(graph.stuck(s));
}

proof fn lemma_greedy_distinct(graph: Graph, order: Seq<usize>)
    requires
        graph.greedy(order),
    ensures
        order.no_duplicates(),
        forall|k: int| 0 <= k < order.len() ==> #[trigger] order[k] < graph.size(),
{
    assert forall|a: int, b: int| 0 <= a < b < order.len() implies order[a] != order[b] by {
        assert(graph.next(order.take(b), order[b] as int));
        assert(order.take(b)[a] == order[a]);
    }
    assert forall|k: int| 0 <= k < order.len() implies #[trigger] order[k] < graph.size() by {
        assert(graph.next(order.take(k), order[k] as int));
    }
}

/// Every plugin starts after all the plugins that it needs.
pub proof fn order_respects_dependencies(graph: Graph, order: Seq<usize>, k: int, need: int)
    requires
        graph.greedy(order),
        0 <= k < order.len(),
        graph.depends(order[k] as int, need),
    ensures
        exists|j: int| 0 <= j < k && #[trigger] order[j] == need,
{
    assert(graph.next(order.take(k), order[k] as int));
    let e = choose|e: int|
        0 <= e < graph.needs@[order[k] as int]@.len() && #[trigger] graph.needs@[order[k] as int]@[e]
            == need;
    assert(order.take(k).contains(graph.needs@[order[k] as int]@[e]));
    let j = choose|j: int| 0 <= j < order.take(k).len() && order.take(k)[j] == need as usize;
    assert(order[j] == need);
}

/// A complete order holds every plugin exactly once.
pub proof fn order_holds_each_plugin_once(graph: Graph, order: Seq<usize>)
    requires
        graph.wf(),
        graph.greedy(order),
        order.len() == graph.size(),
    ensures
        order.no_duplicates(),
        forall|k: int| 0 <= k < order.len() ==> #[trigger] order[k] < graph.size(),
        forall|i: int| 0 <= i < graph.size() ==> #[trigger] order.contains(i as usize),
{
    lemma_greedy_distinct(graph, order);
    assert(graph.needs.len() == graph.size());
    lemma_distinct_bound(order, graph.size());
}

/// A graph has one complete start order only.
pub proof fn order_is_determined(graph: Graph, one: Seq<usize>, other: Seq<usize>)
    requires
        graph.greedy(one),
        graph.greedy(other),
        one.len() == other.len(),
    ensures
        one == other,
{
    assert forall|k: int| 0 <= k < one.len() implies one[k] == other[k] by {
        lemma_orders_agree(graph, one, other, k);
    }
    assert(one =~= other);
}

proof fn lemma_orders_agree(graph: Graph, one: Seq<usize>, other: Seq<usize>, k: int)
    requires
        graph.greedy(one),
        graph.greedy(other),
        one.len() == other.len(),
        0 <= k < one.len(),
    ensures
        one[k] == other[k],
    decreases k,
{
    assert(one.take(k) =~= other.take(k)) by {
        assert forall|j: int| 0 <= j < k implies one[j] == other[j] by {
            lemma_orders_agree(graph, one, other, j);
        }
    }
    assert(graph.next(one.take(k), one[k] as int));
    assert(graph.next(other.take(k), other[k] as int));
}

/// Plugins that need one another in a circle cannot all be in an order.
pub proof fn cycles_have_no_order(graph: Graph, order: Seq<usize>)
    requires
        graph.wf(),
        graph.greedy(order),
        order.len() == graph.size(),
    ensures
        !graph.cyclic(),
{
    if graph.cyclic() {
        let s = choose|s: Set<int>| #[trigger] graph.stuck(s);
        order_holds_each_plugin_once(graph, order);
        let w = choose|i: int| s.contains(i);
        assert(graph.needs.len() == graph.size());
        assert(order.contains(w as usize));
        let p = choose|p: int| 0 <= p < order.len() && order[p] == w as usize;
        lemma_no_first(graph, order, s, p);
    }
}

proof fn lemma_no_first(graph: Graph, order: Seq<usize>, s: Set<int>, p: int)
    requires
        graph.wf(),
        graph.greedy(order),
        graph.stuck(s),
        0 <= p < order.len(),
    ensures
        !s.contains(order[p] as int),
    decreases p,
{
    let i = order[p] as int;
    if s.contains(i) {
        let k = choose|k: int|
            0 <= k < graph.needs@[i]@.len() && s.contains(#[trigger] graph.needs@[i]@[k] as int);
        let need = graph.needs@[i]@[k] as int;
        assert(graph.depends(i, need));
        order_respects_dependencies(graph, order, p, need);
        let j = choose|j: int| 0 <= j < p && #[trigger] order[j] == need;
        lemma_no_first(graph, order, s, j);
    }
}

impl Graph {
    /// How deep each plugin lies, given a complete start order.
    fn depth_by_order(&self, order: &Vec<usize>) -> (depth: Vec<usize>)
        requires
            self.wf(),
            self.greedy(order@),
            order@.len() == self.size(),
        ensures
            self.depths(depth@.map_values(|d: usize| d as nat)),
    {
        let n = self.needs.len();
        let mut depth: Vec<usize> = Vec::new();
        let mut i: usize = 0;
        while i < n
            invariant
                i <= n,
                depth@.len() == i,
            decreases n - i,
        {
            depth.push(0);
            i = i + 1;
        }
        proof {
            order_holds_each_plugin_once(*self, order@);
        }
        let mut p: usize = 0;
        while p < n
            invariant
                self.wf(),
                self.greedy(order@),
                n == self.size(),
                order@.len() == n,
                order@.no_duplicates(),
                forall|k: int| 0 <= k < order@.len() ==> #[trigger] order@[k] < self.size(),
                depth@.len() == n,
                p <= n,
                forall|q: int| 0 <= q < p ==> self.depth_settled(
                    depth@,
                    #[trigger] order@[q] as int,
                ),
                forall|q: int| 0 <= q < p ==> depth@[#[trigger] order@[q] as int] <= q,
            decreases n - p,
        {
            let x = order[p];
            let needs = &self.needs[x];
            let mut d: usize = 0;
            let mut k: usize = 0;
            while k < needs.len()
                invariant
                    self.wf(),
                    self.greedy(order@),
                    n == self.size(),
                    order@.len() == n,
                    p < n,
                    x == order@[p as int],
                    x < n,
                    needs@ == self.needs@[x as int]@,
                    depth@.len() == n,
                    k <= needs@.len(),
                    d <= p,
                    forall|q: int| 0 <= q < p ==> depth@[#[trigger] order@[q] as int] <= q,
                    forall|a: int| 0 <= a < k ==> depth@[#[trigger] needs@[a] as int] < d,
                    d > 0 ==> exists|a: int|
                        0 <= a < k && depth@[#[trigger] needs@[a] as int] + 1 == d,
                decreases needs@.len() - k,
            {
                let j = needs[k];
                proof {
                    assert(self.needs@[x as int]@[k as int] == j);
                    assert(self.depends(x as int, j as int));
                    order_respects_dependencies(*self, order@, p as int, j as int);
                }
                let next = depth[j] + 1;
                if d < next {
                    d = next;
                    assert(depth@[needs@[k as int] as int] + 1 == d);
                }
                k = k + 1;
            }
            let ghost before = depth@;
            depth.set(x, d);
            proof {
                assert forall|a: int| 0 <= a < needs@.len() implies depth@[#[trigger] needs@[a] as int]
                    == before[needs@[a] as int] by {
                    assert(self.depends(x as int, needs@[a] as int));
                    order_respects_dependencies(*self, order@, p as int, needs@[a] as int);
                }
                assert(self.depth_settled(depth@, x as int));
                assert forall|q: int| 0 <= q <= p implies self.depth_settled(
                    depth@,
                    #[trigger] order@[q] as int,
                ) by {
                    if q < p {
                        let y = order@[q] as int;
                        assert(y != x);
                        assert(self.depth_settled(before, y));
                        assert forall|a: int| 0 <= a < self.needs@[y]@.len() implies depth@[
                        #[trigger] self.needs@[y]@[a] as int] == before[self.needs@[y]@[a] as int] by {
                            assert(self.depends(y, self.needs@[y]@[a] as int));
                            order_respects_dependencies(
                                *self,
                                order@,
                                q,
                                self.needs@[y]@[a] as int,
                            );
                        }
                    }
                }
            }
            p = p + 1;
        }
        proof {
            let deep = depth@.map_values(|d: usize| d as nat);
            assert forall|i: int| 0 <= i < self.size() implies self.depth_settled(depth@, i) by {
                assert(order@.contains(i as usize));
            }
            assert forall|i: int, k: int|
                0 <= i < self.size() && 0 <= k < self.needs@[i]@.len() implies deep[
            #[trigger] self.needs@[i]@[k] as int] < deep[i] by {
                assert(self.depth_settled(depth@, i));
                assert(self.needs@[i]@[k] < self.size());
            }
            assert forall|i: int| 0 <= i < self.size() && #[trigger] deep[i] > 0 implies exists|k: int|
                0 <= k < self.needs@[i]@.len() && deep[#[trigger] self.needs@[i]@[k] as int] + 1
                    == deep[i] by {
                assert(self.depth_settled(depth@, i));
                let k = choose|k: int|
                    0 <= k < self.needs@[i]@.len() && depth@[#[trigger] self.needs@[i]@[k] as int] + 1
                        == depth@[i];
                assert(self.needs@[i]@[k] < self.size());
                assert(deep[self.needs@[i]@[k] as int] + 1 == deep[i]);
            }
        }
        depth
    }

    /// Whether the depth of plugin `i` fits those of the plugins it needs.
    spec fn depth_settled(self, depth: Seq<usize>, i: int) -> bool {
        &&& forall|k: int|
            0 <= k < self.needs@[i]@.len() ==> depth[#[trigger] self.needs@[i]@[k] as int] < depth[i]
        &&& depth[i] > 0 ==> exists|k: int|
            0 <= k < self.needs@[i]@.len() && depth[#[trigger] self.needs@[i]@[k] as int] + 1
                == depth[i]
    }
}

proof fn lemma_layer_take(order: Seq<usize>, depth: Seq<nat>, d: nat, p: int)
    requires
        0 <= p < order.len(),
    ensures
        Graph::layer(order.take(p + 1), depth, d) == if depth[order[p] as int] == d {
            Graph::layer(order.take(p), depth, d).push(order[p])
        } else {
            Graph::layer(order.take(p), depth, d)
        },
{
    assert(order.take(p + 1).drop_last() =~= order.take(p));
}

proof fn lemma_layer_members(order: Seq<usize>, depth: Seq<nat>, d: nat)
    ensures
        forall|i: int|
            0 <= i < Graph::layer(order, depth, d).len() ==> depth[(#[trigger] Graph::layer(
                order,
                depth,
                d,
            )[i]) as int] == d && order.contains(Graph::layer(order, depth, d)[i]),
        forall|i: int|
            0 <= i < order.len() && depth[order[i] as int] == d ==> Graph::layer(
                order,
                depth,
                d,
            ).contains(#[trigger] order[i]),
    decreases order.len(),
{
    if order.len() > 0 {
        let before = Graph::layer(order.drop_last(), depth, d);
        let whole = Graph::layer(order, depth, d);
        lemma_layer_members(order.drop_last(), depth, d);
        assert(order.last() == order[order.len() - 1]);
        assert forall|i: int| 0 <= i < whole.len() implies depth[(#[trigger] whole[i]) as int] == d
            && order.contains(whole[i]) by {
            if i < before.len() {
                assert(whole[i] == before[i]);
                let k = choose|k: int|
                    0 <= k < order.drop_last().len() && order.drop_last()[k] == before[i];
                assert(order[k] == whole[i]);
            }
        }
        assert forall|i: int| 0 <= i < order.len() && depth[order[i] as int] == d implies whole.contains(
            #[trigger] order[i],
        ) by {
            if i < order.len() - 1 {
                assert(order.drop_last()[i] == order[i]);
                let k = choose|k: int| 0 <= k < before.len() && before[k] == order[i];
                assert(whole[k] == order[i]);
            } else {
                assert(whole[whole.len() - 1] == order[i]);
            }
        }
    }
}

proof fn lemma_every_depth_occurs(graph: Graph, depth: Seq<nat>, i: int, d: nat)
    requires
        graph.wf(),
        graph.depths(depth),
        0 <= i < graph.size(),
        d <= depth[i],
    ensures
        exists|j: int| 0 <= j < graph.size() && #[trigger] depth[j] == d,
    decreases depth[i],
{
    if d < depth[i] {
        let k = choose|k: int|
            0 <= k < graph.needs@[i]@.len() && depth[#[trigger] graph.needs@[i]@[k] as int] + 1
                == depth[i];
        assert(graph.needs@[i]@[k] < graph.size());
        lemma_every_depth_occurs(graph, depth, graph.needs@[i]@[k] as int, d);
    }
}

impl Graph {
    /// Groups a complete start order by depth.
    fn layers_by_depth(&self, order: &Vec<usize>, depth: &Vec<usize>) -> (layers: Vec<Vec<usize>>)
        requires
            self.wf(),
            self.greedy(order@),
            order@.len() == self.size(),
            self.depths(depth@.map_values(|d: usize| d as nat)),
            forall|i: int| 0 <= i < depth@.len() ==> #[trigger] depth@[i] < self.size(),
        ensures
            Graph::grouped(order@, depth@.map_values(|d: usize| d as nat), layers@),
    {
        let ghost deep = depth@.map_values(|d: usize| d as nat);
        let n = order.len();
        proof {
            order_holds_each_plugin_once(*self, order@);
        }
        let mut count: usize = 0;
        let mut p: usize = 0;
        while p < n
            invariant
                p <= n,
                n == order@.len(),
                n == self.size(),
                depth@.len() == n,
                deep == depth@.map_values(|d: usize| d as nat),
                forall|k: int| 0 <= k < order@.len() ==> #[trigger] order@[k] < self.size(),
                forall|i: int| 0 <= i < depth@.len() ==> #[trigger] depth@[i] < self.size(),
                count <= n,
                forall|q: int| 0 <= q < p ==> deep[#[trigger] order@[q] as int] < count,
                count > 0 ==> exists|q: int| 0 <= q < p && deep[#[trigger] order@[q] as int] + 1 == count,
            decreases n - p,
        {
            let x = order[p];
            if depth[x] >= count {
                count = depth[x] + 1;
                assert(deep[order@[p as int] as int] + 1 == count);
            }
            p = p + 1;
        }
        let mut layers: Vec<Vec<usize>> = Vec::new();
        let mut c: usize = 0;
        while c < count
            invariant
                c <= count,
                layers@.len() == c,
                forall|d: int| 0 <= d < c ==> (#[trigger] layers@[d])@ == Seq::<usize>::empty(),
            decreases count - c,
        {
            layers.push(Vec::new());
            c = c + 1;
        }
        p = 0;
        proof {
            assert(order@.take(0) =~= Seq::<usize>::empty());
            assert forall|d: int| 0 <= d < layers@.len() implies (#[trigger] layers@[d])@ == Graph::layer(
                order@.take(0),
                deep,
                d as nat,
            ) by {}
        }
        while p < n
            invariant
                p <= n,
                n == order@.len(),
                n == self.size(),
                depth@.len() == n,
                deep == depth@.map_values(|d: usize| d as nat),
                layers@.len() == count,
                forall|k: int| 0 <= k < order@.len() ==> #[trigger] order@[k] < self.size(),
                forall|q: int| 0 <= q < n ==> deep[#[trigger] order@[q] as int] < count,
                forall|d: int|
                    0 <= d < layers@.len() ==> (#[trigger] layers@[d])@ == Graph::layer(
                        order@.take(p as int),
                        deep,
                        d as nat,
                    ),
            decreases n - p,
        {
            let x = order[p];
            let ghost before = layers@;
            assert(deep[order@[p as int] as int] < count);
            let slot = depth[x];
            layers[slot].push(x);
            proof {
                assert forall|d: int| 0 <= d < layers@.len() implies (#[trigger] layers@[d])@
                    == Graph::layer(order@.take(p as int + 1), deep, d as nat) by {
                    lemma_layer_take(order@, deep, d as nat, p as int);
                    assert(before[d]@ == Graph::layer(order@.take(p as int), deep, d as nat));
                }
            }
            p = p + 1;
        }
        proof {
            assert(order@.take(n as int) =~= order@);
            assert forall|d: int| 0 <= d < layers@.len() implies (#[trigger] layers@[d])@
                == Graph::layer(order@, deep, d as nat) && layers@[d]@.len() > 0 by {
                let q = choose|q: int| 0 <= q < n && deep[#[trigger] order@[q] as int] + 1 == count;
                lemma_every_depth_occurs(*self, deep, order@[q] as int, d as nat);
                let j = choose|j: int| 0 <= j < self.size() && #[trigger] deep[j] == d;
                assert(order@.contains(j as usize));
                let r = choose|r: int| 0 <= r < order@.len() && order@[r] == j as usize;
                lemma_layer_members(order@, deep, d as nat);
                assert(Graph::layer(order@, deep, d as nat).contains(order@[r]));
            }
        }
        layers
    }

    /// Computes the schedule, unless plugins need one another in a circle.
    pub fn schedule(&self) -> (schedule: Option<Schedule>)
        requires
            self.wf(),
        ensures
            match schedule {
                Some(schedule) => self.scheduled(schedule),
                None => self.cyclic(),
            },
            schedule is Some <==> !self.cyclic(),
    {
        let order = self.start_order();
        self.by_order(order)
    }

    /// The schedule with the given order, unless that is not complete.
    fn by_order(&self, order: Vec<usize>) -> (schedule: Option<Schedule>)
        requires
            self.wf(),
            self.greedy(order@),
            order@.no_duplicates(),
            order@.len() <= self.size(),
            forall|k: int| 0 <= k < order@.len() ==> #[trigger] order@[k] < self.size(),
            order@.len() < self.size() ==> forall|i: int| !#[trigger] self.ready(order@, i),
        ensures
            match schedule {
                Some(schedule) => self.scheduled(schedule),
                None => self.cyclic(),
            },
            schedule is Some <==> !self.cyclic(),
            schedule is Some <==> order@.len() == self.size(),
    {
        if order.len() < self.needs.len() {
            proof {
                lemma_stuck(*self, order@);
            }
            return None;
        }
        proof {
            cycles_have_no_order(*self, order@);
        }
        let depth = self.depth_by_order(&order);
        proof {
            lemma_depth_bound(*self, order@, depth@);
        }
        let layers = self.layers_by_depth(&order, &depth);
        let schedule = Schedule { order, layers };
        assert(self.depths(depth@.map_values(|d: usize| d as nat)) && Graph::grouped(
            schedule.order@,
            depth@.map_values(|d: usize| d as nat),
            schedule.layers@,
        ));
        Some(schedule)
    }
}

proof fn lemma_depth_bound(graph: Graph, order: Seq<usize>, depth: Seq<usize>)
    requires
        graph.wf(),
        graph.greedy(order),
        order.len() == graph.size(),
        graph.depths(depth.map_values(|d: usize| d as nat)),
    ensures
        forall|i: int| 0 <= i < depth.len() ==> #[trigger] depth[i] < graph.size(),
{
    order_holds_each_plugin_once(graph, order);
    assert(graph.needs.len() == graph.size());
    assert forall|i: int| 0 <= i < depth.len() implies #[trigger] depth[i] < graph.size() by {
        assert(order.contains(i as usize));
        let p = choose|p: int| 0 <= p < order.len() && order[p] == i as usize;
        lemma_depth_by_position(graph, order, depth, p);
    }
}

proof fn lemma_depth_by_position(graph: Graph, order: Seq<usize>, depth: Seq<usize>, p: int)
    requires
        graph.wf(),
        graph.greedy(order),
        graph.depths(depth.map_values(|d: usize| d as nat)),
        forall|k: int| 0 <= k < order.len() ==> #[trigger] order[k] < graph.size(),
        0 <= p < order.len(),
    ensures
        depth[order[p] as int] <= p,
    decreases p,
{
    let deep = depth.map_values(|d: usize| d as nat);
    let i = order[p] as int;
    if depth[i] > 0 {
        assert(deep[i] > 0);
        let k = choose|k: int|
            0 <= k < graph.needs@[i]@.len() && deep[#[trigger] graph.needs@[i]@[k] as int] + 1
                == deep[i];
        let need = graph.needs@[i]@[k] as int;
        assert(need < graph.size());
        assert(graph.depends(i, need));
        order_respects_dependencies(graph, order, p, need);
        let j = choose|j: int| 0 <= j < p && #[trigger] order[j] == need;
        lemma_depth_by_position(graph, order, depth, j);
    }
}

/// Plugins that start together do not need one another, and everything a plugin needs starts
/// in an earlier group.
pub proof fn layers_respect_dependencies(
    graph: Graph,
    schedule: Schedule,
    d: int,
    i: int,
    need: int,
)
    requires
        graph.wf(),
        graph.scheduled(schedule),
        0 <= d < schedule.layers@.len(),
        0 <= i < schedule.layers@[d]@.len(),
        graph.depends(schedule.layers@[d]@[i] as int, need),
    ensures
        exists|e: int| 0 <= e < d && #[trigger] schedule.layers@[e]@.contains(need as usize),
{
    let order = schedule.order@;
    let depth = choose|depth: Seq<nat>|
        graph.depths(depth) && #[trigger] Graph::grouped(order, depth, schedule.layers@);
    order_holds_each_plugin_once(graph, order);
    assert(graph.needs.len() == graph.size());
    lemma_layer_members(order, depth, d as nat);
    let x = schedule.layers@[d]@[i] as int;
    assert(schedule.layers@[d]@ == Graph::layer(order, depth, d as nat));
    assert(depth[x] == d);
    assert(order.contains(x as usize));
    let k = choose|k: int| 0 <= k < graph.needs@[x]@.len() && #[trigger] graph.needs@[x]@[k] == need;
    assert(0 <= x < graph.size());
    assert(depth[graph.needs@[x]@[k] as int] < depth[x]);
    assert(graph.needs@[x]@[k] < graph.size());
    let e = depth[need] as int;
    lemma_layer_members(order, depth, e as nat);
    assert(order.contains(need as usize));
    let r = choose|r: int| 0 <= r < order.len() && order[r] == need as usize;
    assert(Graph::layer(order, depth, e as nat).contains(order[r]));
    assert(schedule.layers@[e]@.contains(need as usize));
}

/// A schedule speaks of the plugins of its graph only.
pub proof fn schedule_stays_in_range(graph: Graph, schedule: Schedule)
    requires
        graph.wf(),
        graph.scheduled(schedule),
    ensures
        forall|i: int|
            0 <= i < schedule.order@.len() ==> (#[trigger] schedule.order@[i]) < graph.size(),
        forall|d: int, i: int|
            0 <= d < schedule.layers@.len() && 0 <= i < schedule.layers@[d]@.len() ==> (
            #[trigger] schedule.layers@[d]@[i]) < graph.size(),
{
    let order = schedule.order@;
    let depth = choose|depth: Seq<nat>|
        graph.depths(depth) && #[trigger] Graph::grouped(order, depth, schedule.layers@);
    order_holds_each_plugin_once(graph, order);
    assert forall|d: int, i: int|
        0 <= d < schedule.layers@.len() && 0 <= i < schedule.layers@[d]@.len() implies (
    #[trigger] schedule.layers@[d]@[i]) < graph.size() by {
        lemma_layer_members(order, depth, d as nat);
        assert(schedule.layers@[d]@ == Graph::layer(order, depth, d as nat));
        assert(order.contains(Graph::layer(order, depth, d as nat)[i]));
    }
}

/// Every plugin starts in exactly one group.
pub proof fn layers_hold_each_plugin_once(graph: Graph, schedule: Schedule, i: int)
    requires
        graph.wf(),
        graph.scheduled(schedule),
        0 <= i < graph.size(),
    ensures
        exists|d: int|
            0 <= d < schedule.layers@.len() && #[trigger] schedule.layers@[d]@.contains(i as usize),
        forall|d: int, e: int|
            0 <= d < schedule.layers@.len() && 0 <= e < schedule.layers@.len()
                && #[trigger] schedule.layers@[d]@.contains(i as usize)
                && #[trigger] schedule.layers@[e]@.contains(i as usize) ==> d == e,
{
    let order = schedule.order@;
    let depth = choose|depth: Seq<nat>|
        graph.depths(depth) && #[trigger] Graph::grouped(order, depth, schedule.layers@);
    order_holds_each_plugin_once(graph, order);
    assert(graph.needs.len() == graph.size());
    assert(order.contains(i as usize));
    let r = choose|r: int| 0 <= r < order.len() && order[r] == i as usize;
    let d = depth[i] as int;
    lemma_layer_members(order, depth, d as nat);
    assert(depth[order[r] as int] < schedule.layers@.len());
    assert(schedule.layers@[d]@.contains(i as usize));
    assert forall|e: int|
        0 <= e < schedule.layers@.len() && #[trigger] schedule.layers@[e]@.contains(
            i as usize,
        ) implies e == d by {
        lemma_layer_members(order, depth, e as nat);
        assert(schedule.layers@[e]@ == Graph::layer(order, depth, e as nat));
        let k = choose|k: int|
            0 <= k < schedule.layers@[e]@.len() && schedule.layers@[e]@[k] == i as usize;
        assert(depth[Graph::layer(order, depth, e as nat)[k] as int] == e);
    }
}

/// Computes the start schedule of `plugins`, looking for plugins of enclosing scopes in
/// `inherited`. Once every dependency is known to be there, a plugin is asked for its priority when
/// nothing that it needs is left to start; so where there is a schedule, each was asked once.
///
/// A dependency that may be absent only waives that the plugin must exist: where it does, it
/// still starts first.
pub fn compute_schedule<P, C, F: Fn(&P) -> i32>(
    plugins: &Vec<PluginRecord<P>>,
    inherited: &Vec<&'static str>,
    priority: F,
) -> (result: Result<Schedule, Error<C>>)
    requires
        forall|i: int|
            0 <= i < plugins@.len() ==> call_requires(priority, (&(#[trigger] plugins@[i]).plugin,)),
    ensures
        exists|priorities: Seq<i32>| #[trigger]
            schedule_result(plugins@, inherited@, priorities, result) && (result is Ok ==> answered(
                plugins@,
                priority,
                priorities,
            )),
{
    match resolve_dependencies::<P, C>(plugins, inherited) {
        Err(error) => {
            assert(schedule_result(
                plugins@,
                inherited@,
                Seq::empty(),
                Err::<Schedule, Error<C>>(error),
            ));
            Err(error)
        },
        Ok(needs) => {
            let mut graph = Graph { needs, priority: Vec::new() };
            let mut i: usize = 0;
            while i < graph.needs.len()
                invariant
                    i <= graph.needs@.len(),
                    graph.needs == needs,
                    graph.priority@.len() == i,
                decreases graph.needs@.len() - i,
            {
                graph.priority.push(0);
                i = i + 1;
            }
            assert(graph.wf());
            let order = graph.start_order_asking(plugins, priority);
            let ghost priorities = graph.priority@;
            assert(graph_of(plugins@, priorities, graph));
            match graph.by_order(order) {
                Some(schedule) => {
                    assert(schedule_result(
                        plugins@,
                        inherited@,
                        priorities,
                        Ok::<Schedule, Error<C>>(schedule),
                    ));
                    Ok(schedule)
                },
                None => {
                    let error: Error<C> = Error::new(
                        Phase::Verify,
                        ErrorKind::PluginDependencyCycle,
                    );
                    assert(schedule_result(
                        plugins@,
                        inherited@,
                        priorities,
                        Err::<Schedule, Error<C>>(error),
                    ));
                    Err(error)
                },
            }
        },
    }
}

/// What scheduling plugins that have the given priorities leads to: the error of the first
/// dependency that is not satisfied; else, where plugins need one another in a circle, the error
/// that says so; else the schedule.
pub open spec fn schedule_result<P, C>(
    plugins: Seq<PluginRecord<P>>,
    inherited: Seq<&'static str>,
    priorities: Seq<i32>,
    result: Result<Schedule, Error<C>>,
) -> bool {
    match result {
        Ok(schedule) => {
            &&& all_met(plugins, inherited)
            &&& exists|graph: Graph|
                #[trigger]
                graph_of(plugins, priorities, graph) && graph.wf() && !graph.cyclic()
                    && graph.scheduled(schedule)
        },
        Err(error) => {
            &&& error.phase == Phase::Verify
            &&& error.plugin is None
            &&& error.source is None
            &&& match error.kind {
                ErrorKind::PluginDependencyNotFound(name) => exists|i: int, k: int|
                    #[trigger] first_unmet(plugins, inherited, i, k) && name@
                        == plugins[i].info.plugin_deps@[k].plugin_name@,
                ErrorKind::PluginDependencyCycle => {
                    &&& all_met(plugins, inherited)
                    &&& exists|graph: Graph|
                        #[trigger]
                        graph_of(plugins, priorities, graph) && graph.wf() && graph.cyclic()
                },
                _ => false,
            }
        },
    }
}

} // verus!
