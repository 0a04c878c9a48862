//! How a scope is assembled, and how that is taken back.

use vstd::prelude::*;

use crate::builder::{Assembly, Builder, UndoOp};
use crate::context::{Data, Host};
use crate::error::{Error, ErrorKind, Phase};
use crate::event::Subscription;
use crate::plugin::{PluginScope, ServiceKey};
use crate::runtime::Built;
use crate::schedule::{PluginInfo, PluginRecord, Schedule};

verus! {

/// What is assembled is what the tables of the builder hold.
pub proof fn an_assembly_is_what_the_tables_hold<H: Host>(builder: Builder<H>)
    ensures
        builder.assembly().services == builder.services@,
        builder.assembly().handlers == builder.handlers@,
        builder.assembly().plugins == builder.plugins@,
        builder.assembly().declared == builder.declared@,
        builder.assembly().ready == builder.ready@,
        builder.assembly().dispose == builder.dispose@,
        builder.assembly().closing == builder.closing.hooks@,
{
}

/// A step back takes out what it names, or puts it back where it was, and touches nothing else. It
/// takes from the end of a table, and nothing from an empty one.
pub proof fn a_step_back_touches_what_it_names<H: Host>(
    assembly: Assembly<H>,
    op: UndoOp<H::Handler>,
)
    ensures
        ({
            let back = assembly.undone(op);
            &&& !(op is PopHandler || op is RestoreHandler) ==> back.handlers == assembly.handlers
            &&& !(op is PopPlugin) ==> back.plugins == assembly.plugins
            &&& !(op is PopPluginName) ==> back.declared == assembly.declared
            &&& !(op is PopReady) ==> back.ready == assembly.ready
            &&& !(op is PopDispose) ==> back.dispose == assembly.dispose
            &&& !(op is PopClosingHook) ==> back.closing == assembly.closing
            &&& !(op is RemoveService) ==> back.services.values == assembly.services.values
            &&& !(op is RemoveFactory) ==> back.services.factories == assembly.services.factories
            &&& !(op is PopCollection) ==> back.services.collections
                == assembly.services.collections
            &&& match op {
                UndoOp::RemoveService(id) => back.services.values
                    == assembly.services.values.remove(id),
                UndoOp::RemoveFactory(id) => back.services.factories
                    == assembly.services.factories.remove(id),
                UndoOp::PopCollection(id) => back.services == assembly.services.uncollect(id),
                UndoOp::PopHandler => assembly.handlers.len() == 0 && back.handlers.len() == 0
                    || assembly.handlers == back.handlers.push(assembly.handlers.last()),
                UndoOp::RestoreHandler { index, handler } => back.handlers
                    == assembly.handlers.insert(index as int, handler),
                UndoOp::PopPlugin => assembly.plugins.len() == 0 && back.plugins.len() == 0
                    || assembly.plugins == back.plugins.push(assembly.plugins.last()),
                UndoOp::PopPluginName => assembly.declared.len() == 0 && back.declared.len() == 0
                    || assembly.declared == back.declared.push(assembly.declared.last()),
                UndoOp::PopReady => assembly.ready.len() == 0 && back.ready.len() == 0
                    || assembly.ready == back.ready.push(assembly.ready.last()),
                UndoOp::PopDispose => assembly.dispose.len() == 0 && back.dispose.len() == 0
                    || assembly.dispose == back.dispose.push(assembly.dispose.last()),
                UndoOp::PopClosingHook => assembly.closing.len() == 0 && back.closing.len() == 0
                    || assembly.closing == back.closing.push(assembly.closing.last()),
            }
        }),
{
    let back = assembly.undone(op);
    match op {
        UndoOp::PopHandler => {
            if assembly.handlers.len() > 0 {
                assert(back.handlers.push(assembly.handlers.last()) =~= assembly.handlers);
            }
        },
        UndoOp::PopPlugin => {
            if assembly.plugins.len() > 0 {
                assert(back.plugins.push(assembly.plugins.last()) =~= assembly.plugins);
            }
        },
        UndoOp::PopPluginName => {
            if assembly.declared.len() > 0 {
                assert(back.declared.push(assembly.declared.last()) =~= assembly.declared);
            }
        },
        UndoOp::PopReady => {
            if assembly.ready.len() > 0 {
                assert(back.ready.push(assembly.ready.last()) =~= assembly.ready);
            }
        },
        UndoOp::PopDispose => {
            if assembly.dispose.len() > 0 {
                assert(back.dispose.push(assembly.dispose.last()) =~= assembly.dispose);
            }
        },
        UndoOp::PopClosingHook => {
            if assembly.closing.len() > 0 {
                assert(back.closing.push(assembly.closing.last()) =~= assembly.closing);
            }
        },
        _ => {},
    }
}

/// Rolling back takes back every step after the given position, the last one first, and none before
/// it.
pub proof fn a_rollback_takes_back_the_last_step_first<H: Host>(
    assembly: Assembly<H>,
    log: Seq<UndoOp<H::Handler>>,
    upto: nat,
)
    requires
        upto <= log.len(),
    ensures
        assembly.rolled_back(log, upto) == log.skip(upto as int).fold_right(
            |op: UndoOp<H::Handler>, reached: Assembly<H>| reached.undone(op),
            assembly,
        ),
    decreases log.len(),
{
    let undo = |op: UndoOp<H::Handler>, reached: Assembly<H>| reached.undone(op);
    let late = log.skip(upto as int);
    reveal_with_fuel(Seq::fold_right, 2);
    if log.len() > upto {
        a_rollback_takes_back_the_last_step_first(
            assembly.undone(log.last()),
            log.drop_last(),
            upto,
        );
        assert(late.drop_last() =~= log.drop_last().skip(upto as int));
        assert(late.last() == log.last());
    }
}

/// A plugin can be installed exactly where it may be in a scope of this kind, the root being the one
/// scope without a parent, and no plugin of its name was entered. Else the error says which of the
/// two it was, the kind of scope first.
pub proof fn a_plugin_is_refused_by_place_or_by_name<H: Host>(
    builder: Builder<H>,
    name: Seq<char>,
    scope: PluginScope,
    error: Error<H::Cause>,
)
    ensures
        ({
            let placed = match scope {
                PluginScope::Any => true,
                PluginScope::Root => builder.parent is None,
                PluginScope::Child => builder.parent is Some,
            };
            let taken = exists|k: int|
                0 <= k < builder.declared@.len() && (#[trigger] builder.declared@[k])@ == name;
            &&& builder.accepts(name, scope) <==> placed && !taken
            &&& builder.refusal(name, scope, error) ==> {
                &&& error.phase == Phase::Build
                &&& error.plugin is None
                &&& error.source is None
                &&& !placed ==> (error.kind matches ErrorKind::PluginScopeMismatch {
                    plugin_name,
                    expected,
                    actual,
                } && plugin_name@ == name && expected == scope && (actual == PluginScope::Root
                    <==> builder.parent is None) && actual != PluginScope::Any)
                &&& placed ==> (error.kind matches ErrorKind::PluginNameAlreadyRegistered(n) && n@
                    == name)
            }
        }),
{
}

/// What is left unchanged is so in all that was assembled, down to the log, the numbering of handlers
/// and the place of the scope.
pub proof fn what_is_unchanged_is_so_in_all<H: Host>(before: Builder<H>, after: Builder<H>)
    requires
        after.unchanged(before),
    ensures
        after.context_id == before.context_id,
        after.parent == before.parent,
        after.lease == before.lease,
        after.services@ == before.services@,
        after.handlers@ == before.handlers@,
        after.next_subscription_id == before.next_subscription_id,
        after.declared@ == before.declared@,
        after.plugins@ == before.plugins@,
        after.ready@ == before.ready@,
        after.dispose@ == before.dispose@,
        after.closing.hooks@ == before.closing.hooks@,
        after.closing.dispatch == before.closing.dispatch,
        after.closing.dispatched_upto == before.closing.dispatched_upto,
        after.closing.chained == before.closing.chained,
        after.closing.cutoff_reported == before.closing.cutoff_reported,
        after.closing.errors@ == before.closing.errors@,
        after.undo@ == before.undo@,
{
    assert(after.services@ == after.assembly().services);
    assert(after.handlers@ == after.assembly().handlers);
    assert(after.declared@ == after.assembly().declared);
    assert(after.plugins@ == after.assembly().plugins);
    assert(after.ready@ == after.assembly().ready);
    assert(after.dispose@ == after.assembly().dispose);
    assert(after.closing.hooks@ == after.assembly().closing);
}

/// What extends an assembly can be taken back to it: the log begins with the log that it had, and
/// rolling back to there gives the assembly that it was. Its place does not change, and ids of
/// closing hooks are not used again.
pub proof fn an_extension_can_be_taken_back<H: Host>(before: Builder<H>, after: Builder<H>)
    requires
        after.extends(before),
    ensures
        after.context_id == before.context_id,
        after.parent == before.parent,
        after.lease == before.lease,
        after.closing.next_id >= before.closing.next_id,
        after.closing.dispatch == before.closing.dispatch,
        after.closing.dispatched_upto == before.closing.dispatched_upto,
        after.closing.chained == before.closing.chained,
        after.closing.cutoff_reported == before.closing.cutoff_reported,
        after.closing.errors@ == before.closing.errors@,
        before.undo@.len() <= after.undo@.len(),
        after.undo@.take(before.undo@.len() as int) == before.undo@,
        after.undo@.skip(before.undo@.len() as int).fold_right(
            |op: UndoOp<H::Handler>, reached: Assembly<H>| reached.undone(op),
            after.assembly(),
        ) == before.assembly(),
{
    a_rollback_takes_back_the_last_step_first(
        after.assembly(),
        after.undo@,
        before.undo@.len(),
    );
}

/// Entering a plugin's name, or providing a value, is one entry more and changes nothing else; taking
/// it back is the last step of the log.
pub proof fn an_entry_is_one_more_and_no_other<H: Host>(
    before: Builder<H>,
    after: Builder<H>,
    name: &'static str,
    key: ServiceKey,
    value: H::Value,
)
    ensures
        after.declares(before, name) ==> {
            &&& after.declared@ == before.declared@.push(name)
            &&& after.undo@ == before.undo@.push(UndoOp::PopPluginName)
            &&& after.services@ == before.services@
        },
        after.provides(before, key, value) ==> {
            &&& after.services@.values == before.services@.values.insert(key.id, value)
            &&& after.services@.factories == before.services@.factories
            &&& after.services@.collections == before.services@.collections
            &&& after.undo@ == before.undo@.push(UndoOp::RemoveService(key.id))
            &&& after.declared@ == before.declared@
        },
        after.declares(before, name) || after.provides(before, key, value) ==> {
            &&& after.context_id == before.context_id
            &&& after.parent == before.parent
            &&& after.lease == before.lease
            &&& after.handlers@ == before.handlers@
            &&& after.plugins@ == before.plugins@
            &&& after.ready@ == before.ready@
            &&& after.dispose@ == before.dispose@
            &&& after.closing == before.closing
            &&& after.next_subscription_id == before.next_subscription_id
        },
{
    an_assembly_is_what_the_tables_hold(before);
    an_assembly_is_what_the_tables_hold(after);
}

/// A plugin is installed exactly where applying it succeeds: then it stands last among the plugins,
/// beside all that it assembled. Where applying it fails, that error is passed on, under the phase of
/// applying and with the plugin's name unless it names one, and all tables are as they were.
pub proof fn a_plugin_is_installed_whole_or_not_at_all<H: Host>(
    before: Builder<H>,
    reached: Builder<H>,
    applied: Result<(), Error<H::Cause>>,
    plugin: H::Plugin,
    info: PluginInfo,
    after: Builder<H>,
    result: Result<(), Error<H::Cause>>,
)
    requires
        Builder::installs(before, reached, applied, plugin, info, after, result),
    ensures
        result is Ok <==> applied is Ok,
        applied is Ok ==> {
            &&& after.plugins@ == reached.plugins@.push(PluginRecord { plugin, info })
            &&& after.undo@ == reached.undo@.push(UndoOp::PopPlugin)
            &&& after.declared@ == reached.declared@
            &&& after.services@ == reached.services@
            &&& after.handlers@ == reached.handlers@
            &&& after.ready@ == reached.ready@
            &&& after.dispose@ == reached.dispose@
            &&& after.closing == reached.closing
            &&& after.context_id == reached.context_id
            &&& after.parent == reached.parent
            &&& after.lease == reached.lease
            &&& after.next_subscription_id == reached.next_subscription_id
        },
        applied matches Err(cause) ==> {
            &&& result matches Err(error) && error.phase == Phase::Apply && error.kind == cause.kind
                && error.source == cause.source && error.plugin == (if cause.plugin is Some {
                cause.plugin
            } else {
                Some(info.name)
            })
            &&& after.plugins@ == before.plugins@
            &&& after.declared@ == before.declared@
            &&& after.services@ == before.services@
            &&& after.handlers@ == before.handlers@
            &&& after.ready@ == before.ready@
            &&& after.dispose@ == before.dispose@
            &&& after.closing.hooks@ == before.closing.hooks@
            &&& after.closing.next_id == reached.closing.next_id
            &&& after.undo@ == before.undo@
            &&& after.next_subscription_id == before.next_subscription_id
            &&& after.context_id == before.context_id
            &&& after.parent == before.parent
            &&& after.lease == before.lease
        },
{
    an_assembly_is_what_the_tables_hold(before);
    an_assembly_is_what_the_tables_hold(reached);
    an_assembly_is_what_the_tables_hold(after);
    if applied is Err {
        what_is_unchanged_is_so_in_all(before, after);
    }
}

/// A subscription is one of a scope's exactly where it was made there and a handler of its number is
/// still in the table. The handler that it stands for is the first of that number.
pub proof fn a_subscription_stands_for_one_handler<H: Host>(
    builder: Builder<H>,
    subscription: Subscription,
    i: int,
    j: int,
)
    ensures
        builder.subscribed(subscription) <==> subscription.context_id == builder.context_id
            && exists|k: int|
            0 <= k < builder.handlers@.len() && (#[trigger] builder.handlers@[k]).id
                == subscription.handler_id,
        builder.first_handler(subscription.handler_id, i) ==> 0 <= i < builder.handlers@.len()
            && builder.handlers@[i].id == subscription.handler_id,
        builder.first_handler(subscription.handler_id, i) && 0 <= j < builder.handlers@.len()
            && builder.handlers@[j].id == subscription.handler_id ==> i <= j,
{
    if exists|k: int|
        0 <= k < builder.handlers@.len() && (#[trigger] builder.handlers@[k]).id
            == subscription.handler_id {
        let k = choose|k: int|
            0 <= k < builder.handlers@.len() && (#[trigger] builder.handlers@[k]).id
                == subscription.handler_id;
        lemma_first_handler(builder, subscription.handler_id, k);
    }
}

proof fn lemma_first_handler<H: Host>(builder: Builder<H>, id: usize, k: int)
    requires
        0 <= k < builder.handlers@.len(),
        builder.handlers@[k].id == id,
    ensures
        exists|index: int| #[trigger] builder.first_handler(id, index),
    decreases k,
{
    if exists|j: int| 0 <= j < k && (#[trigger] builder.handlers@[j]).id == id {
        let j = choose|j: int| 0 <= j < k && (#[trigger] builder.handlers@[j]).id == id;
        lemma_first_handler(builder, id, j);
    } else {
        assert(builder.first_handler(id, k));
    }
}

/// In a scope of which nothing was assembled yet, no slot is taken, no name is entered and every
/// table is empty.
pub proof fn an_empty_scope_holds_nothing<H: Host>(builder: Builder<H>, id: u64)
    requires
        builder.is_empty(),
    ensures
        !builder.services@.values.contains_key(id),
        !builder.services@.factories.contains_key(id),
        !builder.services@.collections.contains_key(id),
        builder.handlers@.len() == 0,
        builder.next_subscription_id == 0,
        builder.declared@.len() == 0,
        builder.plugins@.len() == 0,
        builder.ready@.len() == 0,
        builder.dispose@.len() == 0,
        builder.undo@.len() == 0,
        builder.closing.hooks@.len() == 0,
        builder.closing.next_id == 0,
        builder.closing.errors@.len() == 0,
{
}

/// The scope that was built.
pub open spec fn scope_of<H: Host>(built: Built<H>) -> Data<H> {
    *built.runtime.ctx.inner
}

/// What is built is what was assembled: the scope has its place, its services, its plugins, hooks and
/// lease; its plugins are known by their names in order, its handlers by the type of their events;
/// nothing was started, and it takes notifications.
pub proof fn what_is_built_is_what_was_assembled<H: Host>(
    built: Built<H>,
    builder: Builder<H>,
    schedule: Schedule,
    i: int,
    event: u64,
)
    requires
        built.made_from(builder, schedule),
    ensures
        scope_of(built).context_id == builder.context_id,
        scope_of(built).parent == builder.parent,
        scope_of(built).services == builder.services,
        scope_of(built).plugin_names@.len() == builder.plugins@.len(),
        0 <= i < builder.plugins@.len() ==> scope_of(built).plugin_names@[i]
            == builder.plugins@[i].info.name,
        built.runtime.plugins == builder.plugins,
        built.runtime.ready == builder.ready,
        built.runtime.dispose == builder.dispose,
        built.runtime.lease == builder.lease,
        built.runtime.schedule == schedule,
        built.runtime.started@.len() == 0,
        built.runtime.start_error is None,
        built.runtime.cleanup is None,
        !built.runtime.active,
        built.closing == builder.closing,
        built.notify.lanes@.len() == builder.handlers@.len(),
        !built.notify.closed,
        built.notify.built_from(builder.handlers@),
        crate::event::grouped(builder.handlers@, scope_of(built).handlers_by_type@),
{
}

/// A step in the assembly is one entry more in the log; taking it back gives what was there before,
/// and the place of the scope stays.
pub proof fn a_step_can_be_taken_back<H: Host>(
    before: Builder<H>,
    op: UndoOp<H::Handler>,
    after: Builder<H>,
)
    requires
        after.one_step(before, op),
    ensures
        after.undo@ == before.undo@.push(op),
        after.assembly().undone(op) == before.assembly(),
        after.context_id == before.context_id,
        after.parent == before.parent,
        after.lease == before.lease,
        after.closing.next_id >= before.closing.next_id,
        after.closing.dispatch == before.closing.dispatch,
        after.closing.dispatched_upto == before.closing.dispatched_upto,
        after.closing.chained == before.closing.chained,
        after.closing.cutoff_reported == before.closing.cutoff_reported,
        after.closing.errors@ == before.closing.errors@,
{
}

} // verus!
