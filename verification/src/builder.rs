//! The assembly of a scope: registering services, plugins, hooks and handlers, with a log that can
//! take back everything since a checkpoint.

use std::sync::Arc;

use vstd::prelude::*;

use crate::closing::{ClosingEntry, ClosingHooks};
use crate::context::{Context, Data, Host};
use crate::error::{Error, ErrorKind, Phase};
use crate::event::{HandlerEntry, Subscription};
use crate::id::{ScopeId, ScopeIds};
use crate::plugin::{PluginScope, ServiceKey};
use crate::schedule::{
    compute_schedule, contains_name, find_plugin, PluginInfo, PluginRecord, Schedule,
};
use crate::scope::ScopeCore;
use crate::service::{Found, FoundMut, ServiceRegistry, Services};

verus! {

/// One step back in the assembly of a scope.
pub enum UndoOp<K> {
    RemoveService(u64),
    RemoveFactory(u64),
    PopCollection(u64),
    PopHandler,
    /// Puts a handler that was taken out back where it was.
    RestoreHandler { index: usize, handler: HandlerEntry<K> },
    PopPlugin,
    PopPluginName,
    PopReady,
    PopDispose,
    PopClosingHook,
}

/// A point in the assembly of a scope to which it can be taken back.
#[derive(Debug, Clone, Copy)]
pub struct Checkpoint {
    pub undo: usize,
    pub next_subscription_id: usize,
}

/// What has been assembled.
#[verifier::ext_equal]
pub struct Assembly<H: Host> {
    pub services: Services<H::Value, H::Factory>,
    pub handlers: Seq<HandlerEntry<H::Handler>>,
    pub plugins: Seq<PluginRecord<H::Plugin>>,
    /// The names of the plugins that are installed or being installed.
    pub declared: Seq<&'static str>,
    pub ready: Seq<H::Hook>,
    pub dispose: Seq<H::Hook>,
    pub closing: Seq<ClosingEntry<H::CloseHook>>,
}

impl<H: Host> Assembly<H> {
    /// The assembly one step back.
    pub open spec fn undone(self, op: UndoOp<H::Handler>) -> Self {
        match op {
            UndoOp::RemoveService(id) => Assembly {
                services: Services { values: self.services.values.remove(id), ..self.services },
                ..self
            },
            UndoOp::RemoveFactory(id) => Assembly {
                services: Services {
                    factories: self.services.factories.remove(id),
                    ..self.services
                },
                ..self
            },
            UndoOp::PopCollection(id) => Assembly {
                services: self.services.uncollect(id),
                ..self
            },
            UndoOp::PopHandler => Assembly { handlers: popped(self.handlers), ..self },
            UndoOp::RestoreHandler { index, handler } => Assembly {
                handlers: self.handlers.insert(index as int, handler),
                ..self
            },
            UndoOp::PopPlugin => Assembly { plugins: popped(self.plugins), ..self },
            UndoOp::PopPluginName => Assembly { declared: popped(self.declared), ..self },
            UndoOp::PopReady => Assembly { ready: popped(self.ready), ..self },
            UndoOp::PopDispose => Assembly { dispose: popped(self.dispose), ..self },
            UndoOp::PopClosingHook => Assembly { closing: popped(self.closing), ..self },
        }
    }

    /// The assembly after the steps of `log` from position `upto` on were taken back, the last
    /// one first.
    pub open spec fn rolled_back(self, log: Seq<UndoOp<H::Handler>>, upto: nat) -> Self
        decreases log.len(),
    {
        if log.len() <= upto {
            self
        } else {
            self.undone(log.last()).rolled_back(log.drop_last(), upto)
        }
    }

    /// Whether every step back in `log` that puts a handler back has a place to put it.
    pub open spec fn replayable(self, log: Seq<UndoOp<H::Handler>>) -> bool
        decreases log.len(),
    {
        log.len() == 0 || {
            &&& log.last() matches UndoOp::RestoreHandler { index, .. } ==> index
                <= self.handlers.len()
            &&& self.undone(log.last()).replayable(log.drop_last())
        }
    }
}

/// A sequence without its last item; empty where there is none.
pub open spec fn popped<T>(s: Seq<T>) -> Seq<T> {
    if s.len() == 0 {
        s
    } else {
        s.drop_last()
    }
}

/// A scope that is being assembled.
pub struct Builder<H: Host> {
    pub context_id: ScopeId,
    pub parent: Option<Arc<Data<H>>>,
    pub services: ServiceRegistry<H::Value, H::Factory>,
    pub handlers: Vec<HandlerEntry<H::Handler>>,
    pub next_subscription_id: usize,
    /// The names of the plugins that are installed or being installed. A name is entered before
    /// the plugin is applied, so that a plugin that it registers in turn cannot take the name.
    pub declared: Vec<&'static str>,
    pub plugins: Vec<PluginRecord<H::Plugin>>,
    pub ready: Vec<H::Hook>,
    pub dispose: Vec<H::Hook>,
    pub closing: ClosingHooks<H::CloseHook, H::Cause>,
    /// The lease on the enclosing scope; `None` at the root.
    pub lease: Option<ScopeId>,
    /// How to take back what was assembled.
    pub undo: Vec<UndoOp<H::Handler>>,
}

impl<H: Host> Builder<H> {
    /// What has been assembled.
    pub open spec fn assembly(self) -> Assembly<H> {
        Assembly {
            services: self.services@,
            handlers: self.handlers@,
            plugins: self.plugins@,
            declared: self.declared@,
            ready: self.ready@,
            dispose: self.dispose@,
            closing: self.closing.hooks@,
        }
    }

    /// The registries are well-formed, and the log can be replayed.
    pub open spec fn wf(self) -> bool {
        &&& self.services.wf()
        &&& self.closing.wf()
        &&& self.parent matches Some(outer) ==> outer.wf()
        &&& self.assembly().replayable(self.undo@)
    }

    /// Whether this is the same scope as `before`, as far as it is not assembled.
    pub open spec fn same_scope(self, before: Self) -> bool {
        &&& self.context_id == before.context_id
        &&& self.parent == before.parent
        &&& self.lease == before.lease
        &&& self.closing.same_dispatch(before.closing)
    }

    /// Whether the assembly was `before` at some point, and the log leads back there. Ids of
    /// closing hooks only grow.
    pub open spec fn extends(self, before: Self) -> bool {
        &&& self.same_scope(before)
        &&& before.closing.next_id <= self.closing.next_id
        &&& before.undo@.len() <= self.undo@.len()
        &&& self.undo@.take(before.undo@.len() as int) == before.undo@
        &&& self.assembly().rolled_back(self.undo@, before.undo@.len()) == before.assembly()
    }

    /// Whether this is `before` with one step more, and `op` takes that step back.
    pub open spec fn one_step(self, before: Self, op: UndoOp<H::Handler>) -> bool {
        &&& self.same_scope(before)
        &&& before.closing.next_id <= self.closing.next_id
        &&& self.undo@ == before.undo@.push(op)
        &&& self.assembly().undone(op) == before.assembly()
    }

    /// An empty root scope.
    pub fn new(context_id: ScopeId) -> (builder: Self)
        ensures
            builder.wf(),
            builder.context_id == context_id,
            builder.parent is None,
            builder.lease is None,
            builder.is_empty(),
    {
        Builder {
            context_id,
            parent: None,
            services: ServiceRegistry::new(),
            handlers: Vec::new(),
            next_subscription_id: 0,
            declared: Vec::new(),
            plugins: Vec::new(),
            ready: Vec::new(),
            dispose: Vec::new(),
            closing: ClosingHooks::new(),
            lease: None,
            undo: Vec::new(),
        }
    }

    /// Whether nothing was assembled yet.
    pub open spec fn is_empty(self) -> bool {
        &&& self.services@ == (Services::<H::Value, H::Factory> {
            values: Map::empty(),
            factories: Map::empty(),
            collections: Map::empty(),
        })
        &&& self.handlers@.len() == 0
        &&& self.next_subscription_id == 0
        &&& self.declared@.len() == 0
        &&& self.plugins@.len() == 0
        &&& self.ready@.len() == 0
        &&& self.dispose@.len() == 0
        &&& self.closing.fresh()
        &&& self.undo@.len() == 0
    }

    /// An empty scope inside `parent`, which has given the scope a lease.
    pub fn child(parent: Arc<Data<H>>, context_id: ScopeId) -> (builder: Self)
        requires
            parent.wf(),
        ensures
            builder.wf(),
            builder.context_id == context_id,
            builder.parent == Some(parent),
            builder.lease == Some(context_id),
            builder.is_empty(),
    {
        Builder {
            context_id,
            parent: Some(parent),
            services: ServiceRegistry::new(),
            handlers: Vec::new(),
            next_subscription_id: 0,
            declared: Vec::new(),
            plugins: Vec::new(),
            ready: Vec::new(),
            dispose: Vec::new(),
            closing: ClosingHooks::new(),
            lease: Some(context_id),
            undo: Vec::new(),
        }
    }

    /// An empty scope inside the scope of `ctx`, with the next id of `ids`, unless that scope takes
    /// no new work any more. `core` is its state, and gives the new scope its lease.
    pub fn scope<W>(ctx: &Context<H>, core: &mut ScopeCore<W>, ids: &mut ScopeIds) -> (result: Result<
        Builder<H>,
        Error<H::Cause>,
    >)
        requires
            ctx.inner.wf(),
            old(core).wf(),
        ensures
            final(core).wf(),
            final(core).same_life(*old(core)),
            final(core).same_signals(*old(core)),
            final(ids).next == if old(ids).next == usize::MAX {
                0
            } else {
                old(ids).next + 1
            },
            match result {
                Ok(builder) => {
                    &&& !old(core).lifecycle.shutting_down()
                    &&& builder.wf()
                    &&& builder.is_empty()
                    &&& builder.context_id == ScopeId(old(ids).next)
                    &&& builder.parent == Some(ctx.inner)
                    &&& builder.lease == Some(builder.context_id)
                    &&& final(core).leases() == old(core).leases().insert(builder.context_id)
                },
                Err(error) => {
                    &&& old(core).lifecycle.shutting_down()
                    &&& error == Error::<H::Cause>::plain(Phase::Build, ErrorKind::Stopping)
                    &&& final(core).children == old(core).children
                },
            },
    {
        let id = ids.allocate();
        if core.acquire_lease(id) {
            Ok(Builder::child(ctx.inner.clone(), id))
        } else {
            Err(Error::new(Phase::Build, ErrorKind::Stopping))
        }
    }

    /// The number of enclosing scopes.
    pub fn depth(&self) -> (depth: usize)
        requires
            self.parent matches Some(outer) ==> outer.depth_is() < usize::MAX,
        ensures
            depth == match self.parent {
                Some(outer) => 1 + outer.depth_is(),
                None => 0,
            },
    {
        match &self.parent {
            Some(outer) => outer.depth() + 1,
            None => 0,
        }
    }

    /// Whether this is a root scope.
    pub fn is_root(&self) -> (root: bool)
        ensures
            root == (self.parent is None),
    {
        self.parent.is_none()
    }

    /// The scope's id.
    pub fn id(&self) -> (id: ScopeId)
        ensures
            id == self.context_id,
    {
        self.context_id
    }

    /// The point that the assembly has reached.
    pub fn checkpoint(&self) -> (checkpoint: Checkpoint)
        ensures
            checkpoint.undo == self.undo@.len(),
            checkpoint.next_subscription_id == self.next_subscription_id,
    {
        Checkpoint { undo: self.undo.len(), next_subscription_id: self.next_subscription_id }
    }

    /// Takes back, the last one first, all steps since a checkpoint.
    pub fn rollback(&mut self, checkpoint: Checkpoint)
        requires
            old(self).wf(),
            checkpoint.undo <= old(self).undo@.len(),
        ensures
            final(self).wf(),
            final(self).same_scope(*old(self)),
            final(self).assembly() == old(self).assembly().rolled_back(
                old(self).undo@,
                checkpoint.undo as nat,
            ),
            final(self).undo@ == old(self).undo@.take(checkpoint.undo as int),
            final(self).next_subscription_id == checkpoint.next_subscription_id,
            final(self).closing.next_id == old(self).closing.next_id,
    {
        let ghost target = self.assembly().rolled_back(self.undo@, checkpoint.undo as nat);
        let ghost log = self.undo@;
        while self.undo.len() > checkpoint.undo
            invariant
                self.wf(),
                self.same_scope(*old(self)),
                checkpoint.undo <= self.undo@.len() <= log.len(),
                self.undo@ == log.take(self.undo@.len() as int),
                self.assembly().rolled_back(self.undo@, checkpoint.undo as nat) == target,
                self.closing.next_id == old(self).closing.next_id,
            decreases self.undo@.len(),
        {
            let ghost before = *self;
            let ghost last = self.undo@.last();
            let popped_op = self.undo.pop();
            assert(self.undo@ =~= before.undo@.drop_last());
            match popped_op {
                None => {},
                Some(op) => {
                    assert(op == last);
                    match op {
                        UndoOp::RemoveService(id) => {
                            self.services.remove_service_key(id);
                        },
                        UndoOp::RemoveFactory(id) => {
                            self.services.remove_factory_key(id);
                        },
                        UndoOp::PopCollection(id) => {
                            self.services.pop_collection(id);
                        },
                        UndoOp::PopHandler => {
                            self.handlers.pop();
                            assert(self.handlers@ =~= popped(before.handlers@));
                        },
                        UndoOp::RestoreHandler { index, handler } => {
                            self.handlers.insert(index, handler);
                        },
                        UndoOp::PopPlugin => {
                            self.plugins.pop();
                            assert(self.plugins@ =~= popped(before.plugins@));
                        },
                        UndoOp::PopPluginName => {
                            self.declared.pop();
                            assert(self.declared@ =~= popped(before.declared@));
                        },
                        UndoOp::PopReady => {
                            self.ready.pop();
                            assert(self.ready@ =~= popped(before.ready@));
                        },
                        UndoOp::PopDispose => {
                            self.dispose.pop();
                            assert(self.dispose@ =~= popped(before.dispose@));
                        },
                        UndoOp::PopClosingHook => {
                            self.closing.undeclare();
                            assert(self.closing.hooks@ =~= popped(before.closing.hooks@));
                        },
                    }
                },
            }
            assert(self.assembly() =~= before.assembly().undone(last));
            assert(self.undo@ =~= log.take(self.undo@.len() as int));
        }
        self.next_subscription_id = checkpoint.next_subscription_id;
    }
}

proof fn lemma_rolled_back_composes<H: Host>(
    assembly: Assembly<H>,
    log: Seq<UndoOp<H::Handler>>,
    far: nat,
    near: nat,
)
    requires
        far <= near <= log.len(),
    ensures
        assembly.rolled_back(log, far) == assembly.rolled_back(log, near).rolled_back(
            log.take(near as int),
            far,
        ),
    decreases log.len(),
{
    if log.len() == near {
        assert(log.take(near as int) =~= log);
    } else {
        let rest = log.drop_last();
        assert(rest.take(near as int) =~= log.take(near as int));
        lemma_rolled_back_composes(assembly.undone(log.last()), rest, far, near);
    }
}

proof fn lemma_replayable_by_handlers<H: Host>(
    one: Assembly<H>,
    other: Assembly<H>,
    log: Seq<UndoOp<H::Handler>>,
)
    requires
        one.handlers == other.handlers,
        one.replayable(log),
    ensures
        other.replayable(log),
    decreases log.len(),
{
    if log.len() > 0 {
        lemma_replayable_by_handlers(one.undone(log.last()), other.undone(log.last()), log.drop_last());
    }
}

/// Every assembly extends itself.
pub proof fn extends_itself<H: Host>(builder: Builder<H>)
    ensures
        builder.extends(builder),
{
    assert(builder.undo@.take(builder.undo@.len() as int) =~= builder.undo@);
}

/// Steps add up: what extends an extension of an assembly extends that assembly.
pub proof fn extensions_add_up<H: Host>(first: Builder<H>, second: Builder<H>, third: Builder<H>)
    requires
        second.extends(first),
        third.extends(second),
    ensures
        third.extends(first),
{
    let far = first.undo@.len();
    let near = second.undo@.len();
    lemma_rolled_back_composes(third.assembly(), third.undo@, far, near);
    assert(third.undo@.take(far as int) =~= second.undo@.take(far as int));
}

/// One step is an extension, and a log that could be replayed still can.
pub proof fn one_step_extends<H: Host>(
    before: Builder<H>,
    after: Builder<H>,
    op: UndoOp<H::Handler>,
)
    requires
        before.assembly().replayable(before.undo@),
        after.one_step(before, op),
        op matches UndoOp::RestoreHandler { index, .. } ==> index <= after.handlers@.len(),
    ensures
        after.extends(before),
        after.assembly().replayable(after.undo@),
{
    assert(after.undo@.drop_last() =~= before.undo@);
    assert(after.undo@.take(before.undo@.len() as int) =~= before.undo@);
    let back = after.assembly().undone(op);
    assert(back.rolled_back(before.undo@, before.undo@.len()) == back);
}

/// Rolling back to a checkpoint gives back the assembly as it was when the checkpoint was taken,
/// whatever was registered in between, nested plugins and unsubscribed handlers included.
pub proof fn rollback_restores_the_checkpoint<H: Host>(
    at_checkpoint: Builder<H>,
    later: Builder<H>,
    restored: Builder<H>,
)
    requires
        later.extends(at_checkpoint),
        restored.assembly() == later.assembly().rolled_back(
            later.undo@,
            at_checkpoint.undo@.len(),
        ),
        restored.undo@ == later.undo@.take(at_checkpoint.undo@.len() as int),
    ensures
        restored.assembly() == at_checkpoint.assembly(),
        restored.undo@ == at_checkpoint.undo@,
{
}

impl<H: Host> Builder<H> {
    /// Provides a service value.
    pub fn provide(&mut self, key: ServiceKey, value: H::Value) -> (result: Result<
        (),
        Error<H::Cause>,
    >)
        requires
            old(self).wf(),
        ensures
            final(self).wf(),
            final(self).extends(*old(self)),
            result is Err <==> old(self).services@.has_slot(key.id),
            result matches Err(error) ==> error.says_taken(key.name@) && final(self).undo@ == old(self).undo@ && final(self).assembly() == old(self).assembly(),
            result is Ok ==> {
                &&& final(self).one_step(*old(self), UndoOp::RemoveService(key.id))
                &&& final(self).assembly() == (Assembly {
                    services: Services {
                        values: old(self).services@.values.insert(key.id, value),
                        ..old(self).services@
                    },
                    ..old(self).assembly()
                })
            },
            final(self).next_subscription_id == old(self).next_subscription_id,
            final(self).closing == old(self).closing,
    {
        let result = self.services.provide(key, value);
        match result {
            Err(error) => {
                assert(self.assembly() =~= old(self).assembly());
                proof {
                    extends_itself(*old(self));
                }
                Err(error)
            },
            Ok(()) => {
                self.undo.push(UndoOp::RemoveService(key.id));
                proof {
                    let back = self.assembly().undone(UndoOp::RemoveService(key.id));
                    assert(back.services.values =~= old(self).services@.values);
                    assert(back =~= old(self).assembly());
                    one_step_extends(*old(self), *self, UndoOp::RemoveService(key.id));
                }
                Ok(())
            },
        }
    }

    /// Provides a factory of a service value.
    pub fn provide_factory(&mut self, key: ServiceKey, factory: H::Factory) -> (result: Result<
        (),
        Error<H::Cause>,
    >)
        requires
            old(self).wf(),
        ensures
            final(self).wf(),
            final(self).extends(*old(self)),
            result is Err <==> old(self).services@.has_slot(key.id),
            result matches Err(error) ==> error.says_taken(key.name@) && final(self).undo@ == old(self).undo@ && final(self).assembly() == old(self).assembly(),
            result is Ok ==> {
                &&& final(self).one_step(*old(self), UndoOp::RemoveFactory(key.id))
                &&& final(self).assembly() == (Assembly {
                    services: Services {
                        factories: old(self).services@.factories.insert(key.id, factory),
                        ..old(self).services@
                    },
                    ..old(self).assembly()
                })
            },
            final(self).next_subscription_id == old(self).next_subscription_id,
            final(self).closing == old(self).closing,
    {
        let result = self.services.provide_factory(key, factory);
        match result {
            Err(error) => {
                assert(self.assembly() =~= old(self).assembly());
                proof {
                    extends_itself(*old(self));
                }
                Err(error)
            },
            Ok(()) => {
                self.undo.push(UndoOp::RemoveFactory(key.id));
                proof {
                    let back = self.assembly().undone(UndoOp::RemoveFactory(key.id));
                    assert(back.services.factories =~= old(self).services@.factories);
                    assert(back =~= old(self).assembly());
                    one_step_extends(*old(self), *self, UndoOp::RemoveFactory(key.id));
                }
                Ok(())
            },
        }
    }

    /// Adds a value to a collection. This always succeeds.
    pub fn provide_collect(&mut self, key: ServiceKey, value: H::Value) -> (result: Result<
        (),
        Error<H::Cause>,
    >)
        requires
            old(self).wf(),
        ensures
            final(self).wf(),
            final(self).extends(*old(self)),
            result is Ok,
            final(self).one_step(*old(self), UndoOp::PopCollection(key.id)),
            final(self).assembly() == (Assembly {
                services: old(self).services@.collect(key.id, value),
                ..old(self).assembly()
            }),
            final(self).next_subscription_id == old(self).next_subscription_id,
            final(self).closing == old(self).closing,
    {
        let result = self.services.provide_collect(key, value);
        self.undo.push(UndoOp::PopCollection(key.id));
        proof {
            if old(self).services@.collections.contains_key(key.id) {
                assert(old(self).services.collections@.contains_key(key.id));
            }
            crate::service::uncollect_undoes_collect(old(self).services@, key.id, value);
            assert(self.assembly().undone(UndoOp::PopCollection(key.id)) =~= old(self).assembly());
            one_step_extends(*old(self), *self, UndoOp::PopCollection(key.id));
        }
        result
    }

    /// Registers a hook that runs when the scope is ready.
    pub fn on_ready(&mut self, hook: H::Hook) -> (result: Result<(), Error<H::Cause>>)
        requires
            old(self).wf(),
        ensures
            final(self).wf(),
            final(self).extends(*old(self)),
            result is Ok,
            final(self).one_step(*old(self), UndoOp::PopReady),
            final(self).assembly() == (Assembly {
                ready: old(self).ready@.push(hook),
                ..old(self).assembly()
            }),
            final(self).next_subscription_id == old(self).next_subscription_id,
            final(self).closing == old(self).closing,
    {
        self.ready.push(hook);
        self.undo.push(UndoOp::PopReady);
        proof {
            assert(self.ready@.drop_last() =~= old(self).ready@);
            assert(self.assembly().undone(UndoOp::PopReady) =~= old(self).assembly());
            one_step_extends(*old(self), *self, UndoOp::PopReady);
        }
        Ok(())
    }

    /// Registers a hook that runs when the scope is disposed of.
    pub fn on_dispose(&mut self, hook: H::Hook) -> (result: Result<(), Error<H::Cause>>)
        requires
            old(self).wf(),
        ensures
            final(self).wf(),
            final(self).extends(*old(self)),
            result is Ok,
            final(self).one_step(*old(self), UndoOp::PopDispose),
            final(self).assembly() == (Assembly {
                dispose: old(self).dispose@.push(hook),
                ..old(self).assembly()
            }),
            final(self).next_subscription_id == old(self).next_subscription_id,
            final(self).closing == old(self).closing,
    {
        self.dispose.push(hook);
        self.undo.push(UndoOp::PopDispose);
        proof {
            assert(self.dispose@.drop_last() =~= old(self).dispose@);
            assert(self.assembly().undone(UndoOp::PopDispose) =~= old(self).assembly());
            one_step_extends(*old(self), *self, UndoOp::PopDispose);
        }
        Ok(())
    }

    /// Registers a hook that runs when the scope begins to close.
    pub fn on_closing(&mut self, hook: Arc<H::CloseHook>) -> (result: Result<(), Error<H::Cause>>)
        requires
            old(self).wf(),
            old(self).closing.next_id < usize::MAX,
        ensures
            final(self).wf(),
            final(self).extends(*old(self)),
            result is Ok,
            final(self).one_step(*old(self), UndoOp::PopClosingHook),
            final(self).assembly() == (Assembly {
                closing: old(self).closing.hooks@.push(
                    (ClosingEntry { id: old(self).closing.next_id, hook }),
                ),
                ..old(self).assembly()
            }),
            final(self).closing.next_id == old(self).closing.next_id + 1,
            final(self).next_subscription_id == old(self).next_subscription_id,
    {
        self.closing.declare(hook);
        self.undo.push(UndoOp::PopClosingHook);
        proof {
            assert(self.closing.hooks@.drop_last() =~= old(self).closing.hooks@);
            assert(self.assembly().undone(UndoOp::PopClosingHook) =~= old(self).assembly());
            one_step_extends(*old(self), *self, UndoOp::PopClosingHook);
        }
        Ok(())
    }

    /// Registers an event handler for the event type numbered `event`.
    pub fn on(&mut self, event: u64, handler: Arc<H::Handler>) -> (result: Result<
        Subscription,
        Error<H::Cause>,
    >)
        requires
            old(self).wf(),
            old(self).next_subscription_id < usize::MAX,
        ensures
            final(self).wf(),
            final(self).extends(*old(self)),
            result == Ok::<Subscription, Error<H::Cause>>(
                Subscription {
                    context_id: old(self).context_id,
                    handler_id: old(self).next_subscription_id,
                },
            ),
            final(self).one_step(*old(self), UndoOp::PopHandler),
            final(self).assembly() == (Assembly {
                handlers: old(self).handlers@.push(
                    (HandlerEntry { id: old(self).next_subscription_id, event, handler }),
                ),
                ..old(self).assembly()
            }),
            final(self).next_subscription_id == old(self).next_subscription_id + 1,
            final(self).closing == old(self).closing,
    {
        let id = self.next_subscription_id;
        self.next_subscription_id = id + 1;
        self.handlers.push(HandlerEntry { id, event, handler });
        self.undo.push(UndoOp::PopHandler);
        proof {
            assert(self.handlers@.drop_last() =~= old(self).handlers@);
            assert(self.assembly().undone(UndoOp::PopHandler) =~= old(self).assembly());
            one_step_extends(*old(self), *self, UndoOp::PopHandler);
        }
        Ok(Subscription { context_id: self.context_id, handler_id: id })
    }

    /// Whether the handler at position `index` is the first with the number `id`.
    pub open spec fn first_handler(self, id: usize, index: int) -> bool {
        &&& 0 <= index < self.handlers@.len()
        &&& self.handlers@[index].id == id
        &&& forall|k: int| 0 <= k < index ==> (#[trigger] self.handlers@[k]).id != id
    }

    /// Whether a subscription is one of this scope's.
    pub open spec fn subscribed(self, subscription: Subscription) -> bool {
        &&& subscription.context_id == self.context_id
        &&& exists|index: int| #[trigger] self.first_handler(subscription.handler_id, index)
    }

    /// Takes out an event handler.
    pub fn off(&mut self, subscription: Subscription) -> (result: Result<(), Error<H::Cause>>)
        requires
            old(self).wf(),
        ensures
            final(self).wf(),
            final(self).extends(*old(self)),
            result is Ok <==> old(self).subscribed(subscription),
            result is Err ==> result == Err::<(), Error<H::Cause>>(
                Error::plain(Phase::Build, ErrorKind::SubscriptionNotFound),
            ) && *final(self) == *old(self),
            result is Ok ==> exists|index: int| #[trigger]
                old(self).first_handler(subscription.handler_id, index) && final(self).one_step(
                    *old(self),
                    UndoOp::RestoreHandler {
                        index: index as usize,
                        handler: old(self).handlers@[index],
                    },
                ) && final(self).assembly() == (Assembly {
                    handlers: old(self).handlers@.remove(index),
                    ..old(self).assembly()
                }),
            final(self).next_subscription_id == old(self).next_subscription_id,
            final(self).closing == old(self).closing,
    {
        if subscription.context_id != self.context_id {
            proof {
                extends_itself(*self);
            }
            return Err(Error::new(Phase::Build, ErrorKind::SubscriptionNotFound));
        }
        let mut index: usize = 0;
        while index < self.handlers.len()
            invariant
                *self == *old(self),
                old(self).wf(),
                index <= self.handlers@.len(),
                subscription.context_id == self.context_id,
                forall|k: int|
                    0 <= k < index ==> (#[trigger] self.handlers@[k]).id != subscription.handler_id,
            decreases self.handlers@.len() - index,
        {
            if self.handlers[index].id == subscription.handler_id {
                assert(self.first_handler(subscription.handler_id, index as int));
                let handler = self.handlers.remove(index);
                let ghost op = UndoOp::RestoreHandler { index, handler };
                self.undo.push(UndoOp::RestoreHandler { index, handler });
                proof {
                    assert(self.handlers@.insert(index as int, handler) =~= old(self).handlers@);
                    assert(self.assembly().undone(op) =~= old(self).assembly());
                    one_step_extends(*old(self), *self, op);
                }
                return Ok(());
            }
            index = index + 1;
        }
        proof {
            extends_itself(*self);
        }
        Err(Error::new(Phase::Build, ErrorKind::SubscriptionNotFound))
    }
}

impl<H: Host> Builder<H> {
    /// The kind of scope this is, as plugins declare it.
    pub open spec fn actual_scope(self) -> PluginScope {
        if self.parent is None {
            PluginScope::Root
        } else {
            PluginScope::Child
        }
    }

    /// Whether a plugin can be installed here: it may be in a scope of this kind, and its name is
    /// free.
    pub open spec fn accepts(self, name: Seq<char>, scope: PluginScope) -> bool {
        scope.admits(self.actual_scope()) && !crate::schedule::has_name(self.declared@, name)
    }

    /// Whether `error` says why a plugin cannot be installed here.
    pub open spec fn refusal(
        self,
        name: Seq<char>,
        scope: PluginScope,
        error: Error<H::Cause>,
    ) -> bool {
        &&& error.phase == Phase::Build
        &&& error.plugin is None
        &&& error.source is None
        &&& if !scope.admits(self.actual_scope()) {
            error.kind matches ErrorKind::PluginScopeMismatch { plugin_name, expected, actual }
                && plugin_name@ == name && expected == scope && actual == self.actual_scope()
        } else {
            error.kind matches ErrorKind::PluginNameAlreadyRegistered(n) && n@ == name
        }
    }

    /// Whether a plugin can be installed here; else why not.
    pub fn check_plugin(&self, name: &'static str, scope: PluginScope) -> (result: Result<
        (),
        Error<H::Cause>,
    >)
        ensures
            result is Ok <==> self.accepts(name@, scope),
            result matches Err(error) ==> self.refusal(name@, scope, error),
    {
        let actual = if self.is_root() {
            PluginScope::Root
        } else {
            PluginScope::Child
        };
        if scope != PluginScope::Any && scope != actual {
            return Err(
                Error::new(
                    Phase::Build,
                    ErrorKind::PluginScopeMismatch {
                        plugin_name: String::from_str(name),
                        expected: scope,
                        actual,
                    },
                ),
            );
        }
        if contains_name(&self.declared, name) {
            return Err(
                Error::new(
                    Phase::Build,
                    ErrorKind::PluginNameAlreadyRegistered(String::from_str(name)),
                ),
            );
        }
        Ok(())
    }

    /// Whether this is `before` after the name of a plugin was entered.
    pub open spec fn declares(self, before: Self, name: &'static str) -> bool {
        &&& self.one_step(before, UndoOp::PopPluginName)
        &&& self.assembly() == (Assembly {
            declared: before.declared@.push(name),
            ..before.assembly()
        })
        &&& self.next_subscription_id == before.next_subscription_id
        &&& self.closing == before.closing
    }

    /// Enters the name of a plugin that is about to be applied.
    fn declare_plugin(&mut self, name: &'static str)
        requires
            old(self).wf(),
        ensures
            final(self).wf(),
            final(self).extends(*old(self)),
            final(self).declares(*old(self), name),
    {
        self.declared.push(name);
        self.undo.push(UndoOp::PopPluginName);
        proof {
            assert(self.declared@.drop_last() =~= old(self).declared@);
            assert(self.assembly().undone(UndoOp::PopPluginName) =~= old(self).assembly());
            one_step_extends(*old(self), *self, UndoOp::PopPluginName);
        }
    }

    /// Enters a plugin that was applied.
    fn install_plugin(&mut self, plugin: H::Plugin, info: PluginInfo)
        requires
            old(self).wf(),
        ensures
            final(self).wf(),
            final(self).extends(*old(self)),
            final(self).one_step(*old(self), UndoOp::PopPlugin),
            final(self).assembly() == (Assembly {
                plugins: old(self).plugins@.push((PluginRecord { plugin, info })),
                ..old(self).assembly()
            }),
            final(self).next_subscription_id == old(self).next_subscription_id,
            final(self).closing == old(self).closing,
    {
        self.plugins.push(PluginRecord { plugin, info });
        self.undo.push(UndoOp::PopPlugin);
        proof {
            assert(self.plugins@.drop_last() =~= old(self).plugins@);
            assert(self.assembly().undone(UndoOp::PopPlugin) =~= old(self).assembly());
            one_step_extends(*old(self), *self, UndoOp::PopPlugin);
        }
    }

    /// What becomes of `before` when a plugin that it accepts was applied and led to `applied`
    /// and to the assembly `reached`: where applying it failed, nothing, but for the ids of closing
    /// hooks, which are not used again; else what it assembled, and the plugin itself.
    pub open spec fn installs(
        before: Self,
        reached: Self,
        applied: Result<(), Error<H::Cause>>,
        plugin: H::Plugin,
        info: PluginInfo,
        after: Self,
        result: Result<(), Error<H::Cause>>,
    ) -> bool {
        match applied {
            Err(error) => {
                &&& result == Err::<(), Error<H::Cause>>(
                    error.in_phase(Phase::Apply, Some(info.name)),
                )
                &&& after.unchanged(before)
                &&& after.closing.next_id == reached.closing.next_id
            },
            Ok(()) => {
                &&& result is Ok
                &&& after.one_step(reached, UndoOp::PopPlugin)
                &&& after.assembly() == (Assembly {
                    plugins: reached.plugins@.push((PluginRecord { plugin, info })),
                    ..reached.assembly()
                })
                &&& after.next_subscription_id == reached.next_subscription_id
                &&& after.closing == reached.closing
            },
        }
    }

    /// Whether the assembly is as in `before`, down to the log and the numbering of handlers.
    pub open spec fn unchanged(self, before: Self) -> bool {
        &&& self.same_scope(before)
        &&& self.assembly() == before.assembly()
        &&& self.undo@ == before.undo@
        &&& self.next_subscription_id == before.next_subscription_id
    }

    /// Installs a plugin: its name is entered, it is applied, and then it is entered itself.
    /// Where applying it fails, everything that it assembled is taken back, its name included.
    pub fn plugin<F: FnOnce(&mut Builder<H>) -> Result<(), Error<H::Cause>>>(
        &mut self,
        plugin: H::Plugin,
        info: PluginInfo,
        scope: PluginScope,
        apply: F,
    ) -> (result: Result<(), Error<H::Cause>>)
        requires
            old(self).wf(),
            forall|m: &mut Builder<H>| (*m).wf() ==> #[trigger] call_requires(apply, (m,)),
            forall|m: &mut Builder<H>, r: Result<(), Error<H::Cause>>|
                (*m).wf() && #[trigger] call_ensures(apply, (m,), r) ==> (*final(m)).wf()
                    && (*final(m)).extends(*m),
        ensures
            final(self).wf(),
            final(self).extends(*old(self)),
            result is Err ==> final(self).unchanged(*old(self)),
            !old(self).accepts(info.name@, scope) ==> *final(self) == *old(self) && (
            result matches Err(error) && old(self).refusal(info.name@, scope, error)),
            old(self).accepts(info.name@, scope) ==> exists|
                m: &mut Builder<H>,
                applied: Result<(), Error<H::Cause>>,
            | #[trigger]
                call_ensures(apply, (m,), applied) && (*m).declares(*old(self), info.name)
                    && Builder::installs(
                    *old(self),
                    *final(m),
                    applied,
                    plugin,
                    info,
                    *final(self),
                    result,
                ),
    {
        match self.check_plugin(info.name, scope) {
            Err(error) => {
                proof {
                    extends_itself(*self);
                }
                return Err(error);
            },
            Ok(()) => {},
        }
        let checkpoint = self.checkpoint();
        let name = info.name;
        self.declare_plugin(name);
        let ghost declared = *self;
        let applied = apply(self);
        let ghost after_apply = *self;
        proof {
            extensions_add_up(*old(self), declared, after_apply);
        }
        match applied {
            Err(error) => {
                self.rollback(checkpoint);
                proof {
                    rollback_restores_the_checkpoint(*old(self), after_apply, *self);
                    extends_itself(*old(self));
                    assert(self.extends(*old(self)));
                }
                Err(error.into_phase(Phase::Apply, Some(name)))
            },
            Ok(()) => {
                self.install_plugin(plugin, info);
                proof {
                    extensions_add_up(*old(self), after_apply, *self);
                }
                Ok(())
            },
        }
    }
}

impl<H: Host> Builder<H> {
    /// Whether this is `before` after a service value was provided.
    pub open spec fn provides(self, before: Self, key: ServiceKey, value: H::Value) -> bool {
        &&& self.one_step(before, UndoOp::RemoveService(key.id))
        &&& self.assembly() == (Assembly {
            services: Services {
                values: before.services@.values.insert(key.id, value),
                ..before.services@
            },
            ..before.assembly()
        })
        &&& self.next_subscription_id == before.next_subscription_id
        &&& self.closing == before.closing
    }

    /// Provides a plugin's configuration as a service, and installs the plugin. Where that fails,
    /// the configuration is taken back with everything else.
    pub fn plugin_with_config<F: FnOnce(&mut Builder<H>) -> Result<(), Error<H::Cause>>>(
        &mut self,
        key: ServiceKey,
        config: H::Value,
        plugin: H::Plugin,
        info: PluginInfo,
        scope: PluginScope,
        apply: F,
    ) -> (result: Result<(), Error<H::Cause>>)
        requires
            old(self).wf(),
            forall|m: &mut Builder<H>| (*m).wf() ==> #[trigger] call_requires(apply, (m,)),
            forall|m: &mut Builder<H>, r: Result<(), Error<H::Cause>>|
                (*m).wf() && #[trigger] call_ensures(apply, (m,), r) ==> (*final(m)).wf()
                    && (*final(m)).extends(*m),
        ensures
            final(self).wf(),
            final(self).extends(*old(self)),
            result is Err ==> final(self).unchanged(*old(self)),
            old(self).services@.has_slot(key.id) ==> final(self).closing == old(self).closing && (
            result matches Err(error) && error.says_taken(key.name@)),
            !old(self).services@.has_slot(key.id) && !old(self).accepts(info.name@, scope) ==> final(self).closing.next_id == old(self).closing.next_id && (
            result matches Err(error) && old(self).refusal(info.name@, scope, error)),
            !old(self).services@.has_slot(key.id) && old(self).accepts(info.name@, scope) ==> exists|
                with_config: Builder<H>,
                m: &mut Builder<H>,
                applied: Result<(), Error<H::Cause>>,
            |
                with_config.provides(*old(self), key, config) && #[trigger] call_ensures(
                    apply,
                    (m,),
                    applied,
                ) && #[trigger] (*m).declares(with_config, info.name) && match applied {
                    Err(error) => {
                        &&& result == Err::<(), Error<H::Cause>>(
                            error.in_phase(Phase::Apply, Some(info.name)),
                        )
                        &&& final(self).closing.next_id == (*final(m)).closing.next_id
                    },
                    Ok(()) => Builder::installs(
                        with_config,
                        *final(m),
                        applied,
                        plugin,
                        info,
                        *final(self),
                        result,
                    ),
                },
    {
        let checkpoint = self.checkpoint();
        match self.provide(key, config) {
            Err(error) => {
                return Err(error);
            },
            Ok(()) => {},
        }
        let ghost with_config = *self;
        assert(with_config.accepts(info.name@, scope) == old(self).accepts(info.name@, scope));
        let result = self.plugin(plugin, info, scope, apply);
        let ghost reached = *self;
        proof {
            extensions_add_up(*old(self), with_config, reached);
        }
        match result {
            Ok(()) => Ok(()),
            Err(error) => {
                self.rollback(checkpoint);
                proof {
                    rollback_restores_the_checkpoint(*old(self), reached, *self);
                    extends_itself(*old(self));
                    assert(self.extends(*old(self)));
                }
                Err(error)
            },
        }
    }

    /// The slot of a service, here or in the nearest enclosing scope that has it, if there is one.
    pub fn try_require(&self, key: ServiceKey) -> (found: Option<Found<'_, H::Value, H::Factory>>)
        requires
            self.wf(),
        ensures
            crate::context::found_in(
                crate::context::nearest(self.services@, self.parent, key.id),
                key.id,
                found,
            ),
    {
        match self.services.lookup(key.id) {
            Some(found) => Some(found),
            None => match &self.parent {
                Some(outer) => outer.find(key.id),
                None => None,
            },
        }
    }

    /// The slot of a service, here or in the nearest enclosing scope that has it. That there is
    /// none is an error of the phase `Build`.
    pub fn require(&self, key: ServiceKey) -> (found: Result<
        Found<'_, H::Value, H::Factory>,
        Error<H::Cause>,
    >)
        requires
            self.wf(),
        ensures
            match found {
                Ok(found) => crate::context::found_in(
                    crate::context::nearest(self.services@, self.parent, key.id),
                    key.id,
                    Some(found),
                ),
                Err(error) => crate::context::nearest(self.services@, self.parent, key.id) is None
                    && error.says_not_found(Phase::Build, key.name@),
            },
    {
        match self.try_require(key) {
            Some(found) => Ok(found),
            None => Err(Error::service_not_found(Phase::Build, key.name)),
        }
    }

    /// The slot of a service in this scope, to be changed. Enclosing scopes are not looked at. Such
    /// a change is not logged, and so not taken back.
    pub fn require_mut(&mut self, key: ServiceKey) -> (found: Result<
        FoundMut<'_, H::Value, H::Factory>,
        Error<H::Cause>,
    >)
        requires
            old(self).wf(),
        ensures
            final(self).wf(),
            final(self).same_scope(*old(self)),
            final(self).undo@ == old(self).undo@,
            final(self).next_subscription_id == old(self).next_subscription_id,
            final(self).closing == old(self).closing,
            match found {
                Ok(FoundMut::Value(value)) => {
                    &&& old(self).services@.values.contains_key(key.id)
                    &&& *value == old(self).services@.values[key.id]
                    &&& final(self).assembly() == (Assembly {
                        services: Services {
                            values: old(self).services@.values.insert(key.id, *final(value)),
                            ..old(self).services@
                        },
                        ..old(self).assembly()
                    })
                },
                Ok(FoundMut::Factory(factory)) => {
                    &&& old(self).services@.factories.contains_key(key.id)
                    &&& *factory == old(self).services@.factories[key.id]
                    &&& final(self).assembly() == (Assembly {
                        services: Services {
                            factories: old(self).services@.factories.insert(
                                key.id,
                                *final(factory),
                            ),
                            ..old(self).services@
                        },
                        ..old(self).assembly()
                    })
                },
                Err(error) => {
                    &&& !old(self).services@.has_slot(key.id)
                    &&& error.says_not_found(Phase::Build, key.name@)
                    &&& final(self).assembly() == old(self).assembly()
                },
            },
    {
        proof {
            assert forall|other: Assembly<H>| other.handlers == self.handlers@ implies
                #[trigger] other.replayable(self.undo@) by {
                lemma_replayable_by_handlers(self.assembly(), other, self.undo@);
            }
        }
        match self.services.lookup_mut(key.id) {
            Some(found) => Ok(found),
            None => Err(Error::service_not_found(Phase::Build, key.name)),
        }
    }

    /// The collected values of a service in this scope.
    pub fn require_all(&self, key: ServiceKey) -> (values: Vec<&H::Value>)
        ensures
            values@.len() == self.services@.collected(key.id).len(),
            forall|i: int|
                0 <= i < values@.len() ==> *#[trigger] values@[i] == self.services@.collected(
                    key.id,
                )[i],
    {
        self.services.all(key.id)
    }

    /// The collected values of a service in this scope, and then in those that enclose it.
    pub fn require_all_recursive(&self, key: ServiceKey) -> (values: Vec<&H::Value>)
        ensures
            ({
                let expected = crate::context::collected_outward(
                    self.services@,
                    self.parent,
                    key.id,
                );
                &&& values@.len() == expected.len()
                &&& forall|i: int|
                    0 <= i < values@.len() ==> *#[trigger] values@[i] == expected[i]
            }),
    {
        let mut values = self.services.all(key.id);
        match &self.parent {
            Some(outer) => {
                let mut more = outer.all_with_parents(key.id);
                values.append(&mut more);
            },
            None => {},
        }
        values
    }

    /// Whether there is a value, a factory or a collection for a service, here or outwards.
    pub fn contains(&self, key: ServiceKey) -> (present: bool)
        ensures
            present == crate::context::present_outward(self.services@, self.parent, key.id),
    {
        self.services.contains(key.id) || match &self.parent {
            Some(outer) => outer.contains(key.id),
            None => false,
        }
    }

    /// Whether a plugin of this name is installed, here or outwards. One that is still being
    /// applied is not.
    pub fn has_plugin(&self, name: &str) -> (known: bool)
        ensures
            known == (crate::schedule::plugin_position(self.plugins@, name@) is Some || (
            self.parent matches Some(outer) && outer.knows_plugin(name@))),
    {
        find_plugin(&self.plugins, name).is_some() || match &self.parent {
            Some(outer) => outer.has_plugin(name),
            None => false,
        }
    }

    /// Whether the `k`-th service dependency of the `i`-th plugin is satisfied: there is a value or
    /// a factory, here or outwards, or there need not be. Collections do not count.
    pub open spec fn service_met(self, i: int, k: int) -> bool {
        let d = self.plugins@[i].info.deps@[k];
        d.optional || crate::context::nearest(self.services@, self.parent, d.type_id) is Some
    }

    /// Whether the `k`-th service dependency of the `i`-th plugin is the first that is not
    /// satisfied.
    pub open spec fn first_unmet_service(self, i: int, k: int) -> bool {
        &&& 0 <= i < self.plugins@.len()
        &&& 0 <= k < self.plugins@[i].info.deps@.len()
        &&& !self.service_met(i, k)
        &&& forall|a: int, b: int|
            0 <= a < self.plugins@.len() && 0 <= b < self.plugins@[a].info.deps@.len() && (a < i || (
            a == i && b < k)) ==> #[trigger] self.service_met(a, b)
    }

    /// Whether every service dependency is satisfied.
    pub open spec fn services_met(self) -> bool {
        forall|a: int, b: int|
            0 <= a < self.plugins@.len() && 0 <= b < self.plugins@[a].info.deps@.len()
                ==> #[trigger] self.service_met(a, b)
    }

    /// Whether `inherited` names the plugins of the enclosing scopes.
    pub open spec fn inherits(self, inherited: Seq<&'static str>) -> bool {
        forall|name: Seq<char>| #[trigger]
            crate::schedule::has_name(inherited, name) == (self.parent matches Some(outer)
                && outer.knows_plugin(name))
    }

    /// Whether `priorities` are answers that the plugins gave when they were asked, in order.
    pub open spec fn asked(self, priorities: Seq<i32>) -> bool {
        &&& priorities.len() == self.plugins@.len()
        &&& forall|i: int|
            0 <= i < self.plugins@.len() ==> call_ensures(
                H::priority,
                (&self.plugins@[i].plugin,),
                #[trigger] priorities[i],
            )
    }

    /// Whether scheduling the plugins by `priorities`, with the plugins that `inherited` names
    /// around them, leads to `result`. Where there is a schedule, the priorities are what the plugins
    /// answered.
    pub open spec fn scheduled(
        self,
        inherited: Seq<&'static str>,
        priorities: Seq<i32>,
        result: Result<Schedule, Error<H::Cause>>,
    ) -> bool {
        &&& self.inherits(inherited)
        &&& crate::schedule::schedule_result(self.plugins@, inherited, priorities, result)
        &&& result is Ok ==> self.asked(priorities)
    }

    /// What validating the assembly leads to: the error of the first service dependency that is
    /// not satisfied; else what scheduling the plugins leads to.
    pub open spec fn validated(self, result: Result<Schedule, Error<H::Cause>>) -> bool {
        if self.services_met() {
            exists|inherited: Seq<&'static str>, priorities: Seq<i32>| #[trigger]
                self.scheduled(inherited, priorities, result)
        } else {
            result matches Err(error) && exists|i: int, k: int| #[trigger]
                self.first_unmet_service(i, k) && error.says_not_found(
                    Phase::Verify,
                    self.plugins@[i].info.deps@[k].name@,
                )
        }
    }

    /// Checks that all dependencies are satisfied, and computes the start schedule by the
    /// priorities that the plugins have now.
    pub fn validate(&self) -> (result: Result<Schedule, Error<H::Cause>>)
        ensures
            self.validated(result),
    {
        let mut i: usize = 0;
        while i < self.plugins.len()
            invariant
                i <= self.plugins@.len(),
                forall|a: int, b: int|
                    0 <= a < i && 0 <= b < self.plugins@[a].info.deps@.len()
                        ==> #[trigger] self.service_met(a, b),
            decreases self.plugins@.len() - i,
        {
            let deps = &self.plugins[i].info.deps;
            let mut k: usize = 0;
            while k < deps.len()
                invariant
                    i < self.plugins@.len(),
                    k <= deps@.len(),
                    deps@ == self.plugins@[i as int].info.deps@,
                    forall|a: int, b: int|
                        0 <= a < self.plugins@.len() && 0 <= b < self.plugins@[a].info.deps@.len()
                            && (a < i || (a == i && b < k)) ==> #[trigger] self.service_met(a, b),
                decreases deps@.len() - k,
            {
                let dep = deps[k];
                if !dep.optional && !self.contains_type(dep.type_id) {
                    assert(!self.service_met(i as int, k as int));
                    assert(self.first_unmet_service(i as int, k as int));
                    return Err(Error::service_not_found(Phase::Verify, dep.name));
                }
                assert(self.service_met(i as int, k as int));
                k = k + 1;
            }
            i = i + 1;
        }
        let inherited: Vec<&'static str> = match &self.parent {
            Some(outer) => outer.plugin_names_outward(),
            None => Vec::new(),
        };
        assert(self.inherits(inherited@));
        let priority = |plugin: &H::Plugin| -> (answer: i32)
            ensures
                call_ensures(H::priority, (plugin,), answer),
            { H::priority(plugin) };
        let result = compute_schedule(&self.plugins, &inherited, priority);
        proof {
            let priorities = choose|priorities: Seq<i32>| #[trigger]
                crate::schedule::schedule_result(self.plugins@, inherited@, priorities, result) && (
                result is Ok ==> crate::schedule::answered(self.plugins@, priority, priorities));
            assert(self.scheduled(inherited@, priorities, result));
        }
        result
    }

    fn contains_type(&self, id: u64) -> (present: bool)
        ensures
            present == (crate::context::nearest(self.services@, self.parent, id) is Some),
    {
        self.services.contains_type(id) || match &self.parent {
            Some(outer) => outer.contains_type(id),
            None => false,
        }
    }

    /// Checks that all dependencies are satisfied.
    pub fn verify(&self) -> (result: Result<(), Error<H::Cause>>)
        ensures
            exists|validation: Result<Schedule, Error<H::Cause>>| #[trigger]
                self.validated(validation) && match validation {
                    Ok(_) => result is Ok,
                    Err(error) => result == Err::<(), Error<H::Cause>>(error),
                },
    {
        match self.validate() {
            Ok(_) => Ok(()),
            Err(error) => Err(error),
        }
    }

    /// Checks that all dependencies are satisfied.
    pub fn verify_dependencies(&self) -> (result: Result<(), Error<H::Cause>>)
        ensures
            exists|validation: Result<Schedule, Error<H::Cause>>| #[trigger]
                self.validated(validation) && match validation {
                    Ok(_) => result is Ok,
                    Err(error) => result == Err::<(), Error<H::Cause>>(error),
                },
    {
        self.verify()
    }
}

} // verus!
