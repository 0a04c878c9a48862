//! The owner of a scope's life: building, starting, stopping and dropping it.
//!
//! Nothing here waits. Starting and stopping are taken step by step: each step says what is to be
//! done next, and is told what came of it.

use std::sync::Arc;

use vstd::prelude::*;

use crate::builder::Builder;
use crate::closing::ClosingHooks;
use crate::context::{Context, Data, Host};
use crate::error::{Error, ErrorKind, Phase};
use crate::event::group_handlers;
use crate::id::{push_ids, Blockers, ScopeId};
use crate::notify::NotifyHub;
use crate::schedule::{PluginRecord, Schedule};
use crate::scope::{Lifecycle, ScopeCore};

verus! {

/// How a stop ended.
///
/// Whether it has come to an end is one question, and whether there were errors is another.
#[derive(Debug)]
#[must_use]
pub enum StopOutcome<C> {
    /// The scope is stopped. `errors` are those of its plugins, tasks and hooks.
    Stopped { errors: Vec<Error<C>> },
    /// The scope has committed to stopping, but child scopes still hold leases. Nothing was
    /// cleaned up; the stop can be tried again.
    Blocked(Blockers),
}

impl<C> StopOutcome<C> {
    /// The errors of a stop that has come to an end; none where it is blocked.
    pub open spec fn errors_are(self) -> Seq<Error<C>> {
        match self {
            StopOutcome::Stopped { errors } => errors@,
            StopOutcome::Blocked(_) => Seq::empty(),
        }
    }

    /// Whether the scope is stopped and there was no error.
    pub open spec fn clean(self) -> bool {
        self matches StopOutcome::Stopped { errors } && errors@.len() == 0
    }

    /// The outcome as a `Result`.
    pub open spec fn as_result(self) -> Result<(), Error<C>> {
        match self {
            StopOutcome::Stopped { errors } => if errors@.len() == 0 {
                Ok(())
            } else {
                Err(Error::plain(Phase::Stop, ErrorKind::Multiple(Arc::new(errors))))
            },
            StopOutcome::Blocked(blockers) => Err(
                Error::plain(Phase::Stop, ErrorKind::StopBlocked(blockers)),
            ),
        }
    }

    /// Whether the scope is stopped.
    pub fn is_stopped(&self) -> (stopped: bool)
        ensures
            stopped == (self is Stopped),
    {
        matches!(self, StopOutcome::Stopped { .. })
    }

    /// The errors of a stop that has come to an end; none where it is blocked.
    pub fn errors(&self) -> (errors: &[Error<C>])
        ensures
            errors@ == self.errors_are(),
    {
        match self {
            StopOutcome::Stopped { errors } => errors.as_slice(),
            StopOutcome::Blocked(_) => &[],
        }
    }

    /// The scopes that block the stop, if it is blocked.
    pub fn blockers(&self) -> (blockers: Option<&Blockers>)
        ensures
            blockers == match *self {
                StopOutcome::Blocked(blockers) => Some(&blockers),
                StopOutcome::Stopped { .. } => None,
            },
    {
        match self {
            StopOutcome::Blocked(blockers) => Some(blockers),
            StopOutcome::Stopped { .. } => None,
        }
    }

    /// The outcome as a `Result`: all errors together, or that the stop is blocked.
    pub fn into_result(self) -> (result: Result<(), Error<C>>)
        ensures
            result == self.as_result(),
            result is Ok <==> self.clean(),
    {
        match self {
            StopOutcome::Stopped { errors } => {
                if errors.len() == 0 {
                    Ok(())
                } else {
                    Err(Error::new(Phase::Stop, ErrorKind::Multiple(Arc::new(errors))))
                }
            },
            StopOutcome::Blocked(blockers) => Err(
                Error::new(Phase::Stop, ErrorKind::StopBlocked(blockers)),
            ),
        }
    }

    /// Asserts that the scope is stopped and that there was no error.
    pub fn unwrap(self)
        requires
            self.clean(),
    {
        let result = self.into_result();
        vstd::pervasive::runtime_assert(result.is_ok());
    }

    /// The error of a stop that is blocked or had errors.
    pub fn unwrap_err(self) -> (error: Error<C>)
        requires
            !self.clean(),
        ensures
            self.as_result() == Err::<(), Error<C>>(error),
    {
        match self.into_result() {
            Ok(()) => vstd::pervasive::unreached(),
            Err(error) => error,
        }
    }
}

/// Makes a hook of a function.
pub struct SyncHook<F>(pub F);

/// Makes a hook of a function that returns a future.
pub struct AsyncHook<F>(pub F);

/// How a piece of user code that is part of the life cycle came to an end.
pub enum UnitEnd<C> {
    Returned(Result<(), Error<C>>),
    /// It panicked, with this message where there was one.
    Panicked(Option<String>),
}

/// The errors that a piece of user code led to: one, or none.
pub open spec fn unit_errors<C>(
    phase: Phase,
    plugin: Option<&'static str>,
    end: UnitEnd<C>,
) -> Seq<Error<C>> {
    match unit_error(phase, plugin, end) {
        Some(error) => seq![error],
        None => Seq::empty(),
    }
}

/// What a piece of user code led to: its own error, or that it panicked, labelled with the phase
/// and the plugin.
pub open spec fn unit_error<C>(
    phase: Phase,
    plugin: Option<&'static str>,
    end: UnitEnd<C>,
) -> Option<Error<C>> {
    match end {
        UnitEnd::Returned(Ok(())) => None,
        UnitEnd::Returned(Err(error)) => Some(error.in_phase(phase, plugin)),
        UnitEnd::Panicked(message) => Some(
            Error::plain(phase, ErrorKind::LifecyclePanicked { message }).in_phase(phase, plugin),
        ),
    }
}

/// What a piece of user code led to, as an error if it failed.
pub fn run_lifecycle_unit<C>(
    phase: Phase,
    plugin: Option<&'static str>,
    end: UnitEnd<C>,
) -> (error: Option<Error<C>>)
    ensures
        error == unit_error(phase, plugin, end),
{
    match end {
        UnitEnd::Returned(Ok(())) => None,
        UnitEnd::Returned(Err(error)) => Some(error.into_phase(phase, plugin)),
        UnitEnd::Panicked(message) => Some(
            Error::new(phase, ErrorKind::LifecyclePanicked { message }).into_phase(phase, plugin),
        ),
    }
}

/// How far a start has come.
#[derive(Debug, Clone, Copy, PartialEq, Eq, Structural)]
pub enum StartStage {
    /// No start is under way.
    Idle,
    /// The plugins of this batch are starting.
    Plugins(usize),
    /// This ready hook is running.
    Ready(usize),
}

/// What is to be done next in a start.
pub enum StartStep<C> {
    /// Start these plugins, all at once, and report with [`Runtime::plugins_started`].
    Launch(Vec<usize>),
    /// Run this ready hook, and report with [`Runtime::ready_done`].
    Ready(usize),
    /// The start has ended.
    Done(Result<(), Error<C>>),
}

/// How far a cleanup has come.
#[derive(Debug, Clone, Copy, PartialEq, Eq, Structural)]
pub enum CleanupStage {
    /// The started plugins are being stopped.
    Plugins,
    /// The tasks are being waited for.
    Tasks,
    /// The notifications are being waited for.
    Notify,
    /// This dispose hook is running.
    Dispose(usize),
    /// Everything was done.
    Finished,
}

/// What is to be done next in a cleanup.
#[derive(Debug, Clone, Copy, PartialEq, Eq, Structural)]
pub enum CleanupStep {
    /// Stop this plugin, and report with [`Runtime::unit_ended`].
    StopPlugin(usize),
    /// Wait for the tasks, and report with [`Runtime::tasks_drained`].
    DrainTasks,
    /// Wait for the notifications, and report with [`Runtime::notify_drained`].
    DrainNotify,
    /// Run this dispose hook, and report with [`Runtime::unit_ended`].
    Dispose(usize),
    /// Everything was done.
    Finish,
}

/// A cleanup that is under way.
pub struct Cleanup<C, D> {
    /// The started plugins that are still to be stopped; the last one is next.
    pub started: Vec<usize>,
    pub stage: CleanupStage,
    pub errors: Vec<Error<C>>,
    /// Until when tasks are waited for. It is fixed when the cleanup begins.
    pub deadline: Option<D>,
}

/// What a scope has no more use for when its cleanup is done.
pub struct Retired<H: Host> {
    pub plugins: Vec<PluginRecord<H::Plugin>>,
    pub dispose: Vec<H::Hook>,
    /// The lease that is to be given back to the enclosing scope.
    pub lease: Option<ScopeId>,
}

/// What a call of stop is to do first.
#[derive(Debug, Clone, Copy, PartialEq, Eq, Structural)]
pub enum StopEntry {
    /// The scope is stopped already.
    AlreadyStopped,
    /// A cleanup is under way and goes on.
    Resume,
    /// The scope has committed to stopping. Where it did so just now, its closing hooks are to be
    /// run; in any case [`Runtime::enter_cleanup`] is next.
    Committed { first: bool },
}

/// The owner of a scope's life.
pub struct Runtime<H: Host> {
    pub ctx: Context<H>,
    pub plugins: Vec<PluginRecord<H::Plugin>>,
    pub ready: Vec<H::Hook>,
    pub dispose: Vec<H::Hook>,
    /// The plugins whose start was begun, in that order.
    pub started: Vec<usize>,
    /// The error of a start that failed.
    pub start_error: Option<Error<H::Cause>>,
    pub schedule: Schedule,
    /// The batches of the start that is under way.
    pub batches: Vec<Vec<usize>>,
    pub stage: StartStage,
    /// The cleanup that is under way.
    pub cleanup: Option<Cleanup<H::Cause, H::Deadline>>,
    /// Whether a start was begun and the scope is not stopped yet.
    pub active: bool,
    /// The lease on the enclosing scope, until it is given back.
    pub lease: Option<ScopeId>,
}

/// A scope that was built: its owner, and the parts that are shared with its handles.
pub struct Built<H: Host> {
    pub runtime: Runtime<H>,
    pub closing: ClosingHooks<H::CloseHook, H::Cause>,
    pub notify: NotifyHub<H::Event, H::Handler>,
}

/// The names of `plugins`, in order.
pub open spec fn names_of<P>(plugins: Seq<PluginRecord<P>>) -> Seq<&'static str> {
    plugins.map_values(|record: PluginRecord<P>| record.info.name)
}

impl<H: Host> Built<H> {
    /// All parts are well-formed.
    pub open spec fn wf(self) -> bool {
        &&& self.runtime.wf()
        &&& self.runtime.ctx.inner.wf()
        &&& self.closing.wf()
        &&& self.notify.wf()
    }

    /// Whether this is what a builder and a schedule make.
    pub open spec fn made_from(self, builder: Builder<H>, schedule: Schedule) -> bool {
        let data = self.runtime.ctx.inner;
        &&& data.context_id == builder.context_id
        &&& data.parent == builder.parent
        &&& data.services == builder.services
        &&& data.plugin_names@ == names_of(builder.plugins@)
        &&& crate::event::grouped(builder.handlers@, data.handlers_by_type@)
        &&& self.runtime.plugins == builder.plugins
        &&& self.runtime.ready == builder.ready
        &&& self.runtime.dispose == builder.dispose
        &&& self.runtime.lease == builder.lease
        &&& self.runtime.schedule == schedule
        &&& self.runtime.fresh()
        &&& self.closing == builder.closing
        &&& self.notify.built_from(builder.handlers@)
    }
}

impl<H: Host> Builder<H> {
    /// Freezes an assembly that was validated.
    fn build_validated(self, schedule: Schedule) -> (built: Built<H>)
        requires
            self.wf(),
            self.validated(Ok(schedule)),
        ensures
            built.made_from(self, schedule),
            built.wf(),
    {
        let mut plugin_names: Vec<&'static str> = Vec::new();
        let mut i: usize = 0;
        while i < self.plugins.len()
            invariant
                i <= self.plugins@.len(),
                plugin_names@ =~= names_of(self.plugins@).take(i as int),
            decreases self.plugins@.len() - i,
        {
            plugin_names.push(self.plugins[i].info.name);
            i = i + 1;
        }
        assert(names_of(self.plugins@).take(i as int) =~= names_of(self.plugins@));
        let handlers_by_type = group_handlers(&self.handlers);
        let notify = NotifyHub::build(&self.handlers);
        let data = Data {
            context_id: self.context_id,
            parent: self.parent,
            services: self.services,
            plugin_names,
            handlers_by_type,
        };
        let runtime = Runtime {
            ctx: Context { inner: Arc::new(data) },
            plugins: self.plugins,
            ready: self.ready,
            dispose: self.dispose,
            started: Vec::new(),
            start_error: None,
            schedule,
            batches: Vec::new(),
            stage: StartStage::Idle,
            cleanup: None,
            active: false,
            lease: self.lease,
        };
        proof {
            let (inherited, priorities) = choose|
                inherited: Seq<&'static str>,
                priorities: Seq<i32>,
            | #[trigger]
                self.scheduled(inherited, priorities, Ok(schedule));
            let graph = choose|graph: crate::schedule::Graph| #[trigger]
                crate::schedule::graph_of(self.plugins@, priorities, graph) && graph.wf()
                    && !graph.cyclic() && graph.scheduled(schedule);
            crate::schedule::schedule_stays_in_range(graph, schedule);
        }
        Built { runtime, closing: self.closing, notify }
    }

    /// Builds the scope, unless a dependency is not satisfied or plugins need one another in a
    /// circle.
    pub fn build(self) -> (result: Result<Built<H>, Error<H::Cause>>)
        requires
            self.wf(),
        ensures
            result matches Ok(built) ==> built.wf(),
            exists|validation: Result<Schedule, Error<H::Cause>>| #[trigger]
                self.validated(validation) && match validation {
                    Ok(schedule) => result matches Ok(built) && built.made_from(self, schedule),
                    Err(error) => result == Err::<Built<H>, Error<H::Cause>>(error),
                },
    {
        match self.validate() {
            Ok(schedule) => Ok(self.build_validated(schedule)),
            Err(error) => Err(error),
        }
    }

    /// Builds the scope; where that fails, the assembly is given back, lease and all.
    pub fn try_build(self) -> (result: Result<Built<H>, (Builder<H>, Error<H::Cause>)>)
        requires
            self.wf(),
        ensures
            result matches Ok(built) ==> built.wf(),
            exists|validation: Result<Schedule, Error<H::Cause>>| #[trigger]
                self.validated(validation) && match validation {
                    Ok(schedule) => result matches Ok(built) && built.made_from(self, schedule),
                    Err(error) => result == Err::<Built<H>, (Builder<H>, Error<H::Cause>)>(
                        (self, error),
                    ),
                },
    {
        match self.validate() {
            Ok(schedule) => Ok(self.build_validated(schedule)),
            Err(error) => Err((self, error)),
        }
    }
}

/// The items of the first `k` batches, one batch after the other.
pub open spec fn launched(batches: Seq<Vec<usize>>, k: nat) -> Seq<usize>
    decreases k,
{
    if k == 0 {
        Seq::empty()
    } else {
        launched(batches, (k - 1) as nat) + batches[k - 1]@
    }
}

/// Whether `batches` are those in which plugins start: one by one in the order of the schedule, or
/// by its layers.
pub open spec fn batched(schedule: Schedule, serial: bool, batches: Seq<Vec<usize>>) -> bool {
    if serial {
        &&& batches.len() == schedule.order@.len()
        &&& forall|i: int|
            0 <= i < batches.len() ==> (#[trigger] batches[i])@ == seq![schedule.order@[i]]
    } else {
        batches == schedule.layers@
    }
}

/// The errors of a batch of plugins, in the order of the batch.
pub open spec fn batch_errors<P, C>(
    plugins: Seq<PluginRecord<P>>,
    batch: Seq<usize>,
    results: Seq<Result<(), Error<C>>>,
    k: nat,
) -> Seq<Error<C>>
    decreases k,
{
    if k == 0 {
        Seq::empty()
    } else {
        let before = batch_errors(plugins, batch, results, (k - 1) as nat);
        match results[k - 1] {
            Ok(()) => before,
            Err(error) => before.push(
                error.in_phase(Phase::Start, Some(plugins[batch[k - 1] as int].info.name)),
            ),
        }
    }
}

impl<H: Host> Runtime<H> {
    /// Whether nothing was started yet.
    pub open spec fn fresh(self) -> bool {
        &&& self.started@.len() == 0
        &&& self.start_error is None
        &&& self.batches@.len() == 0
        &&& self.stage == StartStage::Idle
        &&& self.cleanup is None
        &&& !self.active
    }

    /// Every index in the schedule is that of a plugin.
    pub open spec fn schedule_in_range(self) -> bool {
        &&& forall|i: int|
            0 <= i < self.schedule.order@.len() ==> (#[trigger] self.schedule.order@[i])
                < self.plugins@.len()
        &&& forall|i: int, k: int|
            0 <= i < self.schedule.layers@.len() && 0 <= k < self.schedule.layers@[i]@.len() ==> (
            #[trigger] self.schedule.layers@[i]@[k]) < self.plugins@.len()
    }

    /// The start that is under way, if one is, is in order: it is at one of its batches or ready
    /// hooks, and the started plugins are those of its batches so far.
    pub open spec fn wf(self) -> bool {
        &&& self.schedule_in_range()
        &&& forall|i: int, k: int|
            0 <= i < self.batches@.len() && 0 <= k < self.batches@[i]@.len() ==> (
            #[trigger] self.batches@[i]@[k]) < self.plugins@.len()
        &&& forall|i: int|
            0 <= i < self.started@.len() ==> (#[trigger] self.started@[i]) < self.plugins@.len()
        &&& match self.stage {
            StartStage::Idle => true,
            StartStage::Plugins(k) => k < self.batches@.len() && self.started@ == launched(
                self.batches@,
                (k + 1) as nat,
            ),
            StartStage::Ready(k) => k < self.ready@.len() && self.started@ == launched(
                self.batches@,
                self.batches@.len(),
            ),
        }
        &&& self.cleanup matches Some(cleanup) ==> {
            &&& forall|i: int|
                0 <= i < cleanup.started@.len() ==> (#[trigger] cleanup.started@[i])
                    < self.plugins@.len()
            &&& cleanup.stage == CleanupStage::Plugins <==> cleanup.started@.len() > 0
            &&& cleanup.stage matches CleanupStage::Dispose(k) ==> k < self.dispose@.len()
            &&& self.started@.len() == 0
            &&& self.stage == StartStage::Idle
        }
    }

    /// Whether the runtime and the state of its scope fit together: a failed start has left its
    /// error, and a cleanup is under way exactly while the scope is being cleaned up.
    pub open spec fn fits<W>(self, core: ScopeCore<W>) -> bool {
        &&& core.wf()
        &&& core.lifecycle == Lifecycle::Failed ==> self.start_error is Some
        &&& core.lifecycle == Lifecycle::Built ==> self.started@.len() == 0 && self.stage
            == StartStage::Idle
        &&& core.lifecycle == Lifecycle::Stopping <==> self.cleanup is Some
    }

    /// Whether everything but the course of the start is as in `before`.
    pub open spec fn same_parts(self, before: Self) -> bool {
        &&& self.ctx == before.ctx
        &&& self.plugins == before.plugins
        &&& self.ready == before.ready
        &&& self.dispose == before.dispose
        &&& self.cleanup == before.cleanup
        &&& self.lease == before.lease
    }

    /// A handle on the scope.
    pub fn handle(&self) -> (ctx: Context<H>)
        ensures
            ctx == self.ctx,
    {
        self.ctx.clone()
    }

    /// The error of a start that failed.
    pub fn start_error(&self) -> (error: Option<&Error<H::Cause>>)
        ensures
            error == match self.start_error {
                Some(error) => Some(&error),
                None => None,
            },
    {
        self.start_error.as_ref()
    }

    /// Whether `step` launches the batch numbered `k`, or goes on to the ready hooks, or ends the
    /// start; and `self` and `core` are then as they are to be.
    pub open spec fn at_batch<W>(self, k: int, step: StartStep<H::Cause>, core: ScopeCore<W>) -> bool {
        if k < self.batches@.len() {
            &&& step matches StartStep::Launch(batch) && batch@ == self.batches@[k]@
            &&& self.stage == StartStage::Plugins(k as usize)
            &&& self.started@ == launched(self.batches@, (k + 1) as nat)
            &&& core.lifecycle == Lifecycle::Starting
        } else {
            self.started@ == launched(self.batches@, self.batches@.len()) && self.at_ready(
                0,
                step,
                core,
            )
        }
    }

    /// Whether `step` runs the ready hook numbered `k`, or ends the start; and `self` and `core`
    /// are then as they are to be.
    pub open spec fn at_ready<W>(self, k: int, step: StartStep<H::Cause>, core: ScopeCore<W>) -> bool {
        if k < self.ready@.len() {
            &&& step == StartStep::<H::Cause>::Ready(k as usize)
            &&& self.stage == StartStage::Ready(k as usize)
            &&& core.lifecycle == Lifecycle::Starting
        } else {
            &&& step == StartStep::<H::Cause>::Done(Ok(()))
            &&& self.stage == StartStage::Idle
            &&& core.lifecycle == Lifecycle::Running
        }
    }

    /// Whether `step` ends the start with the given errors; and `self` and `core` are then as they
    /// are to be.
    pub open spec fn failed_with<W>(
        self,
        errors: Seq<Error<H::Cause>>,
        step: StartStep<H::Cause>,
        core: ScopeCore<W>,
    ) -> bool {
        &&& step matches StartStep::Done(Err(error)) && error.phase == Phase::Start
            && error.plugin is None && error.source is None
            && (error.kind matches ErrorKind::Multiple(list) && list@ == errors)
            && self.start_error == Some(error)
        &&& self.stage == StartStage::Idle
        &&& core.lifecycle == Lifecycle::Failed
    }

    fn launch<W>(&mut self, k: usize, core: &mut ScopeCore<W>) -> (step: StartStep<H::Cause>)
        requires
            old(self).wf(),
            k <= old(self).batches@.len(),
            old(self).cleanup is None,
            old(self).started@ == launched(old(self).batches@, k as nat),
            old(core).wf(),
            old(core).lifecycle == Lifecycle::Starting,
        ensures
            final(self).wf(),
            final(self).same_parts(*old(self)),
            final(self).batches == old(self).batches,
            final(self).schedule == old(self).schedule,
            final(self).start_error == old(self).start_error,
            final(self).active == old(self).active,
            final(core).wf(),
            final(core).requested == old(core).requested,
            final(core).abandoned == old(core).abandoned,
            final(core).children == old(core).children,
            final(core).same_signals(*old(core)),
            final(self).at_batch(k as int, step, *final(core)),
    {
        if k < self.batches.len() {
            let mut batch: Vec<usize> = Vec::new();
            let ghost before = self.started@;
            let mut i: usize = 0;
            while i < self.batches[k].len()
                invariant
                    k < self.batches@.len(),
                    i <= self.batches@[k as int]@.len(),
                    self.batches == old(self).batches,
                    self.schedule == old(self).schedule,
                    self.start_error == old(self).start_error,
                    self.active == old(self).active,
                    self.stage == old(self).stage,
                    self.same_parts(*old(self)),
                    old(self).wf(),
                    batch@ =~= self.batches@[k as int]@.take(i as int),
                    self.started@ =~= before + self.batches@[k as int]@.take(i as int),
                    before == old(self).started@,
                decreases self.batches@[k as int]@.len() - i,
            {
                let index = self.batches[k][i];
                batch.push(index);
                self.started.push(index);
                i = i + 1;
            }
            self.stage = StartStage::Plugins(k);
            proof {
                assert(self.batches@[k as int]@.take(i as int) =~= self.batches@[k as int]@);
                assert(self.started@ =~= launched(self.batches@, (k + 1) as nat));
                assert forall|j: int| 0 <= j < self.started@.len() implies (
                #[trigger] self.started@[j]) < self.plugins@.len() by {
                    if j < before.len() {
                        assert(self.started@[j] == before[j]);
                    } else {
                        let b = j - before.len();
                        assert(self.started@[j] == self.batches@[k as int]@[b]);
                    }
                }
            }
            StartStep::Launch(batch)
        } else {
            self.next_ready(0, core)
        }
    }

    fn next_ready<W>(&mut self, k: usize, core: &mut ScopeCore<W>) -> (step: StartStep<H::Cause>)
        requires
            old(self).wf(),
            k <= old(self).ready@.len(),
            old(self).cleanup is None,
            old(self).started@ == launched(old(self).batches@, old(self).batches@.len()),
            old(core).wf(),
            old(core).lifecycle == Lifecycle::Starting,
        ensures
            final(self).wf(),
            final(self).same_parts(*old(self)),
            final(self).batches == old(self).batches,
            final(self).schedule == old(self).schedule,
            final(self).started == old(self).started,
            final(self).start_error == old(self).start_error,
            final(self).active == old(self).active,
            final(core).wf(),
            final(core).requested == old(core).requested,
            final(core).abandoned == old(core).abandoned,
            final(core).children == old(core).children,
            final(core).same_signals(*old(core)),
            final(self).at_ready(k as int, step, *final(core)),
    {
        if k < self.ready.len() {
            self.stage = StartStage::Ready(k);
            StartStep::Ready(k)
        } else {
            self.stage = StartStage::Idle;
            core.set_lifecycle(Lifecycle::Running);
            StartStep::Done(Ok(()))
        }
    }

    fn fail<W>(&mut self, errors: Vec<Error<H::Cause>>, core: &mut ScopeCore<W>) -> (step: StartStep<
        H::Cause,
    >)
        requires
            old(self).wf(),
            old(core).wf(),
        ensures
            final(self).wf(),
            final(self).same_parts(*old(self)),
            final(self).started == old(self).started,
            final(self).batches == old(self).batches,
            final(self).schedule == old(self).schedule,
            final(self).active == old(self).active,
            final(core).wf(),
            final(core).requested == old(core).requested,
            final(core).abandoned == old(core).abandoned,
            final(core).children == old(core).children,
            final(core).same_signals(*old(core)),
            final(self).failed_with(errors@, step, *final(core)),
    {
        let aggregate = Error::new(Phase::Start, ErrorKind::Multiple(Arc::new(errors)));
        self.start_error = Some(aggregate.clone());
        self.stage = StartStage::Idle;
        core.set_lifecycle(Lifecycle::Failed);
        StartStep::Done(Err(aggregate))
    }

    /// Begins a start: `serial` for one plugin after the other, else by layers.
    ///
    /// A scope that is running, or has committed to stopping, is left alone. A start that failed
    /// before is an error whose source is that failure; one that was interrupted is an error too.
    pub fn start_with<W>(&mut self, core: &mut ScopeCore<W>, serial: bool) -> (step: StartStep<
        H::Cause,
    >)
        requires
            old(self).wf(),
            old(self).fits(*old(core)),
        ensures
            final(self).wf(),
            final(self).fits(*final(core)),
            final(self).same_parts(*old(self)),
            final(core).lifecycle.stop_progress() >= old(core).lifecycle.stop_progress(),
            final(core).requested == old(core).requested,
            final(core).abandoned == old(core).abandoned,
            final(core).children == old(core).children,
            final(core).same_signals(*old(core)),
            old(core).lifecycle != Lifecycle::Built ==> *final(self) == *old(self) && *final(core)
                == *old(core),
            match old(core).lifecycle {
                Lifecycle::Stopped | Lifecycle::Stopping | Lifecycle::Closing
                | Lifecycle::Running => step == StartStep::<H::Cause>::Done(Ok(())),
                Lifecycle::Starting => step == StartStep::Done(
                    Err(Error::<H::Cause>::plain(Phase::Start, ErrorKind::StartFailed)),
                ),
                Lifecycle::Failed => step == StartStep::Done(
                    Err(
                        Error {
                            phase: Phase::Start,
                            plugin: None,
                            kind: ErrorKind::StartFailed,
                            source: Some(
                                crate::error::Source::Framework(
                                    Arc::new(old(self).start_error->0),
                                ),
                            ),
                        },
                    ),
                ),
                Lifecycle::Built => {
                    &&& batched(old(self).schedule, serial, final(self).batches@)
                    &&& final(self).at_batch(0, step, *final(core))
                    &&& final(self).schedule.is_empty()
                    &&& final(self).active
                    &&& final(self).start_error == old(self).start_error
                },
            },
    {
        match core.lifecycle() {
            Lifecycle::Stopped | Lifecycle::Stopping | Lifecycle::Closing => {
                return StartStep::Done(Ok(()));
            },
            Lifecycle::Running => {
                return StartStep::Done(Ok(()));
            },
            Lifecycle::Starting => {
                return StartStep::Done(Err(Error::new(Phase::Start, ErrorKind::StartFailed)));
            },
            Lifecycle::Failed => {
                return StartStep::Done(Err(self.start_failed_error()));
            },
            Lifecycle::Built => {},
        }
        let batches = self.take_batches(serial);
        self.batches = batches;
        self.active = true;
        core.set_lifecycle(Lifecycle::Starting);
        proof {
            assert(self.started@ =~= launched(self.batches@, 0));
        }
        self.launch(0, core)
    }

    /// The error of starting again what failed to start; its source is the failure.
    fn start_failed_error(&self) -> (error: Error<H::Cause>)
        requires
            self.start_error is Some,
        ensures
            error == (Error {
                phase: Phase::Start,
                plugin: None,
                kind: ErrorKind::StartFailed,
                source: Some(
                    crate::error::Source::Framework(Arc::new(self.start_error->0)),
                ),
            }),
    {
        match &self.start_error {
            Some(first) => Error::with_error(Phase::Start, ErrorKind::StartFailed, first.clone()),
            None => Error::new(Phase::Start, ErrorKind::StartFailed),
        }
    }

    fn take_batches(&mut self, serial: bool) -> (batches: Vec<Vec<usize>>)
        requires
            old(self).wf(),
            old(self).stage == StartStage::Idle,
        ensures
            batched(old(self).schedule, serial, batches@),
            forall|i: int, k: int|
                0 <= i < batches@.len() && 0 <= k < batches@[i]@.len() ==> (
                #[trigger] batches@[i]@[k]) < old(self).plugins@.len(),
            final(self).wf(),
            final(self).schedule.is_empty(),
            *final(self) == (Runtime { schedule: final(self).schedule, ..*old(self) }),
    {
        let mut batches: Vec<Vec<usize>> = Vec::new();
        if serial {
            let mut i: usize = 0;
            while i < self.schedule.order.len()
                invariant
                    *self == *old(self),
                    i <= self.schedule.order@.len(),
                    batches@.len() == i,
                    forall|k: int|
                        0 <= k < i ==> (#[trigger] batches@[k])@ == seq![self.schedule.order@[k]],
                decreases self.schedule.order@.len() - i,
            {
                let mut single: Vec<usize> = Vec::new();
                single.push(self.schedule.order[i]);
                assert(single@ =~= seq![self.schedule.order@[i as int]]);
                batches.push(single);
                i = i + 1;
            }
            proof {
                assert forall|i: int, k: int|
                    0 <= i < batches@.len() && 0 <= k < batches@[i]@.len() implies (
                #[trigger] batches@[i]@[k]) < self.plugins@.len() by {
                    assert(batches@[i]@ == seq![self.schedule.order@[i]]);
                    assert(self.schedule.order@[i] < self.plugins@.len());
                }
            }
        } else {
            batches.append(&mut self.schedule.layers);
            assert(batches@ =~= old(self).schedule.layers@);
        }
        self.schedule = Schedule { order: Vec::new(), layers: Vec::new() };
        batches
    }

    /// Takes note of how the plugins of the batch under way have started, in the order of the
    /// batch. Any error ends the start; else the next batch is launched, or the first ready hook
    /// run.
    pub fn plugins_started<W>(
        &mut self,
        core: &mut ScopeCore<W>,
        results: Vec<Result<(), Error<H::Cause>>>,
    ) -> (step: StartStep<H::Cause>)
        requires
            old(self).wf(),
            old(self).fits(*old(core)),
            old(core).lifecycle == Lifecycle::Starting,
            old(self).stage matches StartStage::Plugins(k) && results@.len() == old(self).batches@[k as int]@.len(),
        ensures
            final(self).wf(),
            final(self).fits(*final(core)),
            final(self).same_parts(*old(self)),
            final(self).batches == old(self).batches,
            final(self).schedule == old(self).schedule,
            final(self).active == old(self).active,
            final(core).lifecycle.stop_progress() >= old(core).lifecycle.stop_progress(),
            final(core).requested == old(core).requested,
            final(core).abandoned == old(core).abandoned,
            final(core).children == old(core).children,
            final(core).same_signals(*old(core)),
            ({
                let k = old(self).stage->Plugins_0 as int;
                let errors = batch_errors(
                    old(self).plugins@,
                    old(self).batches@[k]@,
                    results@,
                    results@.len(),
                );
                if errors.len() > 0 {
                    final(self).failed_with(errors, step, *final(core)) && final(self).started
                        == old(self).started
                } else {
                    final(self).start_error == old(self).start_error && final(self).at_batch(k + 1, step, *final(core))
                }
            }),
    {
        let k: usize = match self.stage {
            StartStage::Plugins(k) => k,
            _ => 0,
        };
        let ghost given = results@;
        let ghost batch = self.batches@[k as int]@;
        let mut errors: Vec<Error<H::Cause>> = Vec::new();
        let mut i: usize = 0;
        for result in it: results
            invariant
                it.seq() == given,
                i == it.index(),
                *self == *old(self),
                *core == *old(core),
                self.wf(),
                k < self.batches@.len(),
                batch == self.batches@[k as int]@,
                given.len() == batch.len(),
                errors@ == batch_errors(self.plugins@, batch, given, i as nat),
        {
            assert(result == given[i as int]);
            match result {
                Ok(()) => {},
                Err(error) => {
                    let index = self.batches[k][i];
                    assert(self.batches@[k as int]@[i as int] < self.plugins@.len());
                    errors.push(
                        error.into_phase(Phase::Start, Some(self.plugins[index].info.name)),
                    );
                },
            }
            assert(self.batches@[k as int].len() == batch.len());
            i = i + 1;
        }
        if errors.len() > 0 {
            self.fail(errors, core)
        } else {
            assert(self.batches.len() == self.batches@.len());
            self.launch(k + 1, core)
        }
    }

    /// Takes note of how the ready hook under way has ended. An error ends the start; else the
    /// next hook is run, or the start has succeeded.
    pub fn ready_done<W>(
        &mut self,
        core: &mut ScopeCore<W>,
        result: Result<(), Error<H::Cause>>,
    ) -> (step: StartStep<H::Cause>)
        requires
            old(self).wf(),
            old(self).fits(*old(core)),
            old(core).lifecycle == Lifecycle::Starting,
            old(self).stage is Ready,
        ensures
            final(self).wf(),
            final(self).fits(*final(core)),
            final(self).same_parts(*old(self)),
            final(self).batches == old(self).batches,
            final(self).schedule == old(self).schedule,
            final(self).active == old(self).active,
            final(self).started == old(self).started,
            final(core).lifecycle.stop_progress() >= old(core).lifecycle.stop_progress(),
            final(core).requested == old(core).requested,
            final(core).abandoned == old(core).abandoned,
            final(core).children == old(core).children,
            final(core).same_signals(*old(core)),
            match result {
                Err(error) => final(self).failed_with(
                    seq![error.in_phase(Phase::Ready, None)],
                    step,
                    *final(core),
                ),
                Ok(()) => final(self).start_error == old(self).start_error && final(self).at_ready(
                    old(self).stage->Ready_0 + 1,
                    step,
                    *final(core),
                ),
            },
    {
        let k: usize = match self.stage {
            StartStage::Ready(k) => k,
            _ => 0,
        };
        match result {
            Err(error) => {
                let mut errors: Vec<Error<H::Cause>> = Vec::new();
                errors.push(error.into_phase(Phase::Ready, None));
                assert(errors@ =~= seq![error.in_phase(Phase::Ready, None)]);
                self.fail(errors, core)
            },
            Ok(()) => {
                assert(self.ready.len() == self.ready@.len());
                self.next_ready(k + 1, core)
            },
        }
    }
}

impl<C, D> Cleanup<C, D> {
    /// The stage after the stage before the dispose hooks, or after the dispose hook before `k`:
    /// the next hook, if there is one.
    pub open spec fn dispose_stage(k: nat, hooks: nat) -> CleanupStage {
        if k < hooks {
            CleanupStage::Dispose(k as usize)
        } else {
            CleanupStage::Finished
        }
    }

    /// The steps that the cleanup still has to take, where there are `hooks` dispose hooks.
    pub open spec fn remaining(self, hooks: nat) -> Seq<CleanupStep> {
        match self.stage {
            CleanupStage::Plugins => cleanup_plan(self.started@, hooks),
            CleanupStage::Tasks => seq![CleanupStep::DrainTasks, CleanupStep::DrainNotify]
                + disposals(0, hooks),
            CleanupStage::Notify => seq![CleanupStep::DrainNotify] + disposals(0, hooks),
            CleanupStage::Dispose(k) => disposals(k as nat, hooks),
            CleanupStage::Finished => Seq::empty(),
        }
    }
}

impl<H: Host> Runtime<H> {
    /// The steps that the cleanup under way still has to take.
    pub open spec fn to_clean(self) -> Seq<CleanupStep> {
        self.cleanup->0.remaining(self.dispose@.len())
    }

    /// Whether `after` is the runtime after the next step of its cleanup was taken and led to the
    /// errors `added`: that step is done, the errors come last, and nothing else has changed.
    pub open spec fn moves_on(self, added: Seq<Error<H::Cause>>, after: Self) -> bool {
        &&& self.cleanup is Some
        &&& after.cleanup is Some
        &&& after == (Runtime { cleanup: after.cleanup, ..self })
        &&& self.to_clean().len() > 0
        &&& after.to_clean() == self.to_clean().skip(1)
        &&& after.cleanup->0.errors@ == self.cleanup->0.errors@ + added
        &&& after.cleanup->0.deadline == self.cleanup->0.deadline
    }
}

/// A cleanup takes its steps in the planned order, each once: when it has taken `added.len()` steps,
/// the `k`-th was the `k`-th of those that it had to take at first, and the others are left. Its
/// errors are those that it had at first, and then those of each step in turn. The plugins, the
/// hooks, the deadline and the error of a failed start stay as they were.
pub proof fn a_cleanup_follows_its_plan<H: Host>(
    states: Seq<Runtime<H>>,
    added: Seq<Seq<Error<H::Cause>>>,
)
    requires
        states.len() == added.len() + 1,
        forall|k: int|
            0 <= k < added.len() ==> states[k].moves_on(#[trigger] added[k], states[k + 1]),
    ensures
        added.len() > 0 ==> added.len() <= states[0].to_clean().len(),
        forall|k: int|
            0 <= k < added.len() ==> (#[trigger] states[k]).to_clean()[0] == states[0].to_clean()[k],
        states.last().to_clean() == states[0].to_clean().skip(added.len() as int),
        added.len() > 0 ==> states.last().cleanup->0.errors@ == states[0].cleanup->0.errors@
            + added.flatten(),
        added.len() > 0 ==> states.last().cleanup->0.deadline == states[0].cleanup->0.deadline,
        states.last() == (Runtime { cleanup: states.last().cleanup, ..states[0] }),
    decreases added.len(),
{
    let first = states[0].to_clean();
    if added.len() == 0 {
        assert(first.skip(0) =~= first);
    } else {
        let n = added.len() - 1;
        let fewer = added.drop_last();
        let earlier = states.drop_last();
        assert forall|k: int| 0 <= k < fewer.len() implies earlier[k].moves_on(
            #[trigger] fewer[k],
            earlier[k + 1],
        ) by {
            assert(states[k].moves_on(added[k], states[k + 1]));
        }
        a_cleanup_follows_its_plan(earlier, fewer);
        assert(earlier.last() == states[n]);
        assert(states[n].moves_on(added[n], states[n + 1]));
        assert(states.last().to_clean() =~= first.skip(added.len() as int));
        assert forall|k: int| 0 <= k < added.len() implies (
        #[trigger] states[k]).to_clean()[0] == first[k] by {
            if k < n {
                assert(earlier[k] == states[k]);
            }
        }
        assert(fewer.push(added[n]) =~= added);
        lemma_flatten_grows(fewer, added[n]);
        if n == 0 {
            assert(fewer =~= Seq::empty());
            assert(fewer.flatten() =~= Seq::empty());
        }
        assert(states.last().cleanup->0.errors@ =~= states[0].cleanup->0.errors@ + added.flatten());
    }
}

proof fn lemma_flatten_grows<A>(parts: Seq<Seq<A>>, last: Seq<A>)
    ensures
        parts.push(last).flatten() == parts.flatten() + last,
    decreases parts.len(),
{
    let whole = parts.push(last);
    if parts.len() == 0 {
        assert(whole.first() == last);
        assert(whole.drop_first() =~= Seq::empty());
        assert(whole.drop_first().flatten() =~= Seq::empty());
        assert(whole.flatten() =~= parts.flatten() + last);
    } else {
        lemma_flatten_grows(parts.drop_first(), last);
        assert(whole.drop_first() =~= parts.drop_first().push(last));
        assert(whole.first() == parts.first());
        assert(whole.flatten() =~= parts.flatten() + last);
    }
}

/// The steps that stop the started plugins, the one that started last first.
pub open spec fn plugin_stops(started: Seq<usize>) -> Seq<CleanupStep> {
    Seq::new(started.len(), |i: int| CleanupStep::StopPlugin(started[started.len() - 1 - i]))
}

/// The steps that run the dispose hooks from the one numbered `from` on, in order.
pub open spec fn disposals(from: nat, hooks: nat) -> Seq<CleanupStep> {
    Seq::new(
        if from < hooks {
            (hooks - from) as nat
        } else {
            0
        },
        |i: int| CleanupStep::Dispose((from + i) as usize),
    )
}

/// The steps of a whole cleanup: the started plugins are stopped in the reverse order, then the
/// tasks and the notifications are waited for, and then the dispose hooks run in order.
pub open spec fn cleanup_plan(started: Seq<usize>, hooks: nat) -> Seq<CleanupStep> {
    plugin_stops(started) + seq![CleanupStep::DrainTasks, CleanupStep::DrainNotify] + disposals(
        0,
        hooks,
    )
}

impl<H: Host> Runtime<H> {
    /// Begins a stop, or takes it up again.
    ///
    /// The first time, the scope commits to stopping, for good. A scope that is blocked has
    /// committed before; one that is being cleaned up goes on with that.
    pub fn begin_stop<W>(&self, core: &mut ScopeCore<W>) -> (entry: StopEntry)
        requires
            self.wf(),
            self.fits(*old(core)),
        ensures
            self.fits(*final(core)),
            final(core).lifecycle.stop_progress() >= old(core).lifecycle.stop_progress(),
            entry == match old(core).lifecycle {
                Lifecycle::Stopped => StopEntry::AlreadyStopped,
                Lifecycle::Stopping => StopEntry::Resume,
                Lifecycle::Closing => StopEntry::Committed { first: false },
                _ => StopEntry::Committed { first: true },
            },
            final(core).lifecycle == if entry == (StopEntry::Committed { first: true }) {
                Lifecycle::Closing
            } else {
                old(core).lifecycle
            },
            final(core).requested == old(core).requested,
            final(core).abandoned == old(core).abandoned,
            final(core).children == old(core).children,
            final(core).same_signals(*old(core)),
    {
        match core.lifecycle() {
            Lifecycle::Stopped => StopEntry::AlreadyStopped,
            Lifecycle::Stopping => StopEntry::Resume,
            _ => {
                let first = core.begin_close();
                StopEntry::Committed { first }
            },
        }
    }

    /// Goes on with a stop that was committed: the signal to wind up fires in any case; then,
    /// unless a child scope holds a lease, the cleanup begins, with the errors of the closing
    /// hooks first. Hands back the wakers of those who waited for the signal.
    ///
    /// `deadline` says until when tasks are waited for. It is fixed here: taking the stop up again
    /// does not change it.
    pub fn enter_cleanup<W>(
        &mut self,
        core: &mut ScopeCore<W>,
        closing: &mut ClosingHooks<H::CloseHook, H::Cause>,
        deadline: Option<H::Deadline>,
    ) -> (result: (Result<(), StopOutcome<H::Cause>>, Vec<W>))
        requires
            old(self).wf(),
            old(self).fits(*old(core)),
            old(core).lifecycle == Lifecycle::Closing,
            old(closing).wf(),
        ensures
            final(self).wf(),
            final(self).fits(*final(core)),
            final(closing).wf(),
            final(core).cancellation.fired,
            final(core).settled == old(core).settled,
            final(core).lifecycle.stop_progress() >= old(core).lifecycle.stop_progress(),
            final(core).requested == old(core).requested,
            final(core).abandoned == old(core).abandoned,
            final(core).children == old(core).children,
            result.1@ == crate::waiters::Waiters::wakers(
                old(core).cancellation.slots@,
                old(core).cancellation.slots@.len(),
            ),
            result.0 is Err <==> old(core).children@.len() > 0,
            result.0 matches Err(outcome) ==> {
                &&& outcome matches StopOutcome::Blocked(blockers) && blockers.ids@ == old(core).children@
                &&& *final(self) == *old(self)
                &&& *final(closing) == *old(closing)
                &&& final(core).lifecycle == Lifecycle::Closing
            },
            result.0 is Ok ==> {
                &&& final(core).lifecycle == Lifecycle::Stopping
                &&& final(self).started@.len() == 0
                &&& final(self).start_error == old(self).start_error
                &&& final(self).cleanup matches Some(cleanup) && {
                    &&& cleanup.started@ == old(self).started@
                    &&& cleanup.stage == if old(self).started@.len() > 0 {
                        CleanupStage::Plugins
                    } else {
                        CleanupStage::Tasks
                    }
                    &&& cleanup.errors@ == old(closing).errors@
                    &&& cleanup.deadline == deadline
                    &&& cleanup.remaining(old(self).dispose@.len()) == cleanup_plan(old(self).started@, old(self).dispose@.len())
                }
                &&& *final(self) == (Runtime {
                    started: final(self).started,
                    stage: StartStage::Idle,
                    cleanup: final(self).cleanup,
                    ..*old(self)
                })
                &&& final(closing).errors@.len() == 0
                &&& *final(closing) == (ClosingHooks {
                    errors: final(closing).errors,
                    ..*old(closing)
                })
            },
    {
        let wakers = core.cancel();
        match core.enter_cleanup() {
            Err(blockers) => (Err(StopOutcome::Blocked(blockers)), wakers),
            Ok(()) => {
                let errors = closing.take_errors();
                let mut started: Vec<usize> = Vec::new();
                started.append(&mut self.started);
                assert(started@ =~= old(self).started@);
                self.stage = StartStage::Idle;
                let stage = if started.len() > 0 {
                    CleanupStage::Plugins
                } else {
                    CleanupStage::Tasks
                };
                self.cleanup = Some(Cleanup { started, stage, errors, deadline });
                (Ok(()), wakers)
            },
        }
    }

    /// Until when tasks are waited for in the cleanup that is under way.
    pub fn cleanup_deadline(&self) -> (deadline: Option<&H::Deadline>)
        requires
            self.cleanup is Some,
        ensures
            deadline == match self.cleanup->0.deadline {
                Some(deadline) => Some(&deadline),
                None => None,
            },
    {
        match &self.cleanup {
            Some(cleanup) => cleanup.deadline.as_ref(),
            None => None,
        }
    }

    /// What is to be done next in the cleanup that is under way. Asking changes nothing, so a
    /// cleanup that was interrupted goes on where it was.
    pub fn cleanup_step(&self) -> (step: CleanupStep)
        requires
            self.wf(),
            self.cleanup is Some,
        ensures
            step == match self.cleanup->0.stage {
                CleanupStage::Plugins => CleanupStep::StopPlugin(self.cleanup->0.started@.last()),
                CleanupStage::Tasks => CleanupStep::DrainTasks,
                CleanupStage::Notify => CleanupStep::DrainNotify,
                CleanupStage::Dispose(k) => CleanupStep::Dispose(k),
                CleanupStage::Finished => CleanupStep::Finish,
            },
            ({
                let remaining = self.cleanup->0.remaining(self.dispose@.len());
                step == if remaining.len() > 0 {
                    remaining[0]
                } else {
                    CleanupStep::Finish
                }
            }),
            step matches CleanupStep::StopPlugin(index) ==> index < self.plugins@.len(),
            step matches CleanupStep::Dispose(k) ==> k < self.dispose@.len(),
    {
        match &self.cleanup {
            None => CleanupStep::Finish,
            Some(cleanup) => match cleanup.stage {
                CleanupStage::Plugins => CleanupStep::StopPlugin(
                    cleanup.started[cleanup.started.len() - 1],
                ),
                CleanupStage::Tasks => CleanupStep::DrainTasks,
                CleanupStage::Notify => CleanupStep::DrainNotify,
                CleanupStage::Dispose(k) => CleanupStep::Dispose(k),
                CleanupStage::Finished => CleanupStep::Finish,
            },
        }
    }

    /// Takes note of how the plugin's stop, or the dispose hook, under way has ended. An error is
    /// kept, and the cleanup goes on: with the plugin that started before, or the next hook.
    pub fn unit_ended(&mut self, end: UnitEnd<H::Cause>)
        requires
            old(self).wf(),
            old(self).cleanup is Some,
            old(self).cleanup->0.stage is Plugins || old(self).cleanup->0.stage is Dispose,
        ensures
            final(self).wf(),
            ({
                let before = old(self).cleanup->0;
                let after = final(self).cleanup->0;
                let (phase, plugin) = if before.stage is Plugins {
                    (
                        Phase::Stop,
                        Some(old(self).plugins@[before.started@.last() as int].info.name),
                    )
                } else {
                    (Phase::Dispose, None)
                };
                &&& old(self).moves_on(unit_errors(phase, plugin, end), *final(self))
                &&& before.stage is Plugins ==> {
                    &&& after.started@ == before.started@.drop_last()
                    &&& after.stage == if before.started@.len() > 1 {
                        CleanupStage::Plugins
                    } else {
                        CleanupStage::Tasks
                    }
                }
                &&& before.stage matches CleanupStage::Dispose(k) ==> {
                    &&& after.started@ == before.started@
                    &&& after.stage == Cleanup::<H::Cause, H::Deadline>::dispose_stage(
                        (k + 1) as nat,
                        old(self).dispose@.len(),
                    )
                }
            }),
    {
        let taken = self.cleanup.take();
        match taken {
            None => {},
            Some(cleanup) => {
                let mut cleanup = cleanup;
                match cleanup.stage {
                    CleanupStage::Plugins => {
                        let index = cleanup.started[cleanup.started.len() - 1];
                        let name = self.plugins[index].info.name;
                        match run_lifecycle_unit(Phase::Stop, Some(name), end) {
                            Some(error) => {
                                cleanup.errors.push(error);
                            },
                            None => {},
                        }
                        cleanup.started.pop();
                        if cleanup.started.len() == 0 {
                            cleanup.stage = CleanupStage::Tasks;
                        }
                    },
                    CleanupStage::Dispose(k) => {
                        match run_lifecycle_unit(Phase::Dispose, None, end) {
                            Some(error) => {
                                cleanup.errors.push(error);
                            },
                            None => {},
                        }
                        assert(self.dispose.len() == self.dispose@.len());
                        if k + 1 < self.dispose.len() {
                            cleanup.stage = CleanupStage::Dispose(k + 1);
                        } else {
                            cleanup.stage = CleanupStage::Finished;
                        }
                    },
                    _ => {},
                }
                self.cleanup = Some(cleanup);
            },
        }
        proof {
            let before = old(self).cleanup->0;
            let (phase, plugin) = if before.stage is Plugins {
                (Phase::Stop, Some(old(self).plugins@[before.started@.last() as int].info.name))
            } else {
                (Phase::Dispose, None)
            };
            assert(self.to_clean() =~= old(self).to_clean().skip(1));
            assert(self.cleanup->0.errors@ =~= before.errors@ + unit_errors(phase, plugin, end));
        }
    }

    /// Takes note that the tasks were waited for, and of what is to be reported of them.
    pub fn tasks_drained(&mut self, reports: Vec<Error<H::Cause>>)
        requires
            old(self).wf(),
            old(self).cleanup is Some,
            old(self).cleanup->0.stage == CleanupStage::Tasks,
        ensures
            final(self).wf(),
            old(self).moves_on(reports@, *final(self)),
            final(self).cleanup->0.stage == CleanupStage::Notify,
            final(self).cleanup->0.started@ == old(self).cleanup->0.started@,
    {
        let taken = self.cleanup.take();
        match taken {
            None => {},
            Some(cleanup) => {
                let mut cleanup = cleanup;
                let mut reports = reports;
                cleanup.errors.append(&mut reports);
                cleanup.stage = CleanupStage::Notify;
                self.cleanup = Some(cleanup);
            },
        }
        assert(self.to_clean() =~= old(self).to_clean().skip(1));
    }

    /// Takes note that the notifications were waited for. Those that were not delivered are no
    /// error.
    pub fn notify_drained(&mut self)
        requires
            old(self).wf(),
            old(self).cleanup is Some,
            old(self).cleanup->0.stage == CleanupStage::Notify,
        ensures
            final(self).wf(),
            old(self).moves_on(Seq::empty(), *final(self)),
            final(self).cleanup->0.stage == Cleanup::<H::Cause, H::Deadline>::dispose_stage(
                0,
                old(self).dispose@.len(),
            ),
            final(self).cleanup->0.started@ == old(self).cleanup->0.started@,
    {
        let taken = self.cleanup.take();
        match taken {
            None => {},
            Some(cleanup) => {
                let mut cleanup = cleanup;
                cleanup.stage = if self.dispose.len() > 0 {
                    CleanupStage::Dispose(0)
                } else {
                    CleanupStage::Finished
                };
                self.cleanup = Some(cleanup);
            },
        }
        proof {
            let errors = old(self).cleanup->0.errors@;
            assert(self.to_clean() =~= old(self).to_clean().skip(1));
            assert(self.cleanup->0.errors@ =~= errors + Seq::empty());
        }
    }

    /// Gives up what a cleanup that is done has no more use for. The plugins and the dispose hooks
    /// are to be dropped first; then the lease on the enclosing scope, if there is one, is to be
    /// given back there.
    pub fn retire(&mut self) -> (retired: Retired<H>)
        requires
            old(self).wf(),
            old(self).cleanup is Some,
            old(self).cleanup->0.stage == CleanupStage::Finished,
        ensures
            final(self).wf(),
            retired.plugins@ == old(self).plugins@,
            retired.dispose@ == old(self).dispose@,
            retired.lease == old(self).lease,
            final(self).plugins@.len() == 0,
            final(self).dispose@.len() == 0,
            final(self).schedule.is_empty(),
            final(self).batches@.len() == 0,
            *final(self) == (Runtime {
                plugins: final(self).plugins,
                dispose: final(self).dispose,
                schedule: final(self).schedule,
                batches: final(self).batches,
                lease: None,
                ..*old(self)
            }),
    {
        let mut plugins: Vec<PluginRecord<H::Plugin>> = Vec::new();
        plugins.append(&mut self.plugins);
        assert(plugins@ =~= old(self).plugins@);
        let mut dispose: Vec<H::Hook> = Vec::new();
        dispose.append(&mut self.dispose);
        assert(dispose@ =~= old(self).dispose@);
        self.schedule = Schedule { order: Vec::new(), layers: Vec::new() };
        self.batches = Vec::new();
        let lease = self.lease.take();
        Retired { plugins, dispose, lease }
    }

    /// Ends a stop whose cleanup is done and whose lease was given back: the scope is stopped, and
    /// those who waited for that are to be woken. The errors of closing hooks that ran during the
    /// cleanup come last.
    ///
    /// That the lease is given back first means that a scope that its parent still lists among its
    /// children is never stopped.
    pub fn complete_stop<W>(
        &mut self,
        core: &mut ScopeCore<W>,
        closing: &mut ClosingHooks<H::CloseHook, H::Cause>,
    ) -> (result: (StopOutcome<H::Cause>, Vec<W>))
        requires
            old(self).wf(),
            old(self).fits(*old(core)),
            old(self).cleanup is Some,
            old(self).cleanup->0.stage == CleanupStage::Finished,
            old(self).lease is None,
            old(closing).wf(),
        ensures
            final(self).wf(),
            final(self).fits(*final(core)),
            final(closing).wf(),
            final(closing).errors@.len() == 0,
            *final(closing) == (ClosingHooks { errors: final(closing).errors, ..*old(closing) }),
            final(core).lifecycle == Lifecycle::Stopped,
            final(core).lifecycle.stop_progress() >= old(core).lifecycle.stop_progress(),
            final(core).settled.fired,
            final(core).cancellation == old(core).cancellation,
            final(core).requested == old(core).requested,
            final(core).abandoned == old(core).abandoned,
            final(core).children == old(core).children,
            *final(self) == (Runtime { cleanup: None, active: false, ..*old(self) }),
            result.0 matches StopOutcome::Stopped { errors } && errors@ == old(self).cleanup->0.errors@ + old(closing).errors@,
            result.1@ == crate::waiters::Waiters::wakers(
                old(core).settled.slots@,
                old(core).settled.slots@.len(),
            ),
    {
        let taken = self.cleanup.take();
        let mut errors: Vec<Error<H::Cause>> = match taken {
            Some(cleanup) => cleanup.errors,
            None => Vec::new(),
        };
        let mut late = closing.take_errors();
        errors.append(&mut late);
        core.set_lifecycle(Lifecycle::Stopped);
        self.active = false;
        let wakers = core.settle();
        (StopOutcome::Stopped { errors }, wakers)
    }

    /// Gives up a scope whose owner is dropped. Unless it is stopped, it takes no new work any
    /// more, its closing hooks are not run, those who wait for it to wind up or to come to rest
    /// are to be woken, and it has come to rest as abandoned.
    pub fn abandon<W>(
        &self,
        core: &mut ScopeCore<W>,
        closing: &mut ClosingHooks<H::CloseHook, H::Cause>,
    ) -> (wakers: (Vec<W>, Vec<W>))
        requires
            old(core).wf(),
            old(closing).wf(),
        ensures
            final(core).wf(),
            final(closing).wf(),
            final(core).lifecycle.stop_progress() >= old(core).lifecycle.stop_progress(),
            old(core).lifecycle == Lifecycle::Stopped ==> *final(core) == *old(core)
                && *final(closing) == *old(closing) && wakers.0@.len() == 0 && wakers.1@.len() == 0,
            old(core).lifecycle != Lifecycle::Stopped ==> {
                &&& final(core).lifecycle == if old(core).lifecycle.shutting_down() {
                    old(core).lifecycle
                } else {
                    Lifecycle::Closing
                }
                &&& final(core).abandoned
                &&& final(core).requested == old(core).requested
                &&& final(core).children == old(core).children
                &&& final(core).cancellation.fired
                &&& final(core).settled.fired
                &&& *final(closing) == (ClosingHooks {
                    dispatch: crate::closing::CloseDispatch::Dispatched,
                    ..*old(closing)
                })
                &&& wakers.0@ == crate::waiters::Waiters::wakers(
                    old(core).cancellation.slots@,
                    old(core).cancellation.slots@.len(),
                )
                &&& wakers.1@ == crate::waiters::Waiters::wakers(
                    old(core).settled.slots@,
                    old(core).settled.slots@.len(),
                )
            },
    {
        if matches!(core.lifecycle(), Lifecycle::Stopped) {
            return (Vec::new(), Vec::new());
        }
        core.begin_close();
        closing.settle_dispatch();
        let cancelled = core.cancel();
        let settled = core.abandon();
        (cancelled, settled)
    }

    /// What is wrong with dropping the owner of a scope in this state.
    pub open spec fn diagnosis<W>(core: ScopeCore<W>) -> Seq<char> {
        match core.lifecycle {
            Lifecycle::Stopping => "Runtime dropped while stopping: cleanup did not complete and plugin resources or dispose hooks were not fully reclaimed"@,
            Lifecycle::Closing => if core.children@.len() == 0 {
                "Runtime dropped after stop() was blocked: the blocking scopes were reclaimed but stop() was not retried, so cleanup never ran"@
            } else {
                "Runtime dropped after stop() was blocked by active child scopes (ids: "@ + ("["@
                    + crate::id::ids_text(core.children@, core.children@.len()) + "]"@)
                    + "); drop or stop those scopes, then retry stop()"@
            },
            _ => "Runtime dropped without stop(): plugin resources and dispose hooks were not reclaimed"@,
        }
    }

    /// Says what is wrong with dropping the owner of a scope that was started and not stopped. The
    /// blocking scopes are those of now, not those of the last attempt to stop.
    pub fn drop_diagnostic<W>(&self, core: &ScopeCore<W>) -> (message: String)
        ensures
            message@ == Self::diagnosis(*core),
    {
        match core.lifecycle() {
            Lifecycle::Stopping => String::from_str(
                "Runtime dropped while stopping: cleanup did not complete and plugin resources or dispose hooks were not fully reclaimed",
            ),
            Lifecycle::Closing => {
                let children = core.children();
                if children.len() == 0 {
                    String::from_str(
                        "Runtime dropped after stop() was blocked: the blocking scopes were reclaimed but stop() was not retried, so cleanup never ran",
                    )
                } else {
                    let mut message = String::from_str(
                        "Runtime dropped after stop() was blocked by active child scopes (ids: ",
                    );
                    push_ids(&mut message, &children);
                    message.append("); drop or stop those scopes, then retry stop()");
                    message
                }
            },
            _ => String::from_str(
                "Runtime dropped without stop(): plugin resources and dispose hooks were not reclaimed",
            ),
        }
    }

    /// What is to be said when the owner is dropped: nothing where no start was begun or the scope
    /// is stopped, nor while the thread is unwinding.
    pub fn drop_report<W>(&self, core: &ScopeCore<W>, panicking: bool) -> (message: Option<String>)
        ensures
            message is Some <==> self.active && !panicking,
            message matches Some(text) ==> text@ == Self::diagnosis(*core),
    {
        if !panicking && self.active {
            Some(self.drop_diagnostic(core))
        } else {
            None
        }
    }
}

proof fn lemma_launched_prefix(batches: Seq<Vec<usize>>, a: nat, b: nat)
    requires
        a <= b <= batches.len(),
    ensures
        launched(batches, a).len() <= launched(batches, b).len(),
        launched(batches, b).take(launched(batches, a).len() as int) == launched(batches, a),
    decreases b,
{
    let first = launched(batches, a);
    if a == b {
        assert(first.take(first.len() as int) =~= first);
    } else {
        lemma_launched_prefix(batches, a, (b - 1) as nat);
        let shorter = launched(batches, (b - 1) as nat);
        let longer = launched(batches, b);
        assert(longer.take(first.len() as int) =~= shorter.take(first.len() as int));
    }
}

proof fn lemma_launched_origin(batches: Seq<Vec<usize>>, k: nat, i: int) -> (origin: (int, int))
    requires
        k <= batches.len(),
        0 <= i < launched(batches, k).len(),
    ensures
        0 <= origin.0 < k,
        0 <= origin.1 < batches[origin.0]@.len(),
        i == launched(batches, origin.0 as nat).len() + origin.1,
        launched(batches, k)[i] == batches[origin.0]@[origin.1],
    decreases k,
{
    let before = launched(batches, (k - 1) as nat);
    if i < before.len() {
        lemma_launched_origin(batches, (k - 1) as nat, i)
    } else {
        (k - 1, i - before.len())
    }
}

/// Whatever way a scope was started, and however far the start came, a plugin was started after
/// every plugin that it needs. As plugins are stopped in the reverse order, it is stopped before
/// them.
pub proof fn plugins_start_after_what_they_need(
    graph: crate::schedule::Graph,
    schedule: Schedule,
    serial: bool,
    batches: Seq<Vec<usize>>,
    k: nat,
    i: int,
    j: int,
)
    requires
        graph.wf(),
        graph.scheduled(schedule),
        batched(schedule, serial, batches),
        k <= batches.len(),
        0 <= i < launched(batches, k).len(),
        0 <= j < launched(batches, k).len(),
        graph.depends(launched(batches, k)[i] as int, launched(batches, k)[j] as int),
    ensures
        j < i,
{
    let started = launched(batches, k);
    let need = started[j] as int;
    let (d, p) = lemma_launched_origin(batches, k, i);
    let (e, q) = lemma_launched_origin(batches, k, j);
    if serial {
        let order = schedule.order@;
        crate::schedule::order_holds_each_plugin_once(graph, order);
        lemma_singles(schedule, batches, d as nat);
        lemma_singles(schedule, batches, e as nat);
        assert(batches[d]@ == seq![order[d]] && batches[e]@ == seq![order[e]]);
        crate::schedule::order_respects_dependencies(graph, order, d, need);
        let r = choose|r: int| 0 <= r < d && #[trigger] order[r] == need;
        assert(order[e] == order[r]);
        assert(e == r);
    } else {
        crate::schedule::layers_respect_dependencies(graph, schedule, d, p, need);
        let f = choose|f: int|
            0 <= f < d && #[trigger] schedule.layers@[f]@.contains(need as usize);
        crate::schedule::schedule_stays_in_range(graph, schedule);
        assert(schedule.layers@[e]@[q] < graph.size());
        crate::schedule::layers_hold_each_plugin_once(graph, schedule, need);
        assert(schedule.layers@[e]@[q] == need as usize);
        assert(schedule.layers@[e]@.contains(need as usize));
        assert(e == f);
        lemma_launched_prefix(batches, (e + 1) as nat, d as nat);
        assert(launched(batches, (e + 1) as nat).len() == launched(batches, e as nat).len()
            + batches[e]@.len());
    }
}

proof fn lemma_singles(schedule: Schedule, batches: Seq<Vec<usize>>, k: nat)
    requires
        batched(schedule, true, batches),
        k <= batches.len(),
    ensures
        launched(batches, k).len() == k,
    decreases k,
{
    if k > 0 {
        lemma_singles(schedule, batches, (k - 1) as nat);
        assert(batches[k - 1]@ == seq![schedule.order@[k - 1]]);
    }
}

/// Whether a start that nothing fails in goes on from `before` to `after` with `step`: to what comes
/// after the batch, or after the ready hook, that is under way.
pub open spec fn start_goes_on<H: Host, W>(
    before: Runtime<H>,
    step: StartStep<H::Cause>,
    after: Runtime<H>,
    core: ScopeCore<W>,
) -> bool {
    &&& after.same_parts(before)
    &&& after.batches == before.batches
    &&& match before.stage {
        StartStage::Plugins(k) => after.at_batch(k + 1, step, core),
        StartStage::Ready(k) => after.at_ready(k + 1, step, core),
        StartStage::Idle => false,
    }
}

/// A start in which nothing fails launches every batch, in order, then runs every ready hook, in
/// order, and then the scope is running.
pub proof fn a_start_goes_through_batches_and_hooks<H: Host, W>(
    states: Seq<Runtime<H>>,
    steps: Seq<StartStep<H::Cause>>,
    cores: Seq<ScopeCore<W>>,
    j: int,
)
    requires
        states.len() == steps.len(),
        cores.len() == steps.len(),
        0 <= j < steps.len(),
        states[0].at_batch(0, steps[0], cores[0]),
        forall|i: int, k: int|
            0 <= i && k == i + 1 && k < steps.len() ==> #[trigger] start_goes_on(
                states[i],
                steps[k],
                states[k],
                cores[k],
            ),
    ensures
        states[j].batches == states[0].batches,
        states[j].same_parts(states[0]),
        j <= states[0].batches@.len() + states[0].ready@.len(),
        ({
            let batches = states[0].batches@;
            let hooks = states[0].ready@.len();
            if j < batches.len() {
                &&& steps[j] matches StartStep::Launch(batch) && batch@ == batches[j]@
                &&& states[j].stage == StartStage::Plugins(j as usize)
                &&& cores[j].lifecycle == Lifecycle::Starting
            } else if j < batches.len() + hooks {
                &&& steps[j] == StartStep::<H::Cause>::Ready((j - batches.len()) as usize)
                &&& states[j].stage == StartStage::Ready((j - batches.len()) as usize)
                &&& cores[j].lifecycle == Lifecycle::Starting
            } else {
                &&& steps[j] == StartStep::<H::Cause>::Done(Ok(()))
                &&& states[j].stage == StartStage::Idle
                &&& cores[j].lifecycle == Lifecycle::Running
            }
        }),
    decreases j,
{
    assert(states[0].batches.len() == states[0].batches@.len());
    assert(states[0].ready.len() == states[0].ready@.len());
    if j > 0 {
        a_start_goes_through_batches_and_hooks(states, steps, cores, j - 1);
        assert(start_goes_on(states[j - 1], steps[j], states[j], cores[j]));
    }
}

/// A start that came through has started every plugin once.
pub proof fn a_complete_start_reaches_every_plugin(
    graph: crate::schedule::Graph,
    schedule: Schedule,
    serial: bool,
    batches: Seq<Vec<usize>>,
    plugin: int,
)
    requires
        graph.wf(),
        graph.scheduled(schedule),
        batched(schedule, serial, batches),
        0 <= plugin < graph.size(),
    ensures
        launched(batches, batches.len()).contains(plugin as usize),
{
    assert(graph.needs.len() == graph.size());
    let d = if serial {
        crate::schedule::order_holds_each_plugin_once(graph, schedule.order@);
        assert(schedule.order@.contains(plugin as usize));
        choose|d: int| 0 <= d < schedule.order@.len() && schedule.order@[d] == plugin as usize
    } else {
        crate::schedule::layers_hold_each_plugin_once(graph, schedule, plugin);
        choose|d: int|
            0 <= d < schedule.layers@.len() && #[trigger] schedule.layers@[d]@.contains(
                plugin as usize,
            )
    };
    if serial {
        assert(batches[d]@ == seq![schedule.order@[d]]);
        assert(batches[d]@[0] == plugin as usize);
    }
    let p = choose|p: int| 0 <= p < batches[d]@.len() && batches[d]@[p] == plugin as usize;
    lemma_launched_prefix(batches, (d + 1) as nat, batches.len());
    let part = launched(batches, (d + 1) as nat);
    let at = launched(batches, d as nat).len() + p;
    assert(part[at] == plugin as usize);
    assert(launched(batches, batches.len()).take(part.len() as int)[at] == part[at]);
    assert(launched(batches, batches.len())[at] == plugin as usize);
}

/// A cleanup stops each plugin whose start was begun, once, in the reverse of the order in which
/// they started: where one started before another, it is stopped after it.
pub proof fn plugins_stop_in_reverse(started: Seq<usize>, hooks: nat, earlier: int, later: int)
    requires
        started.no_duplicates(),
        0 <= earlier < later < started.len(),
    ensures
        exists|i: int, k: int|
            0 <= i < k < cleanup_plan(started, hooks).len() && #[trigger] cleanup_plan(started, hooks)[i]
                == CleanupStep::StopPlugin(started[later]) && #[trigger] cleanup_plan(started, hooks)[k]
                == CleanupStep::StopPlugin(started[earlier]),
        forall|i: int, k: int|
            0 <= i < k < cleanup_plan(started, hooks).len() && cleanup_plan(started, hooks)[i]
                is StopPlugin ==> #[trigger] cleanup_plan(started, hooks)[i]
                != #[trigger] cleanup_plan(started, hooks)[k],
{
    let plan = cleanup_plan(started, hooks);
    let n = started.len();
    assert(plan[n - 1 - later] == CleanupStep::StopPlugin(started[later]));
    assert(plan[n - 1 - earlier] == CleanupStep::StopPlugin(started[earlier]));
    assert forall|i: int, k: int| 0 <= i < k < plan.len() && plan[i] is StopPlugin implies
        #[trigger] plan[i] != #[trigger] plan[k] by {
        assert(i < n);
        if k < n {
            assert(plan[i] == CleanupStep::StopPlugin(started[n - 1 - i]));
            assert(plan[k] == CleanupStep::StopPlugin(started[n - 1 - k]));
        }
    }
}

/// A cleanup runs every dispose hook, in order, whatever was started: after all plugins were
/// stopped and the tasks and notifications were waited for. Where nothing was started, no plugin
/// is stopped.
pub proof fn dispose_hooks_always_run(started: Seq<usize>, hooks: nat)
    ensures
        cleanup_plan(started, hooks).len() == started.len() + 2 + hooks,
        forall|k: int|
            0 <= k < hooks ==> #[trigger] cleanup_plan(started, hooks)[started.len() + 2 + k]
                == CleanupStep::Dispose(k as usize),
        cleanup_plan(started, hooks)[started.len() as int] == CleanupStep::DrainTasks,
        cleanup_plan(started, hooks)[started.len() as int + 1] == CleanupStep::DrainNotify,
        started.len() == 0 ==> forall|i: int|
            0 <= i < cleanup_plan(started, hooks).len() ==> !(#[trigger] cleanup_plan(
                started,
                hooks,
            )[i] is StopPlugin),
{
}

} // verus!
