//! Whole scopes at work: a small asynchronous host around the library, and scenarios on it.

use std::any::{Any, TypeId};
use std::collections::HashMap;
use std::future::{poll_fn, Future};
use std::marker::PhantomData;
use std::ops::{Deref, DerefMut};
use std::pin::Pin;
use std::sync::atomic::{AtomicBool, AtomicUsize, Ordering};
use std::sync::{Arc, Mutex, MutexGuard, OnceLock, PoisonError, RwLock, Weak};
use std::task::{Context as TaskContext, Poll, Waker};
use std::time::{Duration, Instant};

use cordis::builder::Checkpoint;
use cordis::closing::{
    hook_outcome, ClosingHookDepth, ClosingHooks, MAX_CHAINED_CLOSING_HOOKS,
    MAX_CLOSING_HOOK_ROUNDS,
};
use cordis::context::Host;
use cordis::error::{Phase, Source};
use cordis::event::{
    join_layer, AsyncFnEventHandler, Emission, ErrorPolicy, Event, EventControl, FnEventHandler,
    LayerRun, Scheduling, Subscription,
};
use cordis::id::{ScopeId, ScopeIds, TaskId};
use cordis::notify::{
    Backlog, LaneInput, NotifyHub, Receipt, WorkerAction, WorkerEvent, WorkerMode,
    DEFAULT_LANE_CAPACITY,
};
use cordis::plugin::{Dependency, PluginDependency, PluginScope, ServiceKey};
use cordis::registry::CloseStatus;
use cordis::runtime::{AsyncHook, Built, CleanupStep, StartStep, StopEntry, SyncHook, UnitEnd};
use cordis::schedule::PluginInfo;
use cordis::scope::{Lifecycle, ScopeCore, Settlement};
use cordis::service::{Found, FoundMut, TypedFactory};
use cordis::tasks::{panic_message, AbortReason, BodyEnd, TaskCell, TaskRegistry};
use cordis::waiters::{Readiness, WaitId};
use futures::future::{join_all, select, BoxFuture, Either};
use futures::task::ArcWake;
use futures::FutureExt;
use tokio::task::JoinHandle;

type Cause = Box<dyn std::error::Error + Send + Sync + 'static>;
type Error = cordis::error::Error<Cause>;
type ErrorKind = cordis::error::ErrorKind<Cause>;
type StopOutcome = cordis::runtime::StopOutcome<Cause>;
type TaskOutcome = cordis::tasks::TaskOutcome<Cause>;
type TaskFailed = cordis::tasks::TaskFailed<Cause>;
type RegistryError = cordis::registry::RegistryError<Cause>;
type CloseReport = cordis::registry::CloseReport<Cause>;
type CloseAllReport = cordis::registry::CloseAllReport<Cause>;

// ---------------------------------------------------------------------------
// The host
// ---------------------------------------------------------------------------

fn lock<T>(mutex: &Mutex<T>) -> MutexGuard<'_, T> {
    mutex.lock().unwrap_or_else(PoisonError::into_inner)
}

static NUMBERS: OnceLock<Mutex<HashMap<TypeId, ServiceKey>>> = OnceLock::new();

/// The key of a type: a number of its own, and a name made of it.
fn key<S: ?Sized + 'static>() -> ServiceKey {
    let mut numbers = lock(NUMBERS.get_or_init(Mutex::default));
    let next = numbers.len() as u64;
    *numbers
        .entry(TypeId::of::<S>())
        .or_insert_with(|| ServiceKey::new(next, Box::leak(format!("type {next}").into_boxed_str())))
}

fn depends_on<S: 'static>() -> Dependency {
    Dependency::of(key::<S>())
}

fn may_depend_on<S: 'static>() -> Dependency {
    Dependency::optional_of(key::<S>())
}

static IDS: OnceLock<Mutex<ScopeIds>> = OnceLock::new();

fn scope_ids() -> &'static Mutex<ScopeIds> {
    IDS.get_or_init(|| Mutex::new(ScopeIds::new()))
}

/// The error of the framework that an error was caused by.
fn framework_cause(error: &Error) -> Option<&Error> {
    match error.source() {
        Some(Source::Framework(inner)) => Some(inner),
        _ => None,
    }
}

fn panic_text(payload: &(dyn Any + Send)) -> Option<String> {
    panic_message(payload.downcast_ref::<&'static str>().copied(), payload.downcast_ref())
}

/// Stops a helper task together with the one that waits for it.
struct Together(tokio::task::AbortHandle);

impl Drop for Together {
    fn drop(&mut self) {
        self.0.abort();
    }
}

/// Runs code to its end, even if it panics: the payload's text is then the error. Outside a task
/// runtime a panic goes on.
async fn caught<R: Send + 'static>(
    code: impl Future<Output = R> + Send + 'static,
) -> Result<R, Option<String>> {
    if tokio::runtime::Handle::try_current().is_err() {
        return Ok(code.await);
    }
    let helper = tokio::spawn(code);
    let _together = Together(helper.abort_handle());
    match helper.await {
        Ok(result) => Ok(result),
        Err(failure) => Err(panic_text(&*failure.into_panic())),
    }
}

/// As [`caught`], for code that does not wait.
fn caught_now(code: impl FnOnce() + Send + 'static) -> Result<(), Option<String>> {
    if tokio::runtime::Handle::try_current().is_err() {
        code();
        return Ok(());
    }
    match futures::executor::block_on(tokio::task::spawn_blocking(code)) {
        Ok(()) => Ok(()),
        Err(failure) => Err(panic_text(&*failure.into_panic())),
    }
}

type Value = Box<dyn Any + Send + Sync>;

trait ErasedFactory: Send + Sync {
    fn as_any(&self) -> &dyn Any;
    fn as_any_mut(&mut self) -> &mut dyn Any;
}

type Make<S> = Box<dyn Fn() -> Result<S, Error> + Send + Sync>;

struct SharedFactory<S> {
    inner: Mutex<TypedFactory<S, Make<S>>>,
    made: OnceLock<S>,
}

impl<S: Send + Sync + 'static> SharedFactory<S> {
    fn new(factory: impl Fn() -> Result<S, Error> + Send + Sync + 'static) -> Self {
        Self {
            inner: Mutex::new(TypedFactory::new(Box::new(factory) as Make<S>)),
            made: OnceLock::new(),
        }
    }

    fn get(&self) -> Result<&S, Error> {
        let mut inner = lock(&self.inner);
        if self.made.get().is_none() {
            inner.initialise()?;
            if let Some(made) = inner.value.take() {
                let _ = self.made.set(made);
            }
        }
        Ok(self.made.get().unwrap())
    }

    fn get_mut(&mut self) -> Result<&mut S, Error> {
        self.get()?;
        Ok(self.made.get_mut().unwrap())
    }
}

impl<S: Send + Sync + 'static> ErasedFactory for SharedFactory<S> {
    fn as_any(&self) -> &dyn Any {
        self
    }

    fn as_any_mut(&mut self) -> &mut dyn Any {
        self
    }
}

fn resolve<S: Send + Sync + 'static>(
    found: Found<'_, Value, Box<dyn ErasedFactory>>,
) -> Result<&S, Error> {
    match found {
        Found::Value(service) => Ok(service.downcast_ref().unwrap()),
        Found::Factory(factory) => {
            factory.as_any().downcast_ref::<SharedFactory<S>>().unwrap().get()
        }
    }
}

fn resolve_mut<S: Send + Sync + 'static>(
    found: FoundMut<'_, Value, Box<dyn ErasedFactory>>,
) -> Result<&mut S, Error> {
    match found {
        FoundMut::Value(service) => Ok(service.downcast_mut().unwrap()),
        FoundMut::Factory(factory) => {
            factory.as_any_mut().downcast_mut::<SharedFactory<S>>().unwrap().get_mut()
        }
    }
}

fn cast_all<S: 'static>(all: Vec<&Value>) -> Vec<&S> {
    all.into_iter().map(|one| one.downcast_ref().unwrap()).collect()
}

struct DynamicValue<S> {
    cell: RwLock<cordis::service::DynamicValue<S>>,
}

struct Guard<G>(G);

impl<S, G: Deref<Target = cordis::service::DynamicValue<S>>> Deref for Guard<G> {
    type Target = S;

    fn deref(&self) -> &S {
        self.0.read()
    }
}

impl<S, G: DerefMut<Target = cordis::service::DynamicValue<S>>> DerefMut for Guard<G> {
    fn deref_mut(&mut self) -> &mut S {
        self.0.write()
    }
}

impl<S> DynamicValue<S> {
    fn new(initial: S) -> Self {
        Self { cell: RwLock::new(cordis::service::DynamicValue::new(initial)) }
    }

    fn read(&self) -> impl Deref<Target = S> + '_ {
        Guard(self.cell.read().unwrap())
    }

    fn write(&self) -> impl DerefMut<Target = S> + '_ {
        Guard(self.cell.write().unwrap())
    }

    fn set(&self, next: S) {
        self.cell.write().unwrap().set(next);
    }

    fn update(&self, change: impl FnOnce(&mut S)) {
        self.cell.write().unwrap().update(change);
    }
}

trait Plugin: Send + Sync + 'static {
    fn name(&self) -> &'static str {
        key::<Self>().name
    }

    fn priority(&self) -> i32 {
        0
    }

    fn scope(&self) -> PluginScope {
        PluginScope::Any
    }

    fn dependencies(&self) -> Vec<Dependency> {
        Vec::new()
    }

    fn plugin_dependencies(&self) -> Vec<PluginDependency> {
        Vec::new()
    }

    fn apply(&self, _cfg: &mut Configurator<'_>) -> Result<(), Error> {
        Ok(())
    }

    fn start<'a>(&'a self, _ctx: &'a Context) -> BoxFuture<'a, Result<(), Error>> {
        Box::pin(async { Ok(()) })
    }

    fn stop<'a>(&'a self, _ctx: &'a Context) -> BoxFuture<'a, Result<(), Error>> {
        Box::pin(async { Ok(()) })
    }
}

impl<F> Plugin for F
where
    F: Fn(&mut Configurator<'_>) -> Result<(), Error> + Send + Sync + 'static,
{
    fn apply(&self, cfg: &mut Configurator<'_>) -> Result<(), Error> {
        self(cfg)
    }
}

fn describe(plugin: &dyn Plugin) -> PluginInfo {
    PluginInfo {
        name: plugin.name(),
        deps: plugin.dependencies(),
        plugin_deps: plugin.plugin_dependencies(),
    }
}

trait EventHandler<E>: Send + Sync + 'static {
    fn handle<'a>(
        &'a self,
        event: &'a E,
        ctx: &'a Context,
    ) -> BoxFuture<'a, Result<EventControl, Error>>;
}

impl<E, F> EventHandler<E> for FnEventHandler<F>
where
    E: Event,
    F: for<'a, 'b> Fn(&'a E, &'b Context) -> Result<EventControl, Error> + Send + Sync + 'static,
{
    fn handle<'a>(
        &'a self,
        event: &'a E,
        ctx: &'a Context,
    ) -> BoxFuture<'a, Result<EventControl, Error>> {
        Box::pin(async move { (self.0)(event, ctx) })
    }
}

impl<E, F, Fut> EventHandler<E> for AsyncFnEventHandler<F>
where
    E: Event,
    F: Fn(&E, Context) -> Fut + Send + Sync + 'static,
    Fut: Future<Output = Result<EventControl, Error>> + Send + 'static,
{
    fn handle<'a>(
        &'a self,
        event: &'a E,
        ctx: &'a Context,
    ) -> BoxFuture<'a, Result<EventControl, Error>> {
        Box::pin(async move { (self.0)(event, ctx.clone()).await })
    }
}

type AnyEvent = Box<dyn Any + Send + Sync>;

trait ErasedHandler: Send + Sync {
    fn call<'a>(
        &'a self,
        event: &'a (dyn Any + Send + Sync),
        ctx: &'a Context,
    ) -> BoxFuture<'a, Result<EventControl, Error>>;
}

struct TypedHandler<E, K> {
    inner: K,
    event: PhantomData<fn() -> E>,
}

impl<E: Event, K: EventHandler<E>> ErasedHandler for TypedHandler<E, K> {
    fn call<'a>(
        &'a self,
        event: &'a (dyn Any + Send + Sync),
        ctx: &'a Context,
    ) -> BoxFuture<'a, Result<EventControl, Error>> {
        self.inner.handle(event.downcast_ref::<E>().unwrap(), ctx)
    }
}

trait LifecycleHook: Send + Sync + 'static {
    fn call<'a>(&'a mut self, ctx: &'a Context) -> BoxFuture<'a, Result<(), Error>>;
}

impl<F> LifecycleHook for SyncHook<F>
where
    F: for<'a> FnMut(&'a Context) -> Result<(), Error> + Send + Sync + 'static,
{
    fn call<'a>(&'a mut self, ctx: &'a Context) -> BoxFuture<'a, Result<(), Error>> {
        Box::pin(async move { (self.0)(ctx) })
    }
}

impl<F, Fut> LifecycleHook for AsyncHook<F>
where
    F: FnMut(Context) -> Fut + Send + Sync + 'static,
    Fut: Future<Output = Result<(), Error>> + Send + 'static,
{
    fn call<'a>(&'a mut self, ctx: &'a Context) -> BoxFuture<'a, Result<(), Error>> {
        Box::pin(async move { (self.0)(ctx.clone()).await })
    }
}

trait CloseHook: Send + Sync + 'static {
    fn call(&self, ctx: &Context);
}

impl<F: Fn(&Context) + Send + Sync + 'static> CloseHook for F {
    fn call(&self, ctx: &Context) {
        self(ctx)
    }
}

struct App;

impl Host for App {
    type Value = Value;
    type Factory = Box<dyn ErasedFactory>;
    type Plugin = Arc<dyn Plugin>;
    type Hook = Arc<futures::lock::Mutex<Box<dyn LifecycleHook>>>;
    type CloseHook = Box<dyn CloseHook>;
    type Handler = Box<dyn ErasedHandler>;
    type Event = AnyEvent;
    type Cause = Cause;
    type Deadline = Instant;

    fn priority(plugin: &Self::Plugin) -> i32 {
        plugin.priority()
    }
}

type Assembler = cordis::builder::Builder<App>;

struct Scope {
    data: cordis::context::Context<App>,
    parent: Option<Arc<Scope>>,
    core: Mutex<ScopeCore<Waker>>,
    closing: Mutex<ClosingHooks<Box<dyn CloseHook>, Cause>>,
    notify: Mutex<NotifyHub<AnyEvent, Box<dyn ErasedHandler>>>,
    tasks: Mutex<TaskRegistry<Arc<Task>>>,
    /// How deep closing hooks are nested, in this scope and those around and inside it.
    depth: Arc<Mutex<ClosingHookDepth>>,
}

struct Lease {
    parent: Arc<Scope>,
    child: ScopeId,
}

impl Drop for Lease {
    fn drop(&mut self) {
        lock(&self.parent.core).release_lease(self.child);
    }
}

fn wake(wakers: Vec<Waker>) {
    for waker in wakers {
        waker.wake();
    }
}

struct Builder {
    inner: Assembler,
    parent: Option<Arc<Scope>>,
    lease: Option<Lease>,
}

impl Builder {
    fn new() -> Self {
        Self { inner: Assembler::new(lock(scope_ids()).allocate()), parent: None, lease: None }
    }

    fn depth(&self) -> usize {
        self.inner.depth()
    }

    fn is_root(&self) -> bool {
        self.inner.is_root()
    }

    fn id(&self) -> ScopeId {
        self.inner.id()
    }

    fn configurator(&mut self) -> Configurator<'_> {
        Configurator { inner: &mut self.inner }
    }

    fn plugin<P: Plugin>(&mut self, plugin: P) -> Result<(), Error> {
        self.configurator().plugin(plugin)
    }

    fn plugin_with_config<P, C>(&mut self, plugin: P, config: C) -> Result<(), Error>
    where
        P: Plugin,
        C: Send + Sync + 'static,
    {
        self.configurator().plugin_with_config(plugin, config)
    }

    fn provide<S: Send + Sync + 'static>(&mut self, service: S) -> Result<(), Error> {
        self.configurator().provide(service)
    }

    fn provide_factory<S: Send + Sync + 'static>(
        &mut self,
        factory: impl Fn() -> Result<S, Error> + Send + Sync + 'static,
    ) -> Result<(), Error> {
        self.inner.provide_factory(key::<S>(), Box::new(SharedFactory::new(factory)))
    }

    fn provide_collect<S: Send + Sync + 'static>(&mut self, service: S) -> Result<(), Error> {
        self.configurator().provide_collect(service)
    }

    fn provide_dynamic<S: Send + Sync + 'static>(&mut self, initial: S) -> Result<(), Error> {
        self.provide(Arc::new(DynamicValue::new(initial)))
    }

    fn try_require<S: Send + Sync + 'static>(&self) -> Result<Option<&S>, Error> {
        self.inner.try_require(key::<S>()).map(resolve).transpose()
    }

    fn require<S: Send + Sync + 'static>(&self) -> Result<&S, Error> {
        resolve(self.inner.require(key::<S>())?)
    }

    fn require_mut<S: Send + Sync + 'static>(&mut self) -> Result<&mut S, Error> {
        resolve_mut(self.inner.require_mut(key::<S>())?)
    }

    fn require_all<S: Send + Sync + 'static>(&self) -> Result<Vec<&S>, Error> {
        Ok(cast_all(self.inner.require_all(key::<S>())))
    }

    fn contains<S: Send + Sync + 'static>(&self) -> bool {
        self.inner.contains(key::<S>())
    }

    fn has_plugin(&self, name: &str) -> bool {
        self.inner.has_plugin(name)
    }

    fn on_ready(&mut self, hook: impl LifecycleHook) -> Result<(), Error> {
        self.configurator().on_ready(hook)
    }

    fn on_dispose(&mut self, hook: impl LifecycleHook) -> Result<(), Error> {
        self.inner.on_dispose(Arc::new(futures::lock::Mutex::new(Box::new(hook))))
    }

    fn on_closing(&mut self, hook: impl CloseHook) -> Result<(), Error> {
        self.inner.on_closing(Arc::new(Box::new(hook)))
    }

    fn on<E: Event, K: EventHandler<E>>(&mut self, inner: K) -> Result<Subscription, Error> {
        self.configurator().on(inner)
    }

    fn off(&mut self, subscription: Subscription) -> Result<(), Error> {
        self.inner.off(subscription)
    }

    fn verify(&self) -> Result<(), Error> {
        self.inner.verify()
    }

    fn build(self) -> Result<Runtime, Error> {
        let Self { inner, parent, lease } = self;
        Ok(Runtime::new(inner.build()?, parent, lease))
    }

    fn try_build(self) -> Result<Runtime, (Builder, Error)> {
        let Self { inner, parent, lease } = self;
        match inner.try_build() {
            Ok(built) => Ok(Runtime::new(built, parent, lease)),
            Err((inner, error)) => Err((Self { inner, parent, lease }, error)),
        }
    }
}

struct Configurator<'a> {
    inner: &'a mut Assembler,
}

/// Takes back what is assembled while it lives, unless it is disarmed.
struct TakeBack<'a> {
    inner: &'a mut Assembler,
    checkpoint: Option<Checkpoint>,
}

impl Drop for TakeBack<'_> {
    fn drop(&mut self) {
        if let Some(checkpoint) = self.checkpoint.take() {
            self.inner.rollback(checkpoint);
        }
    }
}

impl Configurator<'_> {
    fn guarded(
        &mut self,
        step: impl FnOnce(&mut Assembler) -> Result<(), Error>,
    ) -> Result<(), Error> {
        let checkpoint = Some(self.inner.checkpoint());
        let mut guard = TakeBack { inner: self.inner, checkpoint };
        let result = step(guard.inner);
        guard.checkpoint = None;
        result
    }

    fn plugin<P: Plugin>(&mut self, plugin: P) -> Result<(), Error> {
        let scope = plugin.scope();
        self.inner.check_plugin(plugin.name(), scope)?;
        let info = describe(&plugin);
        let plugin: Arc<dyn Plugin> = Arc::new(plugin);
        self.guarded(|inner| {
            let applied = Arc::clone(&plugin);
            inner.plugin(plugin, info, scope, move |inner| applied.apply(&mut Configurator { inner }))
        })
    }

    fn plugin_with_config<P, C>(&mut self, plugin: P, config: C) -> Result<(), Error>
    where
        P: Plugin,
        C: Send + Sync + 'static,
    {
        let scope = plugin.scope();
        let info = describe(&plugin);
        let plugin: Arc<dyn Plugin> = Arc::new(plugin);
        self.guarded(|inner| {
            let applied = Arc::clone(&plugin);
            inner.plugin_with_config(
                key::<C>(),
                Box::new(config),
                plugin,
                info,
                scope,
                move |inner| applied.apply(&mut Configurator { inner }),
            )
        })
    }

    fn provide<S: Send + Sync + 'static>(&mut self, service: S) -> Result<(), Error> {
        self.inner.provide(key::<S>(), Box::new(service))
    }

    fn provide_collect<S: Send + Sync + 'static>(&mut self, service: S) -> Result<(), Error> {
        self.inner.provide_collect(key::<S>(), Box::new(service))
    }

    fn require<S: Send + Sync + 'static>(&self) -> Result<&S, Error> {
        resolve(self.inner.require(key::<S>())?)
    }

    fn on_ready(&mut self, hook: impl LifecycleHook) -> Result<(), Error> {
        self.inner.on_ready(Arc::new(futures::lock::Mutex::new(Box::new(hook))))
    }

    fn on<E: Event, K: EventHandler<E>>(&mut self, inner: K) -> Result<Subscription, Error> {
        let typed = TypedHandler { inner, event: PhantomData::<fn() -> E> };
        self.inner.on(key::<E>().id, Arc::new(Box::new(typed)))
    }

    fn off(&mut self, subscription: Subscription) -> Result<(), Error> {
        self.inner.off(subscription)
    }
}

#[derive(Clone)]
struct Context {
    scope: Arc<Scope>,
}

impl Context {
    fn id(&self) -> ScopeId {
        self.scope.data.id()
    }

    fn parent(&self) -> Option<Context> {
        self.scope.parent.clone().map(|scope| Context { scope })
    }

    fn scope(&self) -> Result<Builder, Error> {
        let inner = Assembler::scope(
            &self.scope.data,
            &mut lock(&self.scope.core),
            &mut lock(scope_ids()),
        )?;
        let lease = Lease { parent: Arc::clone(&self.scope), child: inner.id() };
        Ok(Builder { inner, parent: Some(Arc::clone(&self.scope)), lease: Some(lease) })
    }

    fn require<S: Send + Sync + 'static>(&self) -> Result<&S, Error> {
        resolve(self.scope.data.require(key::<S>())?)
    }

    fn require_dynamic<S: Send + Sync + 'static>(&self) -> Result<Arc<DynamicValue<S>>, Error> {
        self.require::<Arc<DynamicValue<S>>>().map(Arc::clone)
    }

    fn require_all<S: Send + Sync + 'static>(&self) -> Result<Vec<&S>, Error> {
        Ok(cast_all(self.scope.data.require_all(key::<S>())))
    }

    fn require_all_recursive<S: Send + Sync + 'static>(&self) -> Result<Vec<&S>, Error> {
        Ok(cast_all(self.scope.data.require_all_recursive(key::<S>())))
    }

    fn contains<S: Send + Sync + 'static>(&self) -> bool {
        self.scope.data.contains(key::<S>())
    }

    fn is_stopping(&self) -> bool {
        lock(&self.scope.core).is_stopping()
    }

    fn is_stopped(&self) -> bool {
        lock(&self.scope.core).is_stopped()
    }

    fn children(&self) -> Vec<ScopeId> {
        lock(&self.scope.core).children()
    }

    fn child_count(&self) -> usize {
        lock(&self.scope.core).lease_count()
    }

    fn cancellation_waiters(&self) -> usize {
        lock(&self.scope.core).cancellation.waiter_count()
    }

    fn cancelled(&self) -> Cancelled {
        Cancelled { scope: Arc::clone(&self.scope), wait: None }
    }

    fn stopped(&self) -> Settled {
        Settled { scope: Arc::clone(&self.scope), wait: None }
    }

    fn on_closing(&self, hook: impl CloseHook) -> CloseHandle {
        let hook: Arc<Box<dyn CloseHook>> = Arc::new(Box::new(hook));
        let depth = lock(&self.scope.depth).current();
        let registration = lock(&self.scope.closing).on_closing(Arc::clone(&hook), depth);
        if registration.run_now {
            let error = self.run_close_hook(&hook);
            lock(&self.scope.closing).record(error);
        }
        CloseHandle { scope: Arc::clone(&self.scope), id: registration.id }
    }

    fn run_close_hook(&self, hook: &Arc<Box<dyn CloseHook>>) -> Option<Error> {
        lock(&self.scope.depth).enter();
        let ctx = self.clone();
        let hook = Arc::clone(hook);
        let outcome = caught_now(move || hook.call(&ctx));
        lock(&self.scope.depth).leave();
        hook_outcome(outcome.err())
    }

    fn run_closing_hooks(&self) {
        let Some(mut run) = lock(&self.scope.closing).begin_dispatch() else { return };
        loop {
            let batch = lock(&self.scope.closing).next_batch(&mut run);
            let Some(batch) = batch else { break };
            for hook in batch {
                run.record(self.run_close_hook(&hook));
            }
        }
        lock(&self.scope.closing).finish_dispatch(run);
    }

    fn behind(&self, handles: Vec<cordis::context::Context<App>>) -> Vec<Arc<Scope>> {
        let mut scope = &self.scope;
        let mut scopes = Vec::new();
        for handle in handles {
            while let (true, Some(outer)) = (scope.data.id() != handle.id(), &scope.parent) {
                scope = outer;
            }
            scopes.push(Arc::clone(scope));
        }
        scopes
    }

    async fn notify<E: Event>(&self, event: E) -> Receipt {
        let event: Arc<AnyEvent> = Arc::new(Box::new(event));
        let id = key::<E>().id;
        let scopes = self.behind(self.scope.data.outward());
        let receipts =
            scopes.iter().map(|scope| lock(&scope.notify).enqueue(id, &event)).collect();
        Receipt::sum(&receipts).expect("a receipt counts no more than the number range holds")
    }

    fn notify_stats(&self) -> Vec<Backlog> {
        let scopes = self.behind(self.scope.data.outward());
        scopes.iter().flat_map(|scope| lock(&scope.notify).backlog()).collect()
    }

    async fn emit<E: Event>(&self, event: E) -> Result<(), Error> {
        self.dispatch(event, Scheduling::Ordered, ErrorPolicy::Abort).await.first_error()
    }

    async fn emit_parallel<E: Event>(&self, event: E) -> Result<(), Error> {
        self.dispatch(event, Scheduling::Concurrent, ErrorPolicy::Abort).await.all_errors()
    }

    async fn emit_notify<E: Event>(&self, event: E) -> Vec<Error> {
        self.dispatch(event, Scheduling::Ordered, ErrorPolicy::Collect).await.errors
    }

    async fn emit_notify_parallel<E: Event>(&self, event: E) -> Vec<Error> {
        self.dispatch(event, Scheduling::Concurrent, ErrorPolicy::Collect).await.errors
    }

    async fn dispatch<E: Event>(
        &self,
        event: E,
        scheduling: Scheduling,
        policy: ErrorPolicy,
    ) -> Emission<Cause> {
        let id = key::<E>().id;
        let mut emission = Emission::new(scheduling, policy);
        for scope in self.behind(self.scope.data.listeners(id)) {
            let Some(entries) = scope.data.inner.event_handlers_for(id) else { continue };
            let ctx = Context { scope: Arc::clone(&scope) };
            let run = match scheduling {
                Scheduling::Concurrent => {
                    let calls = entries.iter().map(|entry| entry.handler.call(&event, &ctx));
                    join_layer(join_all(calls).await, policy)
                }
                Scheduling::Ordered => {
                    let mut run = LayerRun::new(scheduling, policy);
                    for entry in entries {
                        if !run.wants_more() {
                            break;
                        }
                        run.handled(entry.handler.call(&event, &ctx).await, scheduling, policy);
                    }
                    run
                }
            };
            if !emission.layer_done(run) {
                break;
            }
        }
        emission
    }

    fn spawn<F>(&self, body: F) -> Result<TaskHandle, Error>
    where
        F: Future<Output = Result<(), Error>> + Send + 'static,
    {
        let mut tasks = lock(&self.scope.tasks);
        let shutting_down = self.is_stopping();
        let (runtime, id) =
            tasks.begin_spawn(shutting_down, |task: &Arc<Task>| lock(&task.cell).must_stay())?;
        let task = Arc::new(Task { id, cell: Mutex::new(TaskCell::new(id)) });
        let join = runtime.spawn(run_task(Arc::clone(&task), self.clone(), body));
        lock(&task.cell).attach(join.abort_handle());
        tasks.publish(Arc::clone(&task));
        Ok(TaskHandle { task })
    }

    fn task_count(&self) -> usize {
        lock(&self.scope.tasks).task_count(|task: &Arc<Task>| !lock(&task.cell).is_finished())
    }

    fn registered_task_count(&self) -> usize {
        lock(&self.scope.tasks).len()
    }

    /// The waiters for the task that would be drained next.
    fn pending_task_waiters(&self) -> usize {
        let tail = lock(&self.scope.tasks).tail().cloned();
        tail.map_or(0, |task| lock(&task.cell).finished.waiter_count())
    }

    async fn drain_tasks(&self, deadline: Option<Instant>) -> Vec<Error> {
        let mut errors = Vec::new();
        loop {
            let tail = lock(&self.scope.tasks).tail().cloned();
            let Some(task) = tail else { return errors };
            let timed_out = match deadline {
                None => {
                    task.finished().await;
                    false
                }
                Some(deadline) => {
                    let left = deadline.saturating_duration_since(Instant::now());
                    tokio::time::timeout(left, task.finished()).await.is_err()
                }
            };
            lock(&self.scope.tasks).pop();
            let wakers = lock(&task.cell).drain(timed_out, &mut errors);
            wake(wakers);
        }
    }

    fn start_workers(&self) -> Vec<JoinHandle<()>> {
        let (inputs, signal) = {
            let mut hub = lock(&self.scope.notify);
            (hub.take_inputs(), hub.shutdown_signal())
        };
        inputs
            .into_iter()
            .map(|input| tokio::spawn(serve(input, signal.clone(), Arc::downgrade(&self.scope))))
            .collect()
    }

    async fn drain_notify(&self, workers: Vec<JoinHandle<()>>, deadline: Option<Instant>) {
        lock(&self.scope.notify).begin_drain();
        for worker in workers {
            match deadline {
                None => {
                    let _ = worker.await;
                }
                Some(deadline) => {
                    let left = deadline.saturating_duration_since(Instant::now());
                    if tokio::time::timeout(left, worker).await.is_err() {
                        return;
                    }
                }
            }
        }
    }
}

struct Cancelled {
    scope: Arc<Scope>,
    wait: Option<WaitId>,
}

impl Future for Cancelled {
    type Output = ();

    fn poll(self: Pin<&mut Self>, cx: &mut TaskContext<'_>) -> Poll<()> {
        let this = self.get_mut();
        match lock(&this.scope.core).poll_cancelled(&mut this.wait, cx.waker().clone()) {
            Readiness::Ready => Poll::Ready(()),
            Readiness::Pending => Poll::Pending,
        }
    }
}

impl Drop for Cancelled {
    fn drop(&mut self) {
        if let Some(id) = self.wait {
            lock(&self.scope.core).cancellation.release(id);
        }
    }
}

struct Settled {
    scope: Arc<Scope>,
    wait: Option<WaitId>,
}

impl Future for Settled {
    type Output = Settlement;

    fn poll(self: Pin<&mut Self>, cx: &mut TaskContext<'_>) -> Poll<Settlement> {
        let this = self.get_mut();
        match lock(&this.scope.core).poll_settled(&mut this.wait, cx.waker().clone()) {
            Some(settlement) => Poll::Ready(settlement),
            None => Poll::Pending,
        }
    }
}

impl Drop for Settled {
    fn drop(&mut self) {
        if let Some(id) = self.wait {
            lock(&self.scope.core).settled.release(id);
        }
    }
}

struct CloseHandle {
    scope: Arc<Scope>,
    id: usize,
}

impl Drop for CloseHandle {
    fn drop(&mut self) {
        lock(&self.scope.closing).remove(self.id);
    }
}

#[derive(Clone)]
struct StopHandle {
    scope: Arc<Scope>,
}

impl StopHandle {
    fn request_stop(&self) {
        let wakers = lock(&self.scope.core).request_stop();
        wake(wakers);
    }

    fn is_stop_requested(&self) -> bool {
        lock(&self.scope.core).is_stop_requested()
    }

    fn cancelled(&self) -> Cancelled {
        Cancelled { scope: Arc::clone(&self.scope), wait: None }
    }
}

struct Task {
    id: TaskId,
    cell: Mutex<TaskCell<Cause, Waker>>,
}

struct Place<'a> {
    task: &'a Task,
    wait: Option<WaitId>,
}

impl Drop for Place<'_> {
    fn drop(&mut self) {
        if let Some(id) = self.wait {
            lock(&self.task.cell).finished.release(id);
        }
    }
}

impl Task {
    async fn finished(&self) {
        let mut place = Place { task: self, wait: None };
        poll_fn(|cx| {
            match lock(&self.cell).finished.poll(&mut place.wait, cx.waker().clone()) {
                Readiness::Ready => Poll::Ready(()),
                Readiness::Pending => Poll::Pending,
            }
        })
        .await
    }
}

struct Settle(Arc<Task>);

impl Drop for Settle {
    fn drop(&mut self) {
        let wakers = lock(&self.0.cell).dropped(false);
        wake(wakers);
    }
}

async fn run_task<F>(task: Arc<Task>, ctx: Context, body: F)
where
    F: Future<Output = Result<(), Error>> + Send + 'static,
{
    let _settle = Settle(Arc::clone(&task));
    let end = match caught(body).await {
        Ok(Ok(())) => BodyEnd::Done,
        Ok(Err(error)) => BodyEnd::Failed(error),
        Err(text) => BodyEnd::Panicked(text),
    };
    let (event, wakers) = lock(&task.cell).body_ended(end);
    wake(wakers);
    if let Some(event) = event {
        let told = caught(async move { ctx.emit_notify(event).await.len() }).await;
        let wakers = lock(&task.cell).report_ended(told.is_ok());
        wake(wakers);
    }
}

#[derive(Clone)]
struct TaskHandle {
    task: Arc<Task>,
}

impl TaskHandle {
    fn id(&self) -> TaskId {
        self.task.id
    }

    fn is_finished(&self) -> bool {
        lock(&self.task.cell).is_finished()
    }

    fn abort(&self) {
        let (_initiated, wakers) = lock(&self.task.cell).abort(true);
        wake(wakers);
    }

    async fn wait(&self) -> TaskOutcome {
        self.task.finished().await;
        lock(&self.task.cell).outcome()
    }
}

impl std::fmt::Debug for TaskHandle {
    fn fmt(&self, f: &mut std::fmt::Formatter<'_>) -> std::fmt::Result {
        f.debug_struct("TaskHandle").field("task_id", &self.task.id).finish()
    }
}

type Input = LaneInput<AnyEvent, Box<dyn ErasedHandler>>;

async fn serve(
    input: Input,
    mut shutdown: tokio::sync::watch::Receiver<bool>,
    scope: Weak<Scope>,
) {
    let mut receiver = input.rx.into_receiver();
    let mut mode = WorkerMode::Serving;
    loop {
        let (taken, otherwise) = if mode == WorkerMode::Draining {
            (receiver.try_recv().ok(), WorkerEvent::Empty)
        } else {
            match select(Box::pin(receiver.recv()), Box::pin(shutdown.changed())).await {
                Either::Left((taken, _)) => (taken, WorkerEvent::Disconnected),
                Either::Right(_) => (None, WorkerEvent::Shutdown),
            }
        };
        let scope = scope.upgrade();
        let event = match &taken {
            Some(_) => WorkerEvent::Took { alive: scope.is_some() },
            None => otherwise,
        };
        match (mode.step(event), taken, scope) {
            (WorkerAction::Handle, Some(event), Some(scope)) => {
                let ctx = Context { scope };
                let _ = input.handler.call(&**event, &ctx).await;
            }
            (WorkerAction::End, _, _) => return,
            _ => {}
        }
    }
}

enum StepEnd {
    Unit(UnitEnd<Cause>),
    Tasks(Vec<Error>),
    Notify,
}

async fn unit(code: impl Future<Output = Result<(), Error>> + Send + 'static) -> StepEnd {
    StepEnd::Unit(match caught(code).await {
        Ok(result) => UnitEnd::Returned(result),
        Err(text) => UnitEnd::Panicked(text),
    })
}

struct Runtime {
    inner: cordis::runtime::Runtime<App>,
    ctx: Context,
    workers: Vec<JoinHandle<()>>,
    step: Option<BoxFuture<'static, StepEnd>>,
    lease: Option<Lease>,
}

impl Runtime {
    fn new(built: Built<App>, parent: Option<Arc<Scope>>, lease: Option<Lease>) -> Self {
        let Built { runtime, closing, notify } = built;
        let depth = match &parent {
            Some(parent) => Arc::clone(&parent.depth),
            None => Arc::new(Mutex::new(ClosingHookDepth::new())),
        };
        let scope = Scope {
            data: runtime.handle(),
            parent,
            core: Mutex::new(ScopeCore::new()),
            closing: Mutex::new(closing),
            notify: Mutex::new(notify),
            tasks: Mutex::new(TaskRegistry::new()),
            depth,
        };
        let ctx = Context { scope: Arc::new(scope) };
        Self { inner: runtime, ctx, workers: Vec::new(), step: None, lease }
    }

    fn handle(&self) -> Context {
        self.ctx.clone()
    }

    fn stop_handle(&self) -> StopHandle {
        StopHandle { scope: Arc::clone(&self.ctx.scope) }
    }

    fn start_error(&self) -> Option<&Error> {
        self.inner.start_error()
    }

    async fn start(&mut self) -> Result<(), Error> {
        self.start_with(false).await
    }

    async fn start_serial(&mut self) -> Result<(), Error> {
        self.start_with(true).await
    }

    async fn start_with(&mut self, serial: bool) -> Result<(), Error> {
        let ctx = self.ctx.clone();
        let core = &ctx.scope.core;
        let fresh = lock(core).lifecycle() == Lifecycle::Built;
        let mut step = self.inner.start_with(&mut lock(core), serial);
        if fresh {
            self.workers = ctx.start_workers();
        }
        loop {
            step = match step {
                StartStep::Launch(batch) => {
                    let plugins = &self.inner.plugins;
                    let starts = batch.iter().map(|&index| plugins[index].plugin.start(&ctx));
                    let results = join_all(starts).await;
                    self.inner.plugins_started(&mut lock(core), results)
                }
                StartStep::Ready(index) => {
                    let hook = Arc::clone(&self.inner.ready[index]);
                    let result = hook.lock().await.call(&ctx).await;
                    self.inner.ready_done(&mut lock(core), result)
                }
                StartStep::Done(result) => return result,
            };
        }
    }

    async fn stop(&mut self) -> StopOutcome {
        self.stop_within(None).await
    }

    async fn stop_with_timeout(&mut self, budget: Duration) -> StopOutcome {
        self.stop_within(Some(budget)).await
    }

    async fn stop_within(&mut self, budget: Option<Duration>) -> StopOutcome {
        let ctx = self.ctx.clone();
        let scope = &ctx.scope;
        let entry = self.inner.begin_stop(&mut lock(&scope.core));
        match entry {
            StopEntry::AlreadyStopped => return StopOutcome::Stopped { errors: Vec::new() },
            StopEntry::Resume => {}
            StopEntry::Committed { first } => {
                if first {
                    ctx.run_closing_hooks();
                }
                let deadline = budget.and_then(|budget| Instant::now().checked_add(budget));
                let (entered, wakers) = self.inner.enter_cleanup(
                    &mut lock(&scope.core),
                    &mut lock(&scope.closing),
                    deadline,
                );
                wake(wakers);
                if let Err(blocked) = entered {
                    return blocked;
                }
            }
        }
        while let Some(end) = self.next_step().await {
            match end {
                StepEnd::Unit(end) => self.inner.unit_ended(end),
                StepEnd::Tasks(reports) => self.inner.tasks_drained(reports),
                StepEnd::Notify => self.inner.notify_drained(),
            }
        }
        drop(self.inner.retire());
        drop(self.lease.take());
        let (outcome, wakers) =
            self.inner.complete_stop(&mut lock(&scope.core), &mut lock(&scope.closing));
        wake(wakers);
        outcome
    }

    async fn next_step(&mut self) -> Option<StepEnd> {
        if self.step.is_none() {
            self.step = Some(self.begin_step()?);
        }
        let step = self.step.as_mut()?;
        let end = poll_fn(|cx| step.as_mut().poll(cx)).await;
        self.step = None;
        Some(end)
    }

    fn begin_step(&mut self) -> Option<BoxFuture<'static, StepEnd>> {
        let ctx = self.ctx.clone();
        let deadline = self.inner.cleanup_deadline().copied();
        Some(match self.inner.cleanup_step() {
            CleanupStep::StopPlugin(index) => {
                let plugin = Arc::clone(&self.inner.plugins[index].plugin);
                Box::pin(unit(async move { plugin.stop(&ctx).await }))
            }
            CleanupStep::DrainTasks => {
                Box::pin(async move { StepEnd::Tasks(ctx.drain_tasks(deadline).await) })
            }
            CleanupStep::DrainNotify => {
                let workers = std::mem::take(&mut self.workers);
                Box::pin(async move {
                    ctx.drain_notify(workers, deadline).await;
                    StepEnd::Notify
                })
            }
            CleanupStep::Dispose(index) => {
                let hook = Arc::clone(&self.inner.dispose[index]);
                Box::pin(unit(async move { hook.lock().await.call(&ctx).await }))
            }
            CleanupStep::Finish => return None,
        })
    }
}

impl Drop for Runtime {
    fn drop(&mut self) {
        let scope = &self.ctx.scope;
        let report = self.inner.drop_report(&lock(&scope.core), false);
        let (cancelled, settled) =
            self.inner.abandon(&mut lock(&scope.core), &mut lock(&scope.closing));
        wake(cancelled);
        wake(settled);
        if let Some(report) = report {
            panic!("{report}");
        }
    }
}

type Table = cordis::registry::ScopeRegistry<Context, Box<Runtime>>;

struct ScopeRegistry {
    table: Mutex<Table>,
}

struct Claim<'a> {
    registry: &'a ScopeRegistry,
    name: &'a str,
    held: bool,
}

impl Drop for Claim<'_> {
    fn drop(&mut self) {
        if self.held {
            lock(&self.registry.table).unclaim(self.name);
        }
    }
}

struct Stopping<'a> {
    registry: &'a ScopeRegistry,
    name: &'a str,
    owner: Option<Box<Runtime>>,
}

impl Stopping<'_> {
    async fn stop(&mut self, budget: Option<Duration>) -> StopOutcome {
        let owner = self.owner.as_mut().unwrap();
        match budget {
            Some(budget) => owner.stop_with_timeout(budget).await,
            None => owner.stop().await,
        }
    }
}

impl Drop for Stopping<'_> {
    fn drop(&mut self) {
        if let Some(owner) = self.owner.take() {
            lock(&self.registry.table).restore(self.name, owner);
        }
    }
}

impl ScopeRegistry {
    fn new() -> Self {
        Self { table: Mutex::new(Table::new()) }
    }

    fn bind(&self, parent: &Context) -> Result<(), RegistryError> {
        lock(&self.table).bind(parent.clone())
    }

    async fn open<F>(&self, name: impl Into<String>, configure: F) -> Result<Context, RegistryError>
    where
        F: FnOnce(&mut Builder) -> Result<(), Error>,
    {
        let name = name.into();
        let parent = {
            let mut table = lock(&self.table);
            table.claim(&name)?;
            table.parent()?.clone()
        };
        let mut claim = Claim { registry: self, name: &name, held: true };
        let mut builder = parent.scope().map_err(RegistryError::Scope)?;
        configure(&mut builder).map_err(RegistryError::Scope)?;
        let mut runtime = Box::new(builder.build().map_err(RegistryError::Scope)?);

        if let Err(error) = runtime.start().await {
            claim.held = false;
            let mut stopping = Stopping { registry: self, name: &name, owner: Some(runtime) };
            let outcome = stopping.stop(None).await;
            let owner = stopping.owner.take().unwrap();
            let (failure, _done) = lock(&self.table).start_failed(&name, owner, outcome, error);
            return Err(failure);
        }

        let ctx = runtime.handle();
        let rejected = {
            let mut table = lock(&self.table);
            assert!(table.shutting_down || table.is_claimed(&name));
            table.publish(&name, runtime)
        };
        claim.held = false;
        let Some(owner) = rejected else { return Ok(ctx) };
        let mut stopping = Stopping { registry: self, name: &name, owner: Some(owner) };
        let outcome = stopping.stop(None).await;
        let owner = stopping.owner.take().unwrap();
        let (failure, _done) = lock(&self.table).publish_rejected(&name, owner, outcome);
        Err(failure)
    }

    async fn close(&self, name: &str, budget: Duration) -> Result<CloseReport, RegistryError> {
        let owner = lock(&self.table).begin_close(name)?;
        let mut stopping = Stopping { registry: self, name, owner: Some(owner) };
        let outcome = stopping.stop(Some(budget)).await;
        let owner = stopping.owner.take().unwrap();
        let (report, _done) = lock(&self.table).end_close(name, owner, outcome);
        Ok(report)
    }

    async fn close_all(&self, budget: Duration) -> CloseAllReport {
        let names = lock(&self.table).begin_close_all();
        let mut report = CloseAllReport::default();
        for name in names {
            let result = self.close(&name, budget).await;
            report.record(name, result);
        }
        report
    }

    fn get(&self, name: &str) -> Option<Context> {
        lock(&self.table).get(name).map(|owner| owner.handle())
    }

    fn names(&self) -> Vec<String> {
        lock(&self.table).names()
    }

    fn is_shutting_down(&self) -> bool {
        lock(&self.table).is_shutting_down()
    }
}

fn block_on<F: Future>(future: F) -> F::Output {
    tokio::runtime::Builder::new_current_thread().enable_time().build().unwrap().block_on(future)
}

/// Works on a builder on another thread, and tells whether that panicked.
async fn worked_on(
    builder: Builder,
    work: impl FnOnce(&mut Builder) + Send + 'static,
) -> (Builder, bool) {
    let shared = Arc::new(Mutex::new(builder));
    let mine = Arc::clone(&shared);
    let joined = tokio::task::spawn_blocking(move || {
        let mine = mine;
        work(&mut lock(&mine));
    })
    .await;
    let builder = Arc::into_inner(shared).unwrap().into_inner().unwrap_or_else(PoisonError::into_inner);
    (builder, joined.is_err())
}

async fn poll_once<F: Future>(mut future: Pin<&mut F>) -> Poll<F::Output> {
    poll_fn(|cx| Poll::Ready(future.as_mut().poll(cx))).await
}

// ---------------------------------------------------------------------------
// Scopes
// ---------------------------------------------------------------------------

struct Logger {
    name: String,
}

struct LoggerPlugin;

impl Plugin for LoggerPlugin {
    fn apply(&self, cfg: &mut Configurator<'_>) -> Result<(), Error> {
        cfg.provide(Logger {
            name: "main".to_string(),
        })?;

        cfg.on_ready(SyncHook(|ctx: &Context| {
            let logger = ctx.require::<Logger>()?;
            assert_eq!(logger.name, "main");
            Ok(())
        }))?;

        Ok(())
    }
}

#[test]
fn plugin_and_service_workflow() {
    let mut builder = Builder::new();
    builder.plugin(LoggerPlugin).unwrap();
    let mut rt = builder.build().unwrap();
    block_on(rt.start()).unwrap();
    block_on(rt.stop()).unwrap();
}

#[test]
fn duplicate_service_is_rejected() {
    let mut builder = Builder::new();
    builder.provide(42_u32).unwrap();
    let err = builder.provide(7_u32).unwrap_err();
    assert!(matches!(err.kind, ErrorKind::ServiceAlreadyRegistered(_)));
}

#[test]
fn closure_can_be_a_plugin() {
    let mut builder = Builder::new();
    builder
        .plugin(|cfg: &mut Configurator<'_>| {
            cfg.provide("hello".to_string())?;
            Ok(())
        })
        .unwrap();

    assert_eq!(builder.require::<String>().unwrap(), "hello");
}

#[test]
fn stop_runs_in_reverse_order() {
    let observed = Arc::new(Mutex::new(Vec::new()));

    struct P(Arc<Mutex<Vec<usize>>>, u8);

    impl Plugin for P {
        fn name(&self) -> &'static str {
            if self.1 == 1 { "p1" } else { "p2" }
        }

        fn start<'a>(&'a self, _ctx: &'a Context) -> BoxFuture<'a, Result<(), Error>> {
            Box::pin(async move {
                self.0.lock().unwrap().push(self.1 as usize);
                Ok(())
            })
        }

        fn stop<'a>(&'a self, _ctx: &'a Context) -> BoxFuture<'a, Result<(), Error>> {
            Box::pin(async move {
                self.0.lock().unwrap().push(10 + self.1 as usize);
                Ok(())
            })
        }
    }

    let mut builder = Builder::new();
    builder.plugin(P(observed.clone(), 1)).unwrap();
    builder.plugin(P(observed.clone(), 2)).unwrap();

    let mut rt = builder.build().unwrap();
    block_on(rt.start_serial()).unwrap();
    block_on(rt.stop()).unwrap();

    let observed = observed.lock().unwrap();
    assert_eq!(&observed[..2], &[1, 2]);
    assert_eq!(&observed[2..], &[12, 11]);
}

#[test]
fn dependency_check_runs_before_start() {
    #[derive(Debug)]
    struct Missing;

    struct NeedsMissing;

    impl Plugin for NeedsMissing {
        fn dependencies(&self) -> Vec<Dependency> {
            vec![depends_on::<Missing>()]
        }
    }

    let mut builder = Builder::new();
    builder.plugin(NeedsMissing).unwrap();

    let err = builder.verify().unwrap_err();
    assert!(matches!(err.kind, ErrorKind::ServiceNotFound(_)));

    builder.provide(Missing).unwrap();
    let mut rt = builder.build().unwrap();
    block_on(rt.start()).unwrap();
    block_on(rt.stop()).unwrap();
}

#[test]
fn plugin_apply_failure_rolls_back_partial_side_effects() {
    struct BadPlugin;

    impl Plugin for BadPlugin {
        fn apply(&self, cfg: &mut Configurator<'_>) -> Result<(), Error> {
            cfg.provide(42_u32)?;
            cfg.on_ready(SyncHook(|_: &Context| Ok(())))?;
            Err(Error::new(Phase::Apply, ErrorKind::Other))
        }
    }

    let mut builder = Builder::new();
    assert!(builder.plugin(BadPlugin).is_err());
    assert!(!builder.contains::<u32>());
}

#[test]
fn plugin_apply_failure_rolls_back_event_handlers_and_subscription_ids() {
    struct Ping;
    struct BadPlugin(Arc<Mutex<usize>>);

    impl Plugin for BadPlugin {
        fn apply(&self, cfg: &mut Configurator<'_>) -> Result<(), Error> {
            let calls = self.0.clone();
            cfg.on::<Ping, _>(FnEventHandler(move |_: &Ping, _: &Context| {
                *calls.lock().unwrap() += 1;
                Ok(EventControl::Continue)
            }))?;
            Err(Error::new(Phase::Apply, ErrorKind::Other))
        }
    }

    let observed = Arc::new(Mutex::new(0usize));
    let mut builder = Builder::new();
    assert!(builder.plugin(BadPlugin(observed.clone())).is_err());

    let rt = builder.build().unwrap();
    let ctx = rt.handle();
    block_on(ctx.emit(Ping)).unwrap();
    assert_eq!(*observed.lock().unwrap(), 0);

    let mut builder = Builder::new();
    let subscription = builder
        .on::<Ping, _>(FnEventHandler(|_: &Ping, _: &Context| {
            Ok(EventControl::Continue)
        }))
        .unwrap();
    assert_eq!(subscription.handler_id, 0);
}

#[test]
fn plugin_apply_failure_rolls_back_event_off_side_effect() {
    struct Ping;
    struct BadPlugin {
        subscription: Subscription,
    }

    impl Plugin for BadPlugin {
        fn apply(&self, cfg: &mut Configurator<'_>) -> Result<(), Error> {
            cfg.off(self.subscription)?;
            Err(Error::new(Phase::Apply, ErrorKind::Other))
        }
    }

    let mut builder = Builder::new();
    let observed = Arc::new(Mutex::new(0usize));

    let observed_handler = observed.clone();
    let subscription = builder
        .on::<Ping, _>(FnEventHandler(move |_: &Ping, _: &Context| {
            *observed_handler.lock().unwrap() += 1;
            Ok(EventControl::Continue)
        }))
        .unwrap();

    assert!(builder.plugin(BadPlugin { subscription }).is_err());

    let rt = builder.build().unwrap();
    let ctx = rt.handle();
    block_on(ctx.emit(Ping)).unwrap();
    assert_eq!(*observed.lock().unwrap(), 1);
}

#[test]
fn runtime_require_reports_require_phase() {
    #[derive(Debug)]
    struct Missing;

    let rt = Builder::new().build().unwrap();
    let ctx = rt.handle();
    let err = ctx.require::<Missing>().unwrap_err();
    assert!(matches!(err.kind, ErrorKind::ServiceNotFound(_)));
    assert_eq!(err.phase, Phase::Require);

    let builder = Builder::new();
    let err = builder.require::<Missing>().unwrap_err();
    assert_eq!(err.phase, Phase::Build);
}

#[test]
fn runtime_require_keeps_factory_error_phase() {
    let mut builder = Builder::new();
    builder
        .provide_factory::<u32>(|| Err(Error::new(Phase::Event, ErrorKind::Other)))
        .unwrap();
    let rt = builder.build().unwrap();
    let ctx = rt.handle();
    let err = ctx.require::<u32>().unwrap_err();
    assert_eq!(err.phase, Phase::Event);

    let mut builder = Builder::new();
    builder
        .provide_factory::<u8>(|| {
            Err(Error::new(
                Phase::Event,
                ErrorKind::ServiceNotFound("inner".to_string()),
            ))
        })
        .unwrap();
    let rt = builder.build().unwrap();
    let err = rt.handle().require::<u8>().unwrap_err();
    assert_eq!(err.phase, Phase::Event);
}

#[test]
fn stop_continues_and_dispose_hook_always_runs() {
    let observed = Arc::new(Mutex::new(Vec::new()));

    struct OkPlugin(Arc<Mutex<Vec<&'static str>>>);

    impl Plugin for OkPlugin {
        fn stop<'a>(&'a self, _ctx: &'a Context) -> BoxFuture<'a, Result<(), Error>> {
            Box::pin(async move {
                self.0.lock().unwrap().push("ok_stop");
                Ok(())
            })
        }
    }

    struct BadPlugin(Arc<Mutex<Vec<&'static str>>>);

    impl Plugin for BadPlugin {
        fn stop<'a>(&'a self, _ctx: &'a Context) -> BoxFuture<'a, Result<(), Error>> {
            Box::pin(async move {
                self.0.lock().unwrap().push("bad_stop");
                Err(Error::new(Phase::Stop, ErrorKind::Other))
            })
        }
    }

    let mut builder = Builder::new();
    builder
        .on_dispose(SyncHook(|ctx: &Context| {
            let observed = ctx.require::<Arc<Mutex<Vec<&'static str>>>>()?;
            observed.lock().unwrap().push("dispose");
            Ok(())
        }))
        .unwrap();
    builder.provide(observed.clone()).unwrap();

    builder.plugin(OkPlugin(observed.clone())).unwrap();
    builder.plugin(BadPlugin(observed.clone())).unwrap();

    let mut rt = builder.build().unwrap();
    block_on(rt.start()).unwrap();
    assert!(matches!(
        block_on(rt.stop()),
        StopOutcome::Stopped { errors } if !errors.is_empty()
    ));

    let observed = observed.lock().unwrap();
    assert_eq!(&*observed, &["bad_stop", "ok_stop", "dispose"]);
}

#[test]
fn repeated_start_stop_are_noop() {
    let start_count = Arc::new(AtomicUsize::new(0));
    let stop_count = Arc::new(AtomicUsize::new(0));
    let ready_count = Arc::new(AtomicUsize::new(0));
    let dispose_count = Arc::new(AtomicUsize::new(0));

    struct OncePlugin(Arc<AtomicUsize>, Arc<AtomicUsize>);

    impl Plugin for OncePlugin {
        fn start<'a>(&'a self, _ctx: &'a Context) -> BoxFuture<'a, Result<(), Error>> {
            Box::pin(async move {
                self.0.fetch_add(1, Ordering::SeqCst);
                Ok(())
            })
        }

        fn stop<'a>(&'a self, _ctx: &'a Context) -> BoxFuture<'a, Result<(), Error>> {
            Box::pin(async move {
                self.1.fetch_add(1, Ordering::SeqCst);
                Ok(())
            })
        }
    }

    let mut builder = Builder::new();
    builder
        .plugin(OncePlugin(start_count.clone(), stop_count.clone()))
        .unwrap();

    let ready_counter = ready_count.clone();
    builder
        .on_ready(SyncHook(move |_: &Context| {
            ready_counter.fetch_add(1, Ordering::SeqCst);
            Ok(())
        }))
        .unwrap();
    let dispose_counter = dispose_count.clone();
    builder
        .on_dispose(SyncHook(move |_: &Context| {
            dispose_counter.fetch_add(1, Ordering::SeqCst);
            Ok(())
        }))
        .unwrap();

    let mut rt = builder.build().unwrap();
    block_on(rt.start()).unwrap();
    block_on(rt.start()).unwrap();
    block_on(rt.stop()).unwrap();
    block_on(rt.stop()).unwrap();

    assert_eq!(start_count.load(Ordering::SeqCst), 1);
    assert_eq!(stop_count.load(Ordering::SeqCst), 1);
    assert_eq!(ready_count.load(Ordering::SeqCst), 1);
    assert_eq!(dispose_count.load(Ordering::SeqCst), 1);
}

#[test]
fn start_after_stop_is_noop() {
    let start_count = Arc::new(AtomicUsize::new(0));
    let stop_count = Arc::new(AtomicUsize::new(0));

    struct Counter(Arc<AtomicUsize>, Arc<AtomicUsize>);

    impl Plugin for Counter {
        fn start<'a>(&'a self, _ctx: &'a Context) -> BoxFuture<'a, Result<(), Error>> {
            Box::pin(async move {
                self.0.fetch_add(1, Ordering::SeqCst);
                Ok(())
            })
        }

        fn stop<'a>(&'a self, _ctx: &'a Context) -> BoxFuture<'a, Result<(), Error>> {
            Box::pin(async move {
                self.1.fetch_add(1, Ordering::SeqCst);
                Ok(())
            })
        }
    }

    let mut builder = Builder::new();
    builder
        .plugin(Counter(start_count.clone(), stop_count.clone()))
        .unwrap();

    let mut rt = builder.build().unwrap();
    block_on(rt.stop()).unwrap();
    block_on(rt.start()).unwrap();
    block_on(rt.start()).unwrap();

    assert_eq!(start_count.load(Ordering::SeqCst), 0);
    assert_eq!(stop_count.load(Ordering::SeqCst), 0);
}

#[test]
fn stop_without_start_only_runs_dispose_hooks() {
    let observed = Arc::new(Mutex::new(Vec::new()));

    struct NeverStarted(Arc<Mutex<Vec<&'static str>>>);

    impl Plugin for NeverStarted {
        fn start<'a>(&'a self, _ctx: &'a Context) -> BoxFuture<'a, Result<(), Error>> {
            Box::pin(async move {
                self.0.lock().unwrap().push("start");
                Ok(())
            })
        }

        fn stop<'a>(&'a self, _ctx: &'a Context) -> BoxFuture<'a, Result<(), Error>> {
            Box::pin(async move {
                self.0.lock().unwrap().push("stop");
                Ok(())
            })
        }
    }

    let mut builder = Builder::new();
    let dispose_log = observed.clone();
    builder
        .on_dispose(SyncHook(move |_ctx: &Context| {
            dispose_log.lock().unwrap().push("dispose");
            Ok(())
        }))
        .unwrap();
    builder.plugin(NeverStarted(observed.clone())).unwrap();

    let mut rt = builder.build().unwrap();
    block_on(rt.stop()).unwrap();

    let observed = observed.lock().unwrap();
    assert_eq!(&*observed, &["dispose"]);
}

#[test]
fn nested_plugin_apply_failure_preserves_inner_plugin_name() {
    struct InnerBad;

    impl Plugin for InnerBad {
        fn name(&self) -> &'static str {
            "inner-bad"
        }

        fn apply(&self, _cfg: &mut Configurator<'_>) -> Result<(), Error> {
            Err(Error::new(Phase::Apply, ErrorKind::Other))
        }
    }

    struct Outer;

    impl Plugin for Outer {
        fn name(&self) -> &'static str {
            "outer"
        }

        fn apply(&self, cfg: &mut Configurator<'_>) -> Result<(), Error> {
            cfg.provide(1_u32)?;
            cfg.plugin(InnerBad)?;
            Ok(())
        }
    }

    let mut builder = Builder::new();
    let err = builder.plugin(Outer).unwrap_err();
    assert_eq!(err.plugin, Some("inner-bad"));
    assert!(!builder.contains::<u32>());
}

#[test]
fn missing_service_reports_type_name() {
    let builder = Builder::new();
    let rt = builder.build().unwrap();
    let ctx = rt.handle();
    let err = ctx.require::<u32>().unwrap_err();
    assert!(matches!(err.kind, ErrorKind::ServiceNotFound(_)));
}

#[test]
fn scope_plugin_can_access_parent_service() {
    struct ParentService(&'static str);

    struct ScopePlugin;

    impl Plugin for ScopePlugin {
        fn apply(&self, cfg: &mut Configurator<'_>) -> Result<(), Error> {
            let service = cfg.require::<ParentService>()?;
            assert_eq!(service.0, "parent");
            Ok(())
        }
    }

    let mut builder = Builder::new();
    builder.provide(ParentService("parent")).unwrap();
    let rt = builder.build().unwrap();
    let ctx = rt.handle();

    let mut scope = ctx.scope().unwrap();
    scope.plugin(ScopePlugin).unwrap();
    let mut scope_rt = scope.build().unwrap();
    block_on(scope_rt.start()).unwrap();
    block_on(scope_rt.stop()).unwrap();
}

#[test]
fn scope_service_isolation_and_shadowing() {
    struct ParentService;
    struct ChildService;

    let mut builder = Builder::new();
    builder.provide(ParentService).unwrap();
    let rt = builder.build().unwrap();
    let ctx = rt.handle();

    let mut scope = ctx.scope().unwrap();
    scope.provide(ChildService).unwrap();

    assert!(scope.contains::<ParentService>());
    assert!(scope.contains::<ChildService>());
    assert!(!ctx.contains::<ChildService>());
    assert!(ctx.contains::<ParentService>());
}

#[test]
fn scope_dependency_check_sees_parent_service() {
    struct ParentService;
    struct NeedsParent;

    impl Plugin for NeedsParent {
        fn dependencies(&self) -> Vec<Dependency> {
            vec![depends_on::<ParentService>()]
        }
    }

    let mut builder = Builder::new();
    builder.provide(ParentService).unwrap();
    let rt = builder.build().unwrap();
    let ctx = rt.handle();

    let mut scope = ctx.scope().unwrap();
    scope.plugin(NeedsParent).unwrap();

    scope.verify().unwrap();
    let mut scope_rt = scope.build().unwrap();
    block_on(scope_rt.start()).unwrap();
    block_on(scope_rt.stop()).unwrap();
}

#[test]
fn active_scope_blocks_parent_stop_until_dropped() {
    let builder = Builder::new();
    let mut rt = builder.build().unwrap();
    let ctx = rt.handle();

    let scope_builder = ctx.scope().unwrap();

    let outcome = block_on(rt.stop());
    let StopOutcome::Blocked(blockers) = outcome else {
        panic!("expected Blocked, got {outcome:?}");
    };
    assert_eq!(blockers.ids(), ctx.children().as_slice());
    assert_eq!(blockers.len(), 1);

    drop(scope_builder);
    assert!(ctx.children().is_empty());
    block_on(rt.stop()).unwrap();
}

#[test]
fn stopped_child_runtime_releases_parent_lease() {
    let builder = Builder::new();
    let mut rt = builder.build().unwrap();
    let ctx = rt.handle();

    let scope = ctx.scope().unwrap();
    let mut scope_rt = scope.build().unwrap();
    block_on(scope_rt.start()).unwrap();

    assert!(matches!(block_on(rt.stop()), StopOutcome::Blocked(_)));

    block_on(scope_rt.stop()).unwrap();
    block_on(rt.stop()).unwrap();
    drop(scope_rt);
}

#[test]
fn scope_lease_release_happens_after_child_plugin_drop() {
    let log = Arc::new(Mutex::new(Vec::<&'static str>::new()));

    struct ProbePlugin {
        log: Arc<Mutex<Vec<&'static str>>>,
        parent_ctx: Context,
    }

    impl Drop for ProbePlugin {
        fn drop(&mut self) {
            if self.parent_ctx.child_count() == 0 {
                self.log.lock().unwrap().push("lease-released-too-early");
            } else {
                self.log
                    .lock()
                    .unwrap()
                    .push("child-plugin-dropped-while-lease-held");
            }
        }
    }

    impl Plugin for ProbePlugin {}

    let mut root_builder = Builder::new();
    let root_log = log.clone();
    root_builder
        .on_dispose(SyncHook(move |_ctx: &Context| {
            root_log.lock().unwrap().push("parent-dispose");
            Ok(())
        }))
        .unwrap();

    let mut root_rt = root_builder.build().unwrap();
    let root_ctx = root_rt.handle();

    let mut child_builder = root_ctx.scope().unwrap();
    child_builder
        .plugin(ProbePlugin {
            log: log.clone(),
            parent_ctx: root_ctx.clone(),
        })
        .unwrap();
    let child_rt = child_builder.build().unwrap();

    drop(child_rt);
    block_on(root_rt.stop()).unwrap();

    let log = log.lock().unwrap();
    assert_eq!(
        &*log,
        &["child-plugin-dropped-while-lease-held", "parent-dispose"]
    );
}

#[test]
fn nested_scope_inherits_and_shadows() {
    #[derive(Debug, PartialEq)]
    struct RootService(&'static str);
    struct SessionService;
    struct AnotherSessionService;
    struct SubflowService;

    let mut builder = Builder::new();
    builder.provide(RootService("root")).unwrap();
    let rt = builder.build().unwrap();
    let ctx = rt.handle();

    let mut session_builder = ctx.scope().unwrap();
    session_builder.provide(RootService("session")).unwrap();
    session_builder.provide(SessionService).unwrap();

    let session_rt = session_builder.build().unwrap();
    let session_ctx = session_rt.handle();

    let mut subflow_builder = session_ctx.scope().unwrap();
    subflow_builder.provide(SubflowService).unwrap();

    assert!(subflow_builder.contains::<RootService>());
    assert!(subflow_builder.contains::<SessionService>());
    assert!(subflow_builder.contains::<SubflowService>());

    assert_eq!(
        subflow_builder.require::<RootService>().unwrap().0,
        "session"
    );
    assert_eq!(session_ctx.require::<RootService>().unwrap().0, "session");
    assert_eq!(ctx.require::<RootService>().unwrap().0, "root");

    assert!(!session_ctx.contains::<SubflowService>());
    assert!(!ctx.contains::<SubflowService>());

    drop(subflow_builder);
    let mut another_session_builder = ctx.scope().unwrap();
    another_session_builder
        .provide(AnotherSessionService)
        .unwrap();
    drop(another_session_builder);

    let mut session_builder = ctx.scope().unwrap();
    session_builder.provide(SessionService).unwrap();
    let session_rt = session_builder.build().unwrap();
    let session_ctx = session_rt.handle();
    assert!(session_ctx.contains::<SessionService>());
}

#[test]
fn multiple_scopes_block_parent_mutation_until_all_dropped() {
    let builder = Builder::new();
    let mut rt = builder.build().unwrap();
    let ctx = rt.handle();

    let first = ctx.scope().unwrap();
    let second = ctx.scope().unwrap();

    assert!(matches!(block_on(rt.stop()), StopOutcome::Blocked(_)));

    drop(first);
    assert!(matches!(block_on(rt.stop()), StopOutcome::Blocked(_)));

    drop(second);
    block_on(rt.stop()).unwrap();
}

#[test]
fn scope_start_failure_cleanup_via_stop() {
    let observed = Arc::new(Mutex::new(Vec::new()));
    let ready_count = Arc::new(AtomicUsize::new(0));

    struct FailingPlugin(Arc<Mutex<Vec<&'static str>>>, Arc<AtomicUsize>);

    impl Plugin for FailingPlugin {
        fn start<'a>(&'a self, _ctx: &'a Context) -> BoxFuture<'a, Result<(), Error>> {
            Box::pin(async move {
                self.1.fetch_add(1, Ordering::SeqCst);
                Err(Error::new(Phase::Start, ErrorKind::Other))
            })
        }

        fn stop<'a>(&'a self, _ctx: &'a Context) -> BoxFuture<'a, Result<(), Error>> {
            Box::pin(async move {
                self.0.lock().unwrap().push("stop");
                Ok(())
            })
        }
    }

    let mut builder = Builder::new();
    builder.provide(observed.clone()).unwrap();
    builder.provide(ready_count.clone()).unwrap();
    let ready_counter = ready_count.clone();
    builder
        .on_ready(SyncHook(move |_: &Context| {
            ready_counter.fetch_add(1, Ordering::SeqCst);
            Ok(())
        }))
        .unwrap();
    builder
        .plugin(FailingPlugin(observed.clone(), ready_count.clone()))
        .unwrap();

    let mut rt = builder.build().unwrap();
    assert!(block_on(rt.start()).is_err());
    assert_eq!(ready_count.load(Ordering::SeqCst), 1);

    block_on(rt.stop()).unwrap();
    assert_eq!(*observed.lock().unwrap(), vec!["stop"]);
}

#[test]
fn partial_start_failure_reclaims_every_entered_plugin() {
    let observed = Arc::new(Mutex::new(Vec::<&'static str>::new()));

    struct OkPlugin(Arc<Mutex<Vec<&'static str>>>);
    struct BadPlugin(Arc<Mutex<Vec<&'static str>>>);

    impl Plugin for OkPlugin {
        fn start<'a>(&'a self, _ctx: &'a Context) -> BoxFuture<'a, Result<(), Error>> {
            Box::pin(async move {
                self.0.lock().unwrap().push("ok_start");
                Ok(())
            })
        }

        fn stop<'a>(&'a self, _ctx: &'a Context) -> BoxFuture<'a, Result<(), Error>> {
            Box::pin(async move {
                self.0.lock().unwrap().push("ok_stop");
                Ok(())
            })
        }
    }

    impl Plugin for BadPlugin {
        fn start<'a>(&'a self, _ctx: &'a Context) -> BoxFuture<'a, Result<(), Error>> {
            Box::pin(async move {
                self.0.lock().unwrap().push("bad_start");
                Err(Error::new(Phase::Start, ErrorKind::Other))
            })
        }

        fn stop<'a>(&'a self, _ctx: &'a Context) -> BoxFuture<'a, Result<(), Error>> {
            Box::pin(async move {
                self.0.lock().unwrap().push("bad_stop");
                Ok(())
            })
        }
    }

    let mut builder = Builder::new();
    builder.plugin(OkPlugin(observed.clone())).unwrap();
    builder.plugin(BadPlugin(observed.clone())).unwrap();

    let mut rt = builder.build().unwrap();
    assert!(block_on(rt.start_serial()).is_err());
    block_on(rt.stop()).unwrap();

    assert_eq!(
        &*observed.lock().unwrap(),
        &["ok_start", "bad_start", "bad_stop", "ok_stop"]
    );
}

#[test]
fn start_failure_blocks_reentry_and_preserves_first_error() {
    let starts = Arc::new(AtomicUsize::new(0));

    struct Failing(Arc<AtomicUsize>);

    impl Plugin for Failing {
        fn start<'a>(&'a self, _ctx: &'a Context) -> BoxFuture<'a, Result<(), Error>> {
            Box::pin(async move {
                self.0.fetch_add(1, Ordering::SeqCst);
                Err(Error::new(Phase::Start, ErrorKind::Other))
            })
        }
    }

    let mut builder = Builder::new();
    builder.plugin(Failing(starts.clone())).unwrap();
    let mut rt = builder.build().unwrap();

    let err = block_on(rt.start()).unwrap_err();
    assert!(matches!(err.kind, ErrorKind::Multiple(_)));
    assert_eq!(starts.load(Ordering::SeqCst), 1);

    let queried = rt.start_error().unwrap();
    assert!(matches!(queried.kind, ErrorKind::Multiple(_)));

    let reentry = block_on(rt.start()).unwrap_err();
    assert!(matches!(reentry.kind, ErrorKind::StartFailed));
    let aggregate = framework_cause(&reentry).unwrap();
    assert!(matches!(aggregate.kind, ErrorKind::Multiple(_)));
    assert_eq!(starts.load(Ordering::SeqCst), 1);

    block_on(rt.stop()).unwrap();
    block_on(rt.start()).unwrap();
    assert_eq!(starts.load(Ordering::SeqCst), 1);
}

#[test]
fn dropped_stop_future_resumes_instead_of_reporting_success() {
    let stops = Arc::new(Mutex::new(Vec::<&'static str>::new()));
    let entered = Arc::new(AtomicUsize::new(0));

    struct SlowStop {
        log: Arc<Mutex<Vec<&'static str>>>,
        entered: Arc<AtomicUsize>,
        release: Arc<Mutex<Option<futures::channel::oneshot::Receiver<()>>>>,
    }

    impl Plugin for SlowStop {
        fn stop<'a>(&'a self, _ctx: &'a Context) -> BoxFuture<'a, Result<(), Error>> {
            Box::pin(async move {
                self.entered.fetch_add(1, Ordering::SeqCst);
                let receiver = { self.release.lock().unwrap().take() };
                if let Some(receiver) = receiver {
                    let _ = receiver.await;
                }
                self.log.lock().unwrap().push("stopped");
                Ok(())
            })
        }
    }

    let (release, blocked) = futures::channel::oneshot::channel::<()>();
    let mut builder = Builder::new();
    builder
        .plugin(SlowStop {
            log: stops.clone(),
            entered: entered.clone(),
            release: Arc::new(Mutex::new(Some(blocked))),
        })
        .unwrap();
    let mut rt = builder.build().unwrap();
    block_on(rt.start()).unwrap();

    let waker = futures::task::noop_waker();
    let mut task_cx = TaskContext::from_waker(&waker);
    {
        let mut fut = Box::pin(rt.stop());
        assert!(matches!(fut.as_mut().poll(&mut task_cx), Poll::Pending));
    }

    assert!(rt.handle().is_stopping());
    assert!(stops.lock().unwrap().is_empty());

    release.send(()).unwrap();
    block_on(rt.stop()).unwrap();
    assert_eq!(&*stops.lock().unwrap(), &["stopped"]);
    assert_eq!(entered.load(Ordering::SeqCst), 1);
    assert!(rt.handle().is_stopped());
}

#[test]
fn dropped_stop_future_keeps_inflight_task_tracked() {
    struct Dummy;

    impl Plugin for Dummy {}

    let tokio_rt = tokio::runtime::Builder::new_current_thread()
        .enable_time()
        .build()
        .unwrap();

    tokio_rt.block_on(async {
        let mut builder = Builder::new();
        builder.plugin(Dummy).unwrap();
        let mut rt = builder.build().unwrap();
        rt.start().await.unwrap();

        let ctx = rt.handle();
        ctx.spawn(async {
            futures::future::pending::<()>().await;
            Ok(())
        })
        .unwrap();

        assert!(
            rt.stop_with_timeout(Duration::from_millis(10))
                .now_or_never()
                .is_none()
        );
        assert!(ctx.is_stopping());

        let err = rt.stop().await.unwrap_err();
        let ErrorKind::Multiple(errors) = &err.kind else {
            panic!("expected aggregated error, got {:?}", err.kind);
        };
        assert_eq!(errors.len(), 1);
        assert!(matches!(
            errors[0].kind,
            ErrorKind::TaskAborted { task_id } if task_id == TaskId::new(0)
        ));
    });
}

#[test]
fn dropped_start_future_blocks_reentry_and_stays_reclaimable() {
    let entered = Arc::new(AtomicUsize::new(0));
    let stops = Arc::new(Mutex::new(Vec::<&'static str>::new()));

    struct SlowStart {
        entered: Arc<AtomicUsize>,
        stops: Arc<Mutex<Vec<&'static str>>>,
    }

    impl Plugin for SlowStart {
        fn start<'a>(&'a self, _ctx: &'a Context) -> BoxFuture<'a, Result<(), Error>> {
            Box::pin(async move {
                if self.entered.fetch_add(1, Ordering::SeqCst) == 0 {
                    futures::future::pending::<()>().await;
                }
                Ok(())
            })
        }

        fn stop<'a>(&'a self, _ctx: &'a Context) -> BoxFuture<'a, Result<(), Error>> {
            Box::pin(async move {
                self.stops.lock().unwrap().push("stopped");
                Ok(())
            })
        }
    }

    let mut builder = Builder::new();
    builder
        .plugin(SlowStart {
            entered: entered.clone(),
            stops: stops.clone(),
        })
        .unwrap();
    let mut rt = builder.build().unwrap();

    let waker = futures::task::noop_waker();
    let mut task_cx = TaskContext::from_waker(&waker);
    {
        let mut fut = Box::pin(rt.start());
        assert!(matches!(fut.as_mut().poll(&mut task_cx), Poll::Pending));
    }

    let err = block_on(rt.start()).unwrap_err();
    assert!(matches!(err.kind, ErrorKind::StartFailed));
    assert!(err.source().is_none());
    assert!(rt.start_error().is_none());
    assert_eq!(entered.load(Ordering::SeqCst), 1);

    block_on(rt.stop()).unwrap();
    assert_eq!(&*stops.lock().unwrap(), &["stopped"]);
}

#[test]
fn dropped_stop_future_resumes_and_keeps_earlier_errors() {
    let dispose_runs = Arc::new(AtomicUsize::new(0));

    struct BadStop;

    impl Plugin for BadStop {
        fn stop<'a>(&'a self, _ctx: &'a Context) -> BoxFuture<'a, Result<(), Error>> {
            Box::pin(async move {
                Err(Error::new(Phase::Stop, ErrorKind::Other))
            })
        }
    }

    let mut builder = Builder::new();
    builder.plugin(BadStop).unwrap();

    let (release, blocked) = futures::channel::oneshot::channel::<()>();
    let blocked = Arc::new(Mutex::new(Some(blocked)));
    let counter = dispose_runs.clone();
    builder
        .on_dispose(AsyncHook(move |_ctx: Context| {
            let counter = counter.clone();
            let blocked = blocked.clone();
            async move {
                counter.fetch_add(1, Ordering::SeqCst);
                let receiver = { blocked.lock().unwrap().take() };
                if let Some(receiver) = receiver {
                    let _ = receiver.await;
                }
                Ok(())
            }
        }))
        .unwrap();

    let mut rt = builder.build().unwrap();
    block_on(rt.start()).unwrap();

    let waker = futures::task::noop_waker();
    let mut task_cx = TaskContext::from_waker(&waker);
    {
        let mut fut = Box::pin(rt.stop());
        assert!(matches!(fut.as_mut().poll(&mut task_cx), Poll::Pending));
    }

    release.send(()).unwrap();
    let err = block_on(rt.stop()).unwrap_err();
    let ErrorKind::Multiple(errors) = &err.kind else {
        panic!("expected aggregated error, got {:?}", err.kind);
    };
    assert_eq!(errors.len(), 1);
    assert!(matches!(errors[0].phase, Phase::Stop));
    assert!(matches!(errors[0].kind, ErrorKind::Other));
    assert_eq!(dispose_runs.load(Ordering::SeqCst), 1);
}

#[test]
#[should_panic(expected = "dropped without stop")]
fn dropping_running_runtime_without_stop_is_caught() {
    struct Dummy;

    impl Plugin for Dummy {}

    let mut builder = Builder::new();
    builder.plugin(Dummy).unwrap();
    let mut rt = builder.build().unwrap();
    block_on(rt.start()).unwrap();
}

#[test]
fn ready_hook_failure_is_fail_fast() {
    let run_count = Arc::new(AtomicUsize::new(0));

    struct Dummy;

    impl Plugin for Dummy {}

    let mut builder = Builder::new();
    let counter = run_count.clone();
    builder
        .on_ready(SyncHook(move |_: &Context| {
            counter.fetch_add(1, Ordering::SeqCst);
            Ok(())
        }))
        .unwrap();
    let counter = run_count.clone();
    builder
        .on_ready(SyncHook(move |_: &Context| {
            counter.fetch_add(1, Ordering::SeqCst);
            Err(Error::new(Phase::Ready, ErrorKind::Other))
        }))
        .unwrap();
    let counter = run_count.clone();
    builder
        .on_ready(SyncHook(move |_: &Context| {
            counter.fetch_add(1, Ordering::SeqCst);
            Ok(())
        }))
        .unwrap();

    builder.plugin(Dummy).unwrap();
    let mut rt = builder.build().unwrap();
    assert!(block_on(rt.start()).is_err());
    assert_eq!(run_count.load(Ordering::SeqCst), 2);
    block_on(rt.stop()).unwrap();
}

#[test]
fn dispose_hook_failure_continues_and_aggregates() {
    let run_count = Arc::new(AtomicUsize::new(0));

    struct Dummy;

    impl Plugin for Dummy {}

    let mut builder = Builder::new();
    let counter = run_count.clone();
    builder
        .on_dispose(SyncHook(move |_: &Context| {
            counter.fetch_add(1, Ordering::SeqCst);
            Err(Error::new(Phase::Dispose, ErrorKind::Other))
        }))
        .unwrap();
    let counter = run_count.clone();
    builder
        .on_dispose(SyncHook(move |_: &Context| {
            counter.fetch_add(1, Ordering::SeqCst);
            Ok(())
        }))
        .unwrap();

    builder.plugin(Dummy).unwrap();
    let mut rt = builder.build().unwrap();
    block_on(rt.start()).unwrap();
    assert!(matches!(
        block_on(rt.stop()),
        StopOutcome::Stopped { errors } if !errors.is_empty()
    ));
    assert_eq!(run_count.load(Ordering::SeqCst), 2);
}

#[test]
fn plugin_stop_panic_is_isolated_and_cleanup_completes() {
    struct Watched {
        name: &'static str,
        panic_on_stop: bool,
        stops: Arc<AtomicUsize>,
    }

    impl Plugin for Watched {
        fn name(&self) -> &'static str {
            self.name
        }

        fn stop<'a>(&'a self, _ctx: &'a Context) -> BoxFuture<'a, Result<(), Error>> {
            Box::pin(async move {
                self.stops.fetch_add(1, Ordering::SeqCst);
                if self.panic_on_stop {
                    panic!("stop boom");
                }
                Ok(())
            })
        }
    }

    let stops = Arc::new(AtomicUsize::new(0));
    let disposed = Arc::new(AtomicUsize::new(0));

    let mut builder = Builder::new();
    for (name, panic_on_stop) in [("p1", false), ("p2", true), ("p3", false)] {
        builder
            .plugin(Watched {
                name,
                panic_on_stop,
                stops: stops.clone(),
            })
            .unwrap();
    }
    let disposed_flag = disposed.clone();
    builder
        .on_dispose(SyncHook(move |_: &Context| {
            disposed_flag.fetch_add(1, Ordering::SeqCst);
            Ok(())
        }))
        .unwrap();

    let mut rt = builder.build().unwrap();
    block_on(rt.start()).unwrap();

    let outcome = block_on(rt.stop());
    assert!(outcome.is_stopped());
    assert_eq!(stops.load(Ordering::SeqCst), 3);
    assert_eq!(disposed.load(Ordering::SeqCst), 1);

    let errors = outcome.errors();
    assert!(
        errors.iter().any(
            |err| matches!(&err.kind, ErrorKind::LifecyclePanicked { .. })
                && err.phase == Phase::Stop
                && err.plugin == Some("p2")
        )
    );

    let again = block_on(rt.stop());
    assert!(again.is_stopped());
    assert!(again.errors().is_empty());
}

#[test]
fn dispose_panic_is_isolated_and_cleanup_completes() {
    let ran = Arc::new(AtomicUsize::new(0));

    let mut builder = Builder::new();
    builder
        .on_dispose(SyncHook(|_: &Context| panic!("dispose boom")))
        .unwrap();
    let ran_flag = ran.clone();
    builder
        .on_dispose(SyncHook(move |_: &Context| {
            ran_flag.fetch_add(1, Ordering::SeqCst);
            Ok(())
        }))
        .unwrap();

    let mut rt = builder.build().unwrap();
    block_on(rt.start()).unwrap();

    let outcome = block_on(rt.stop());
    assert!(outcome.is_stopped());
    assert_eq!(ran.load(Ordering::SeqCst), 1);
    assert!(
        outcome.errors().iter().any(|err| matches!(
            &err.kind,
            ErrorKind::LifecyclePanicked { .. }
        ) && err.phase == Phase::Dispose)
    );
}

#[test]
fn context_clone_does_not_block_stop() {
    let builder = Builder::new();
    let mut rt = builder.build().unwrap();
    let _shared = rt.handle();
    block_on(rt.start()).unwrap();
    block_on(rt.stop()).unwrap();
}

#[test]
fn async_hook_registration_works() {
    let runs = Arc::new(AtomicUsize::new(0));

    struct Dummy;

    impl Plugin for Dummy {}

    let mut builder = Builder::new();
    let counter = runs.clone();
    builder
        .on_ready(AsyncHook(move |ctx: Context| {
            let counter = counter.clone();
            async move {
                let _ = ctx;
                counter.fetch_add(1, Ordering::SeqCst);
                Ok(())
            }
        }))
        .unwrap();

    builder.plugin(Dummy).unwrap();

    let mut rt = builder.build().unwrap();
    block_on(rt.start()).unwrap();
    block_on(rt.stop()).unwrap();

    assert_eq!(runs.load(Ordering::SeqCst), 1);
}

#[test]
fn context_can_be_shared_across_threads() {
    struct Service(u32);

    block_on(async {
        let mut builder = Builder::new();
        builder.provide(Service(42)).unwrap();
        let mut rt = builder.build().unwrap();
        rt.start().await.unwrap();

        let shared = rt.handle();
        let readers: Vec<_> = (0..4)
            .map(|_| {
                let ctx = shared.clone();
                tokio::task::spawn_blocking(move || {
                    let service = ctx.require::<Service>()?;
                    assert_eq!(service.0, 42);
                    Ok::<(), Error>(())
                })
            })
            .collect();
        for reader in readers {
            reader.await.unwrap().unwrap();
        }

        drop(shared);
        rt.stop().await.unwrap();
    });
}

#[test]
fn event_serial_emit_runs_in_order() {
    struct Ping(u32);

    let mut builder = Builder::new();
    let observed = Arc::new(Mutex::new(Vec::new()));

    let first = observed.clone();
    builder
        .on::<Ping, _>(FnEventHandler(move |event: &Ping, _: &Context| {
            first.lock().unwrap().push(event.0);
            Ok(EventControl::Continue)
        }))
        .unwrap();

    let second = observed.clone();
    builder
        .on::<Ping, _>(FnEventHandler(move |event: &Ping, _: &Context| {
            second.lock().unwrap().push(event.0 + 10);
            Ok(EventControl::Continue)
        }))
        .unwrap();

    let rt = builder.build().unwrap();
    let ctx = rt.handle();
    block_on(ctx.emit(Ping(1))).unwrap();

    let observed = observed.lock().unwrap();
    assert_eq!(&*observed, &[1, 11]);
}

#[test]
fn event_scope_bubbles_to_parent() {
    struct Ping;

    let mut builder = Builder::new();
    let observed = Arc::new(Mutex::new(Vec::new()));

    let root_handler = observed.clone();
    builder
        .on::<Ping, _>(FnEventHandler(move |_: &Ping, _: &Context| {
            root_handler.lock().unwrap().push("root");
            Ok(EventControl::Continue)
        }))
        .unwrap();

    let rt = builder.build().unwrap();
    let ctx = rt.handle();
    let mut scope = ctx.scope().unwrap();
    let child_handler = observed.clone();
    scope
        .on::<Ping, _>(FnEventHandler(move |_: &Ping, _: &Context| {
            child_handler.lock().unwrap().push("child");
            Ok(EventControl::Continue)
        }))
        .unwrap();

    let scope_rt = scope.build().unwrap();
    let child_ctx = scope_rt.handle();
    block_on(child_ctx.emit(Ping)).unwrap();

    let observed = observed.lock().unwrap();
    assert_eq!(&*observed, &["child", "root"]);
}

#[test]
fn event_handlers_receive_their_registration_scope_context() {
    struct Ping;

    let observed = Arc::new(Mutex::new(Vec::new()));

    let root_observed = observed.clone();
    let mut root_builder = Builder::new();
    root_builder.provide(1_u32).unwrap();
    root_builder
        .on::<Ping, _>(FnEventHandler(move |_: &Ping, ctx: &Context| {
            root_observed
                .lock()
                .unwrap()
                .push(*ctx.require::<u32>().unwrap());
            Ok(EventControl::Continue)
        }))
        .unwrap();
    let root_rt = root_builder.build().unwrap();
    let root = root_rt.handle();

    let mut child = root.scope().unwrap();
    child.provide(2_u32).unwrap();
    let child_observed = observed.clone();
    child
        .on::<Ping, _>(FnEventHandler(move |_: &Ping, ctx: &Context| {
            child_observed
                .lock()
                .unwrap()
                .push(*ctx.require::<u32>().unwrap());
            Ok(EventControl::Continue)
        }))
        .unwrap();
    let child_rt = child.build().unwrap();
    let child_ctx = child_rt.handle();

    block_on(child_ctx.emit(Ping)).unwrap();
    block_on(child_ctx.emit_parallel(Ping)).unwrap();

    let observed = observed.lock().unwrap();
    assert_eq!(&*observed, &[2, 1, 2, 1]);
}

#[test]
fn event_bail_stops_bubbling() {
    struct Ping;

    let mut builder = Builder::new();
    let observed = Arc::new(Mutex::new(Vec::new()));

    let root_handler = observed.clone();
    builder
        .on::<Ping, _>(FnEventHandler(move |_: &Ping, _: &Context| {
            root_handler.lock().unwrap().push("root");
            Ok(EventControl::Continue)
        }))
        .unwrap();

    let rt = builder.build().unwrap();
    let ctx = rt.handle();
    let mut scope = ctx.scope().unwrap();
    let child_handler = observed.clone();
    scope
        .on::<Ping, _>(FnEventHandler(move |_: &Ping, _: &Context| {
            child_handler.lock().unwrap().push("child");
            Ok(EventControl::Bail)
        }))
        .unwrap();

    let scope_rt = scope.build().unwrap();
    let child_ctx = scope_rt.handle();
    block_on(child_ctx.emit(Ping)).unwrap();

    let observed = observed.lock().unwrap();
    assert_eq!(&*observed, &["child"]);
}

#[test]
fn event_off_unsubscribes() {
    struct Ping;

    let mut builder = Builder::new();
    let observed = Arc::new(Mutex::new(Vec::new()));
    let handler = observed.clone();
    let subscription = builder
        .on::<Ping, _>(FnEventHandler(move |_: &Ping, _: &Context| {
            handler.lock().unwrap().push("called");
            Ok(EventControl::Continue)
        }))
        .unwrap();
    builder.off(subscription).unwrap();
    let rt = builder.build().unwrap();
    let ctx = rt.handle();
    block_on(ctx.emit(Ping)).unwrap();

    assert!(observed.lock().unwrap().is_empty());
}

#[test]
fn event_parallel_runs_all_handlers() {
    struct Ping;

    let mut builder = Builder::new();
    let observed = Arc::new(Mutex::new(Vec::new()));

    let handler = observed.clone();
    builder
        .on::<Ping, _>(FnEventHandler(move |_: &Ping, _: &Context| {
            handler.lock().unwrap().push(1);
            Ok(EventControl::Continue)
        }))
        .unwrap();

    let handler = observed.clone();
    builder
        .on::<Ping, _>(FnEventHandler(move |_: &Ping, _: &Context| {
            handler.lock().unwrap().push(2);
            Ok(EventControl::Continue)
        }))
        .unwrap();

    let rt = builder.build().unwrap();
    let ctx = rt.handle();
    block_on(ctx.emit_parallel(Ping)).unwrap();

    let mut observed = observed.lock().unwrap();
    observed.sort_unstable();
    assert_eq!(&*observed, &[1, 2]);
}

#[test]
fn event_off_does_not_leak_across_contexts() {
    struct Ping;

    let mut builder = Builder::new();
    let observed = Arc::new(Mutex::new(Vec::new()));

    let root_handler = observed.clone();
    let root_sub = builder
        .on::<Ping, _>(FnEventHandler(move |_: &Ping, _: &Context| {
            root_handler.lock().unwrap().push("root");
            Ok(EventControl::Continue)
        }))
        .unwrap();

    let rt = builder.build().unwrap();
    let ctx = rt.handle();
    let mut child = ctx.scope().unwrap();
    let child_handler = observed.clone();
    child
        .on::<Ping, _>(FnEventHandler(move |_: &Ping, _: &Context| {
            child_handler.lock().unwrap().push("child");
            Ok(EventControl::Continue)
        }))
        .unwrap();

    assert!(matches!(
        child.off(root_sub),
        Err(Error {
            kind: ErrorKind::SubscriptionNotFound,
            ..
        })
    ));

    let child_rt = child.build().unwrap();
    let child_ctx = child_rt.handle();
    block_on(child_ctx.emit(Ping)).unwrap();

    let observed = observed.lock().unwrap();
    assert_eq!(&*observed, &["child", "root"]);
}

#[test]
fn try_require_handles_missing_and_present() {
    #[derive(Debug)]
    struct Present;
    struct Missing;

    let mut builder = Builder::new();
    assert!(builder.try_require::<Missing>().unwrap().is_none());

    builder.provide(Present).unwrap();
    assert!(builder.try_require::<Present>().unwrap().is_some());
}

#[test]
fn collection_is_local_only() {
    struct Tool(&'static str);

    let mut builder = Builder::new();
    builder.provide_collect(Tool("root")).unwrap();
    let rt = builder.build().unwrap();
    let ctx = rt.handle();
    let mut scope = ctx.scope().unwrap();
    scope.provide_collect(Tool("child")).unwrap();

    let root_all = ctx.require_all::<Tool>().unwrap();
    assert_eq!(root_all.len(), 1);
    assert_eq!(root_all[0].0, "root");

    let child_all = scope.require_all::<Tool>().unwrap();
    assert_eq!(child_all.len(), 1);
    assert_eq!(child_all[0].0, "child");
}

#[test]
fn factory_is_lazy_and_retries_on_error() {
    struct Lazy(String);

    let mut builder = Builder::new();
    let calls = Arc::new(AtomicUsize::new(0));
    let inside = calls.clone();
    builder
        .provide_factory(move || -> Result<Lazy, Error> {
            inside.fetch_add(1, Ordering::SeqCst);
            Err(Error::new(Phase::Start, ErrorKind::Other))
        })
        .unwrap();

    assert!(builder.require::<Lazy>().is_err());
    assert!(builder.require::<Lazy>().is_err());
    assert_eq!(calls.load(Ordering::SeqCst), 2);

    let mut builder = Builder::new();
    let calls = Arc::new(AtomicUsize::new(0));
    let inside = calls.clone();
    builder
        .provide_factory(move || -> Result<Lazy, Error> {
            inside.fetch_add(1, Ordering::SeqCst);
            Ok(Lazy("ok".to_string()))
        })
        .unwrap();

    assert_eq!(builder.require::<Lazy>().unwrap().0, "ok");
    assert_eq!(builder.require::<Lazy>().unwrap().0, "ok");
    assert_eq!(calls.load(Ordering::SeqCst), 1);
}

#[test]
fn factory_works_with_require_mut_and_contains() {
    let mut builder = Builder::new();
    builder.provide_factory(|| Ok::<u32, Error>(0)).unwrap();

    assert!(builder.contains::<u32>());
    *builder.require_mut::<u32>().unwrap() += 1;
    assert_eq!(*builder.require::<u32>().unwrap(), 1);
}

#[test]
fn async_fn_event_handler_works() {
    struct Ping;

    let mut builder = Builder::new();
    let observed = Arc::new(Mutex::new(Vec::new()));

    let handler = observed.clone();
    builder
        .on::<Ping, _>(AsyncFnEventHandler(move |_: &Ping, _ctx: Context| {
            let handler = handler.clone();
            async move {
                handler.lock().unwrap().push(1);
                Ok(EventControl::Continue)
            }
        }))
        .unwrap();

    let rt = builder.build().unwrap();
    let ctx = rt.handle();
    block_on(ctx.emit(Ping)).unwrap();
    assert_eq!(*observed.lock().unwrap(), vec![1]);
}

#[test]
fn optional_dependency_missing_does_not_block_start() {
    struct Missing;

    struct OptionalPlugin;

    impl Plugin for OptionalPlugin {
        fn dependencies(&self) -> Vec<Dependency> {
            vec![may_depend_on::<Missing>()]
        }
    }

    let mut builder = Builder::new();
    builder.plugin(OptionalPlugin).unwrap();
    let mut rt = builder.build().unwrap();
    block_on(rt.start()).unwrap();
    block_on(rt.stop()).unwrap();
}

#[test]
fn priority_controls_start_and_stop_order() {
    let observed = Arc::new(Mutex::new(Vec::new()));

    struct P(Arc<Mutex<Vec<usize>>>, i32, usize);

    impl Plugin for P {
        fn name(&self) -> &'static str {
            if self.2 == 1 { "p1" } else { "p2" }
        }

        fn priority(&self) -> i32 {
            self.1
        }

        fn start<'a>(&'a self, _ctx: &'a Context) -> BoxFuture<'a, Result<(), Error>> {
            Box::pin(async move {
                self.0.lock().unwrap().push(self.2);
                Ok(())
            })
        }

        fn stop<'a>(&'a self, _ctx: &'a Context) -> BoxFuture<'a, Result<(), Error>> {
            Box::pin(async move {
                self.0.lock().unwrap().push(10 + self.2);
                Ok(())
            })
        }
    }

    let mut builder = Builder::new();
    builder.plugin(P(observed.clone(), 0, 1)).unwrap();
    builder.plugin(P(observed.clone(), 10, 2)).unwrap();

    let mut rt = builder.build().unwrap();
    block_on(rt.start_serial()).unwrap();
    block_on(rt.stop()).unwrap();

    let observed = observed.lock().unwrap();
    assert_eq!(&*observed, &[2, 1, 11, 12]);
}

#[test]
fn service_and_factory_cannot_coexist() {
    let mut builder = Builder::new();
    builder.provide_factory(|| Ok::<u32, Error>(1)).unwrap();
    assert!(matches!(
        builder.provide(2_u32),
        Err(Error {
            kind: ErrorKind::ServiceAlreadyRegistered(_),
            ..
        })
    ));
}

#[test]
fn plugin_dependency_missing_blocks_start() {
    struct NeedsMissing;

    impl Plugin for NeedsMissing {
        fn plugin_dependencies(&self) -> Vec<PluginDependency> {
            vec![PluginDependency::of("missing")]
        }
    }

    let mut builder = Builder::new();
    builder.plugin(NeedsMissing).unwrap();
    assert!(matches!(
        builder.verify(),
        Err(Error {
            kind: ErrorKind::PluginDependencyNotFound(_),
            ..
        })
    ));
}

#[test]
fn optional_plugin_dependency_missing_does_not_block() {
    struct OptionalPlugin;

    impl Plugin for OptionalPlugin {
        fn plugin_dependencies(&self) -> Vec<PluginDependency> {
            vec![PluginDependency::optional_of("missing")]
        }
    }

    let mut builder = Builder::new();
    builder.plugin(OptionalPlugin).unwrap();
    let mut rt = builder.build().unwrap();
    block_on(rt.start()).unwrap();
    block_on(rt.stop()).unwrap();
}

#[test]
fn optional_plugin_dependency_present_respects_order_even_in_parallel_start() {
    let observed = Arc::new(Mutex::new(Vec::new()));

    struct A(Arc<Mutex<Vec<&'static str>>>);

    impl Plugin for A {
        fn name(&self) -> &'static str {
            "a"
        }

        fn plugin_dependencies(&self) -> Vec<PluginDependency> {
            vec![PluginDependency::optional_of("b")]
        }

        fn start<'a>(&'a self, _ctx: &'a Context) -> BoxFuture<'a, Result<(), Error>> {
            Box::pin(async move {
                self.0.lock().unwrap().push("a-start");
                Ok(())
            })
        }
    }

    struct B(Arc<Mutex<Vec<&'static str>>>);

    impl Plugin for B {
        fn name(&self) -> &'static str {
            "b"
        }

        fn start<'a>(&'a self, _ctx: &'a Context) -> BoxFuture<'a, Result<(), Error>> {
            Box::pin(async move {
                self.0.lock().unwrap().push("b-start");
                Ok(())
            })
        }
    }

    let mut builder = Builder::new();
    builder.plugin(A(observed.clone())).unwrap();
    builder.plugin(B(observed.clone())).unwrap();

    let mut rt = builder.build().unwrap();
    block_on(rt.start()).unwrap();
    block_on(rt.stop()).unwrap();

    let observed = observed.lock().unwrap();
    assert_eq!(&*observed, &["b-start", "a-start"]);
}

#[test]
fn plugin_dependency_topological_order() {
    let observed = Arc::new(Mutex::new(Vec::new()));

    struct A(Arc<Mutex<Vec<&'static str>>>);

    impl Plugin for A {
        fn name(&self) -> &'static str {
            "a"
        }

        fn plugin_dependencies(&self) -> Vec<PluginDependency> {
            vec![PluginDependency::of("b")]
        }

        fn start<'a>(&'a self, _ctx: &'a Context) -> BoxFuture<'a, Result<(), Error>> {
            Box::pin(async move {
                self.0.lock().unwrap().push("a-start");
                Ok(())
            })
        }

        fn stop<'a>(&'a self, _ctx: &'a Context) -> BoxFuture<'a, Result<(), Error>> {
            Box::pin(async move {
                self.0.lock().unwrap().push("a-stop");
                Ok(())
            })
        }
    }

    struct B(Arc<Mutex<Vec<&'static str>>>);

    impl Plugin for B {
        fn name(&self) -> &'static str {
            "b"
        }

        fn start<'a>(&'a self, _ctx: &'a Context) -> BoxFuture<'a, Result<(), Error>> {
            Box::pin(async move {
                self.0.lock().unwrap().push("b-start");
                Ok(())
            })
        }

        fn stop<'a>(&'a self, _ctx: &'a Context) -> BoxFuture<'a, Result<(), Error>> {
            Box::pin(async move {
                self.0.lock().unwrap().push("b-stop");
                Ok(())
            })
        }
    }

    let mut builder = Builder::new();
    builder.plugin(A(observed.clone())).unwrap();
    builder.plugin(B(observed.clone())).unwrap();

    let mut rt = builder.build().unwrap();
    block_on(rt.start_serial()).unwrap();
    block_on(rt.stop()).unwrap();

    let observed = observed.lock().unwrap();
    assert_eq!(&*observed, &["b-start", "a-start", "a-stop", "b-stop"]);
}

#[test]
fn plugin_dependency_cycle_detected() {
    struct A;
    struct B;

    impl Plugin for A {
        fn name(&self) -> &'static str {
            "a"
        }

        fn plugin_dependencies(&self) -> Vec<PluginDependency> {
            vec![PluginDependency::of("b")]
        }
    }

    impl Plugin for B {
        fn name(&self) -> &'static str {
            "b"
        }

        fn plugin_dependencies(&self) -> Vec<PluginDependency> {
            vec![PluginDependency::of("a")]
        }
    }

    let mut builder = Builder::new();
    builder.plugin(A).unwrap();
    builder.plugin(B).unwrap();
    assert!(matches!(
        builder.verify(),
        Err(Error {
            kind: ErrorKind::PluginDependencyCycle,
            ..
        })
    ));
}

#[test]
fn plugin_name_uniqueness_enforced() {
    struct First;
    struct Second;

    impl Plugin for First {
        fn name(&self) -> &'static str {
            "duplicate"
        }
    }

    impl Plugin for Second {
        fn name(&self) -> &'static str {
            "duplicate"
        }
    }

    let mut builder = Builder::new();
    builder.plugin(First).unwrap();
    assert!(matches!(
        builder.plugin(Second),
        Err(Error {
            kind: ErrorKind::PluginNameAlreadyRegistered(_),
            ..
        })
    ));
}

#[test]
fn nested_plugin_with_same_name_is_rejected() {
    struct Outer;
    struct Inner;
    struct Plain;

    impl Plugin for Inner {
        fn name(&self) -> &'static str {
            "dup"
        }
    }

    impl Plugin for Outer {
        fn name(&self) -> &'static str {
            "dup"
        }

        fn apply(&self, cfg: &mut Configurator<'_>) -> Result<(), Error> {
            cfg.plugin(Inner)
        }
    }

    impl Plugin for Plain {
        fn name(&self) -> &'static str {
            "dup"
        }
    }

    let mut builder = Builder::new();
    let err = match builder.plugin(Outer) {
        Err(err) => err,
        Ok(()) => panic!("unexpected outcome"),
    };
    assert!(
        matches!(&err.kind, ErrorKind::PluginNameAlreadyRegistered(n) if n == "dup"),
        "{err:?}"
    );

    builder.plugin(Plain).unwrap();
    let _ = builder.build().unwrap();
}

#[test]
fn has_plugin_sees_parent() {
    struct RootPlugin;

    impl Plugin for RootPlugin {
        fn name(&self) -> &'static str {
            "root-plugin"
        }
    }

    let mut builder = Builder::new();
    builder.plugin(RootPlugin).unwrap();
    let rt = builder.build().unwrap();
    let ctx = rt.handle();

    let scope = ctx.scope().unwrap();
    assert!(scope.has_plugin("root-plugin"));
    assert!(!scope.has_plugin("missing"));
}

#[test]
fn plugin_with_config_injects_and_rolls_back() {
    #[derive(Clone)]
    struct MyConfig;

    struct ConfigPlugin;

    impl Plugin for ConfigPlugin {
        fn apply(&self, cfg: &mut Configurator<'_>) -> Result<(), Error> {
            let _ = cfg.require::<MyConfig>()?;
            Ok(())
        }
    }

    let mut builder = Builder::new();
    builder.plugin_with_config(ConfigPlugin, MyConfig).unwrap();
    assert!(builder.contains::<MyConfig>());

    struct BadPlugin;

    impl Plugin for BadPlugin {
        fn apply(&self, _cfg: &mut Configurator<'_>) -> Result<(), Error> {
            Err(Error::new(Phase::Apply, ErrorKind::Other))
        }
    }

    let mut builder = Builder::new();
    assert!(builder.plugin_with_config(BadPlugin, MyConfig).is_err());
    assert!(!builder.contains::<MyConfig>());
}

#[test]
fn child_plugin_can_depend_on_parent_plugin() {
    struct RootPlugin;

    impl Plugin for RootPlugin {
        fn name(&self) -> &'static str {
            "root"
        }
    }

    struct ChildPlugin;

    impl Plugin for ChildPlugin {
        fn name(&self) -> &'static str {
            "child"
        }

        fn plugin_dependencies(&self) -> Vec<PluginDependency> {
            vec![PluginDependency::of("root")]
        }
    }

    let mut builder = Builder::new();
    builder.plugin(RootPlugin).unwrap();
    let mut rt = builder.build().unwrap();
    block_on(rt.start()).unwrap();

    let ctx = rt.handle();
    let mut scope = ctx.scope().unwrap();
    scope.plugin(ChildPlugin).unwrap();
    let mut scope_rt = scope.build().unwrap();
    block_on(scope_rt.start()).unwrap();
    block_on(scope_rt.stop()).unwrap();

    drop(scope_rt);
    block_on(rt.stop()).unwrap();
}

#[test]
fn try_build_failure_returns_builder() {
    struct Missing;

    struct NeedsMissing;

    impl Plugin for NeedsMissing {
        fn dependencies(&self) -> Vec<Dependency> {
            vec![depends_on::<Missing>()]
        }
    }

    let mut builder = Builder::new();
    builder.plugin(NeedsMissing).unwrap();
    let (mut builder, err) = match builder.try_build() {
        Ok(_) => panic!("try_build should fail"),
        Err(pair) => pair,
    };
    assert!(matches!(err.kind, ErrorKind::ServiceNotFound(_)));
    builder.verify().unwrap_err();

    builder.provide(Missing).unwrap();
    let mut rt = builder.build().unwrap();
    block_on(rt.start()).unwrap();
    block_on(rt.stop()).unwrap();
}

#[test]
fn stopping_scope_returns_stopping_error() {
    let builder = Builder::new();
    let mut rt = builder.build().unwrap();
    let ctx = rt.handle();

    block_on(rt.stop()).unwrap();
    assert!(matches!(
        ctx.scope(),
        Err(Error {
            kind: ErrorKind::Stopping,
            ..
        })
    ));
}

#[test]
fn plugin_scope_enforces_root_and_child_restrictions() {
    struct RootOnly;

    impl Plugin for RootOnly {
        fn name(&self) -> &'static str {
            "root-only"
        }

        fn scope(&self) -> PluginScope {
            PluginScope::Root
        }
    }

    struct ChildOnly;

    impl Plugin for ChildOnly {
        fn name(&self) -> &'static str {
            "child-only"
        }

        fn scope(&self) -> PluginScope {
            PluginScope::Child
        }
    }

    let mut builder = Builder::new();
    builder.plugin(RootOnly).unwrap();

    let err = builder.plugin(ChildOnly).unwrap_err();
    assert!(matches!(
        err.kind,
        ErrorKind::PluginScopeMismatch {
            plugin_name,
            expected: PluginScope::Child,
            actual: PluginScope::Root,
        } if plugin_name == "child-only"
    ));

    let rt = builder.build().unwrap();
    let ctx = rt.handle();
    let mut child = ctx.scope().unwrap();
    child.plugin(ChildOnly).unwrap();

    let err = child.plugin(RootOnly).unwrap_err();
    assert!(matches!(
        err.kind,
        ErrorKind::PluginScopeMismatch {
            plugin_name,
            expected: PluginScope::Root,
            actual: PluginScope::Child,
        } if plugin_name == "root-only"
    ));
}

#[test]
fn require_all_recursive_inherits_parent_collections() {
    struct Tool(&'static str);

    let mut builder = Builder::new();
    builder.provide_collect(Tool("root")).unwrap();
    let rt = builder.build().unwrap();
    let ctx = rt.handle();

    let mut child = ctx.scope().unwrap();
    child.provide_collect(Tool("child-1")).unwrap();
    child.provide_collect(Tool("child-2")).unwrap();
    let child_rt = child.build().unwrap();
    let child_ctx = child_rt.handle();

    let local = child_ctx.require_all::<Tool>().unwrap();
    assert_eq!(local.len(), 2);
    assert_eq!(local[0].0, "child-1");
    assert_eq!(local[1].0, "child-2");

    let recursive = child_ctx.require_all_recursive::<Tool>().unwrap();
    let names: Vec<&str> = recursive.iter().map(|tool| tool.0).collect();
    assert_eq!(names, ["child-1", "child-2", "root"]);

    drop(child_rt);
    drop(rt);
}

#[test]
fn strict_emit_stops_bubbling_on_error_but_notify_continues() {
    struct Probe;

    for strict in [true, false] {
        let mut builder = Builder::new();
        let root_hits = Arc::new(AtomicUsize::new(0));
        let hits = root_hits.clone();
        builder
            .on::<Probe, _>(FnEventHandler(move |_: &Probe, _: &Context| {
                hits.fetch_add(1, Ordering::SeqCst);
                Ok(EventControl::Continue)
            }))
            .unwrap();

        let rt = builder.build().unwrap();
        let ctx = rt.handle();
        let mut child = ctx.scope().unwrap();
        child
            .on::<Probe, _>(FnEventHandler(|_: &Probe, _: &Context| {
                Err(Error::new(Phase::Event, ErrorKind::Other))
            }))
            .unwrap();
        let child_rt = child.build().unwrap();
        let child_ctx = child_rt.handle();

        if strict {
            assert!(block_on(child_ctx.emit(Probe)).is_err());
            assert_eq!(
                root_hits.load(Ordering::SeqCst),
                0
            );
        } else {
            assert_eq!(block_on(child_ctx.emit_notify(Probe)).len(), 1);
            assert_eq!(
                root_hits.load(Ordering::SeqCst),
                1
            );
        }
    }
}

#[test]
fn emit_notify_continues_after_handler_errors() {
    struct Notify;

    let mut builder = Builder::new();
    let observed = Arc::new(Mutex::new(Vec::new()));
    let root_seen = observed.clone();
    builder
        .on::<Notify, _>(FnEventHandler(move |_: &Notify, _: &Context| {
            root_seen.lock().unwrap().push("root");
            Err(Error::new(Phase::Event, ErrorKind::Other))
        }))
        .unwrap();

    let rt = builder.build().unwrap();
    let ctx = rt.handle();
    let mut child = ctx.scope().unwrap();
    let child_seen = observed.clone();
    child
        .on::<Notify, _>(FnEventHandler(move |_: &Notify, _: &Context| {
            child_seen.lock().unwrap().push("child");
            Err(Error::new(Phase::Event, ErrorKind::Other))
        }))
        .unwrap();
    let child_rt = child.build().unwrap();
    let child_ctx = child_rt.handle();

    let errors = block_on(child_ctx.emit_notify(Notify));
    assert_eq!(errors.len(), 2);

    let mut seen = observed.lock().unwrap();
    seen.sort_unstable();
    assert_eq!(&*seen, &["child", "root"]);
}

#[test]
fn emit_notify_bail_stops_bubbling() {
    struct NotifyBail;

    let mut builder = Builder::new();
    let observed = Arc::new(Mutex::new(Vec::new()));
    let root_seen = observed.clone();
    builder
        .on::<NotifyBail, _>(FnEventHandler(move |_: &NotifyBail, _: &Context| {
            root_seen.lock().unwrap().push("root");
            Ok(EventControl::Continue)
        }))
        .unwrap();

    let rt = builder.build().unwrap();
    let ctx = rt.handle();
    let mut child = ctx.scope().unwrap();
    let child_seen = observed.clone();
    child
        .on::<NotifyBail, _>(FnEventHandler(move |_: &NotifyBail, _: &Context| {
            child_seen.lock().unwrap().push("child");
            Ok(EventControl::Bail)
        }))
        .unwrap();
    let child_rt = child.build().unwrap();
    let child_ctx = child_rt.handle();

    let errors = block_on(child_ctx.emit_notify(NotifyBail));
    assert!(errors.is_empty());
    let seen = observed.lock().unwrap();
    assert_eq!(&*seen, &["child"]);
}

#[test]
fn emit_notify_parallel_continues_after_handler_errors() {
    struct NotifyParallel;

    let mut builder = Builder::new();
    let observed = Arc::new(Mutex::new(Vec::new()));
    let root_seen = observed.clone();
    builder
        .on::<NotifyParallel, _>(FnEventHandler(move |_: &NotifyParallel, _: &Context| {
            root_seen.lock().unwrap().push("root");
            Err(Error::new(Phase::Event, ErrorKind::Other))
        }))
        .unwrap();

    let rt = builder.build().unwrap();
    let ctx = rt.handle();
    let mut child = ctx.scope().unwrap();
    let child_seen = observed.clone();
    child
        .on::<NotifyParallel, _>(FnEventHandler(move |_: &NotifyParallel, _: &Context| {
            child_seen.lock().unwrap().push("child");
            Err(Error::new(Phase::Event, ErrorKind::Other))
        }))
        .unwrap();
    let child_rt = child.build().unwrap();
    let child_ctx = child_rt.handle();

    let errors = block_on(child_ctx.emit_notify_parallel(NotifyParallel));
    assert_eq!(errors.len(), 2);

    let mut seen = observed.lock().unwrap();
    seen.sort_unstable();
    assert_eq!(&*seen, &["child", "root"]);
}

#[test]
fn emit_notify_parallel_bail_stops_bubbling() {
    struct NotifyParallelBail;

    let mut builder = Builder::new();
    let observed = Arc::new(Mutex::new(Vec::new()));
    let root_seen = observed.clone();
    builder
        .on::<NotifyParallelBail, _>(FnEventHandler(
            move |_: &NotifyParallelBail, _: &Context| {
                root_seen.lock().unwrap().push("root");
                Ok(EventControl::Continue)
            },
        ))
        .unwrap();

    let rt = builder.build().unwrap();
    let ctx = rt.handle();
    let mut child = ctx.scope().unwrap();
    let child_seen = observed.clone();
    child
        .on::<NotifyParallelBail, _>(FnEventHandler(
            move |_: &NotifyParallelBail, _: &Context| {
                child_seen.lock().unwrap().push("child");
                Ok(EventControl::Bail)
            },
        ))
        .unwrap();
    let child_rt = child.build().unwrap();
    let child_ctx = child_rt.handle();

    let errors = block_on(child_ctx.emit_notify_parallel(NotifyParallelBail));
    assert!(errors.is_empty());
    let seen = observed.lock().unwrap();
    assert_eq!(&*seen, &["child"]);
}

#[test]
fn builder_depth_and_is_root_for_nested_scopes() {
    let root = Builder::new();
    assert_eq!(root.depth(), 0);
    assert!(root.is_root());

    let rt = root.build().unwrap();
    let ctx = rt.handle();
    let child = ctx.scope().unwrap();
    assert_eq!(child.depth(), 1);
    assert!(!child.is_root());

    let child_rt = child.build().unwrap();
    let child_ctx = child_rt.handle();
    let grandchild = child_ctx.scope().unwrap();
    assert_eq!(grandchild.depth(), 2);
    assert!(!grandchild.is_root());
}

#[test]
fn dynamic_value_can_be_updated_at_runtime() {
    let mut builder = Builder::new();
    builder.provide_dynamic(1_u32).unwrap();

    assert!(!builder.contains::<u32>());
    assert!(builder.contains::<Arc<DynamicValue<u32>>>());

    let rt = builder.build().unwrap();
    let ctx = rt.handle();
    let dynamic = ctx.require_dynamic::<u32>().unwrap();
    assert_eq!(*dynamic.read(), 1);

    dynamic.set(2);
    assert_eq!(*dynamic.read(), 2);

    dynamic.update(|value| *value += 3);
    assert_eq!(*dynamic.read(), 5);
}

#[test]
fn dynamic_value_is_inherited_by_child_scope() {
    let mut builder = Builder::new();
    builder.provide_dynamic("boot".to_string()).unwrap();
    let rt = builder.build().unwrap();
    let ctx = rt.handle();

    let child = ctx.scope().unwrap();
    let child_rt = child.build().unwrap();
    let child_ctx = child_rt.handle();

    let dynamic = child_ctx.require_dynamic::<String>().unwrap();
    assert_eq!(*dynamic.read(), "boot");

    dynamic.set("child-updated".to_string());
    assert_eq!(
        *ctx.require_dynamic::<String>().unwrap().read(),
        "child-updated"
    );
}

struct RollbackTool(&'static str);

struct FailingCollect;

impl Plugin for FailingCollect {
    fn name(&self) -> &'static str {
        "failing-collect"
    }

    fn apply(&self, cfg: &mut Configurator<'_>) -> Result<(), Error> {
        cfg.provide_collect(RollbackTool("bad"))?;
        Err(Error::new(Phase::Apply, ErrorKind::Other))
    }
}

#[test]
fn contains_sees_ancestor_collection() {
    let mut builder = Builder::new();
    builder.provide_collect(RollbackTool("root")).unwrap();
    let rt = builder.build().unwrap();
    let scope = rt.handle().scope().unwrap();
    assert!(scope.contains::<RollbackTool>());
    assert!(rt.handle().contains::<RollbackTool>());
}

#[test]
fn failed_plugin_rolls_back_collection_elements() {
    let mut builder = Builder::new();
    builder.provide_collect(RollbackTool("root")).unwrap();
    let err = builder.plugin(FailingCollect).unwrap_err();
    assert!(matches!(err.kind, ErrorKind::Other));
    let all = builder.require_all::<RollbackTool>().unwrap();
    assert_eq!(all.len(), 1);
    assert_eq!(all[0].0, "root");
}

struct ConcurrentLazy(u64);

#[test]
fn concurrent_factory_runs_at_most_once_on_success() {
    block_on(async {
        let mut builder = Builder::new();
        let calls = Arc::new(AtomicUsize::new(0));
        let inside = calls.clone();
        builder
            .provide_factory(move || -> Result<ConcurrentLazy, Error> {
                inside.fetch_add(1, Ordering::SeqCst);
                futures::executor::block_on(tokio::time::sleep(Duration::from_millis(20)));
                Ok(ConcurrentLazy(42))
            })
            .unwrap();
        let rt = builder.build().unwrap();
        let ctx = rt.handle();
        let readers: Vec<_> = (0..8)
            .map(|_| {
                let ctx = ctx.clone();
                tokio::task::spawn_blocking(move || ctx.require::<ConcurrentLazy>().unwrap().0)
            })
            .collect();
        for reader in readers {
            assert_eq!(reader.await.unwrap(), 42);
        }
        assert_eq!(calls.load(Ordering::SeqCst), 1);
    });
}

#[test]
fn stopped_child_scope_is_observable() {
    let rt = Builder::new().build().unwrap();
    let ctx = rt.handle();
    let scope = ctx.scope().unwrap();
    let mut scope_rt = scope.build().unwrap();
    let scope_ctx = scope_rt.handle();
    assert!(!scope_ctx.is_stopping());
    assert_eq!(ctx.children().len(), 1);
    assert!(ctx.parent().is_none());
    assert!(scope_ctx.parent().is_some());

    block_on(scope_rt.stop()).unwrap();
    assert!(scope_ctx.is_stopping());
    assert!(ctx.children().is_empty());
    assert!(scope_ctx.parent().is_some());

    drop(scope_ctx);
    drop(scope_rt);
    assert!(ctx.children().is_empty());
}

#[test]
fn stop_waits_for_spawned_tasks() {
    block_on(async {
        let mut rt = Builder::new().build().unwrap();
        rt.start().await.unwrap();
        let ctx = rt.handle();

        let (release_tx, release_rx) = futures::channel::oneshot::channel::<()>();
        ctx.spawn(async move {
            let _ = release_rx.await;
            Ok::<(), Error>(())
        })
        .unwrap();
        assert_eq!(ctx.task_count(), 1);

        let mut stopper = Box::pin(rt.stop());
        assert!(poll_once(stopper.as_mut()).await.is_pending());
        assert_eq!(ctx.task_count(), 1);

        let _ = release_tx.send(());
        stopper.await.unwrap();
        assert_eq!(ctx.task_count(), 0);
    });
}

#[test]
fn task_err_report_cut_by_drain_abort_is_reported() {
    let entered = Arc::new(AtomicUsize::new(0));

    let mut builder = Builder::new();
    let entered_flag = entered.clone();
    builder
        .on::<TaskFailed, _>(AsyncFnEventHandler(move |_: &TaskFailed, _: Context| {
            let entered_flag = entered_flag.clone();
            async move {
                entered_flag.fetch_add(1, Ordering::SeqCst);
                tokio::time::sleep(Duration::from_secs(30)).await;
                Ok(EventControl::Continue)
            }
        }))
        .unwrap();

    block_on(async move {
        let mut rt = builder.build().unwrap();
        rt.start().await.unwrap();
        let _task = rt
            .handle()
            .spawn(async { Err::<(), Error>(Error::new(Phase::Stop, ErrorKind::Other)) })
            .unwrap();

        let outcome = rt
            .stop_with_timeout(Duration::from_millis(50))
            .await;
        assert!(entered.load(Ordering::SeqCst) >= 1);
        let errors = outcome.errors();
        assert!(
            errors
                .iter()
                .any(|err| matches!(err.kind, ErrorKind::TaskFailed { .. }))
        );
    });
}

#[test]
fn panicking_task_failed_handler_does_not_hang_stop() {
    let mut builder = Builder::new();
    builder
        .on::<TaskFailed, _>(FnEventHandler(|_: &TaskFailed, _: &Context| {
            panic!("TaskFailed handler boom")
        }))
        .unwrap();
    block_on(async move {
        let mut rt = builder.build().unwrap();
        rt.start().await.unwrap();
        let task = rt
            .handle()
            .spawn(async { Err::<(), Error>(Error::new(Phase::Start, ErrorKind::Other)) })
            .unwrap();

        let waited = tokio::time::timeout(Duration::from_secs(5), task.wait())
            .await
            .unwrap();
        assert!(matches!(waited, TaskOutcome::Failed(_)));
        assert!(task.is_finished());

        let stopped = tokio::time::timeout(Duration::from_secs(5), rt.stop())
            .await
            .unwrap()
            .unwrap_err();
        let ErrorKind::Multiple(errors) = stopped.kind else {
            panic!("expected aggregated error, got {:?}", stopped.kind);
        };
        assert!(matches!(
            errors[0].kind,
            ErrorKind::TaskFailed { task_id } if task_id == TaskId::new(0)
        ));
    });
}

#[test]
fn stop_with_timeout_aborts_and_reports() {
    let started = Arc::new(AtomicUsize::new(0));
    let (tx, rx) = futures::channel::oneshot::channel::<()>();
    let task_started = started.clone();
    block_on(async move {
        let mut rt = Builder::new().build().unwrap();
        rt.start().await.unwrap();
        let ctx = rt.handle();
        ctx.spawn(async move {
            task_started.fetch_add(1, Ordering::SeqCst);
            let _ = rx.await;
            Ok::<(), Error>(())
        })
        .unwrap();
        for _ in 0..1000 {
            if started.load(Ordering::SeqCst) == 1 {
                break;
            }
            tokio::task::yield_now().await;
        }
        assert_eq!(started.load(Ordering::SeqCst), 1);
        std::mem::forget(tx);
        let err = rt
            .stop_with_timeout(Duration::from_millis(50))
            .await
            .unwrap_err();
        match err.kind {
            ErrorKind::Multiple(errors) => {
                assert_eq!(errors.len(), 1);
                assert!(matches!(
                    errors[0].kind,
                    ErrorKind::TaskAborted { task_id } if task_id == TaskId::new(0)
                ));
            }
            other => panic!("unexpected error kind: {other:?}"),
        }
    });
}

#[test]
fn dropping_task_handle_wait_future_unregisters_waiter() {
    block_on(async {
        let mut rt = Builder::new().build().unwrap();
        rt.start().await.unwrap();
        let ctx = rt.handle();
        let task = ctx
            .spawn(async {
                futures::future::pending::<()>().await;
                Ok::<(), Error>(())
            })
            .unwrap();

        for _ in 0..3 {
            let _ =
                tokio::time::timeout(Duration::from_millis(1), task.wait()).await;
        }
        assert!(ctx.pending_task_waiters() <= 1);

        task.abort();
        assert!(matches!(
            task.wait().await,
            TaskOutcome::Aborted(AbortReason::Owner)
        ));
        rt.stop().await.unwrap();
    });
}

#[test]
fn stop_with_timeout_accepts_absurd_budget() {
    block_on(async {
        let mut rt = Builder::new().build().unwrap();
        rt.start().await.unwrap();
        rt.handle().spawn(async { Ok::<(), Error>(()) }).unwrap();
        rt.stop_with_timeout(Duration::MAX)
            .await
            .unwrap();
    });
}

#[test]
fn host_runtime_shutdown_does_not_fabricate_task_failure() {
    let host = tokio::runtime::Builder::new_current_thread()
        .enable_time()
        .build()
        .unwrap();
    let (mut rt, ctx) = host.block_on(async {
        let mut rt = Builder::new().build().unwrap();
        rt.start().await.unwrap();
        let ctx = rt.handle();
        ctx.spawn(async {
            futures::future::pending::<()>().await;
            Ok::<(), Error>(())
        })
        .unwrap();
        tokio::task::yield_now().await;
        tokio::task::yield_now().await;
        assert_eq!(ctx.task_count(), 1);
        (rt, ctx)
    });
    drop(host);

    block_on(async move {
        let stopped = tokio::time::timeout(Duration::from_secs(5), rt.stop())
            .await
            .unwrap();
        assert!(stopped.is_stopped() && stopped.errors().is_empty());
        assert_eq!(ctx.task_count(), 0);
    });
}

#[test]
fn spawn_rejected_after_stop() {
    block_on(async {
        let mut rt = Builder::new().build().unwrap();
        let ctx = rt.handle();
        assert!(!ctx.is_stopping());
        rt.stop().await.unwrap();
        assert!(ctx.is_stopping());
        let err = ctx.spawn(async { Ok::<(), Error>(()) }).unwrap_err();
        assert!(matches!(err.kind, ErrorKind::Stopping));
    });
}

#[test]
fn spawn_without_runtime_context_fails() {
    let rt = Builder::new().build().unwrap();
    let ctx = rt.handle();
    let err = ctx.spawn(async { Ok::<(), Error>(()) }).unwrap_err();
    assert!(matches!(err.kind, ErrorKind::NoTaskRuntime));
}

#[test]
fn finished_tasks_are_pruned_from_registry() {
    block_on(async {
        let rt = Builder::new().build().unwrap();
        let ctx = rt.handle();
        for _ in 0..4 {
            ctx.spawn(async { Ok::<(), Error>(()) }).unwrap();
        }
        for _ in 0..1000 {
            if ctx.task_count() == 0 {
                break;
            }
            tokio::task::yield_now().await;
        }
        assert_eq!(ctx.registered_task_count(), 4);
        ctx.spawn(async { Ok::<(), Error>(()) }).unwrap();
        assert_eq!(ctx.registered_task_count(), 1);
    });
}

#[test]
fn pruning_keeps_unreported_panic_outcome() {
    block_on(async {
        let mut rt = Builder::new().build().unwrap();
        rt.start().await.unwrap();
        let ctx = rt.handle();

        let panicked = ctx.spawn(async { panic!("boom") }).unwrap();
        assert!(matches!(panicked.wait().await, TaskOutcome::Panicked(_)));

        for _ in 0..4 {
            ctx.spawn(async { Ok::<(), Error>(()) }).unwrap();
        }

        let err = rt.stop().await.unwrap_err();
        let ErrorKind::Multiple(errors) = err.kind else {
            panic!("expected aggregated error, got {:?}", err.kind);
        };
        assert_eq!(errors.len(), 1);
        assert!(matches!(
            errors[0].kind,
            ErrorKind::TaskFailed { task_id } if task_id == TaskId::new(0)
        ));
    });
}

#[test]
fn task_handle_wait_returns_ok_on_success() {
    block_on(async {
        let mut rt = Builder::new().build().unwrap();
        rt.start().await.unwrap();
        let task = rt.handle().spawn(async { Ok::<(), Error>(()) }).unwrap();
        assert!(matches!(task.wait().await, TaskOutcome::Completed));
        assert!(task.is_finished());
        rt.stop().await.unwrap();
    });
}

#[test]
fn task_ids_match_failed_event() {
    let observed = Arc::new(Mutex::new(Vec::new()));
    let handler_observed = observed.clone();
    block_on(async move {
        let mut builder = Builder::new();
        builder
            .on::<TaskFailed, _>(FnEventHandler(move |event: &TaskFailed, _: &Context| {
                handler_observed.lock().unwrap().push(event.task_id);
                Ok(EventControl::Continue)
            }))
            .unwrap();
        let mut rt = builder.build().unwrap();
        rt.start().await.unwrap();
        let ctx = rt.handle();

        let ok = ctx.spawn(async { Ok::<(), Error>(()) }).unwrap();
        let failing = ctx
            .spawn(async { Err::<(), Error>(Error::new(Phase::Start, ErrorKind::Other)) })
            .unwrap();
        assert_eq!((ok.id(), failing.id()), (TaskId::new(0), TaskId::new(1)));

        let _ = failing.wait().await;
        assert_eq!(*observed.lock().unwrap(), vec![failing.id()]);
        rt.stop().await.unwrap();
    });
}

#[test]
fn task_failure_emits_task_failed_event() {
    let observed = Arc::new(Mutex::new(Vec::new()));
    let handler_observed = observed.clone();
    block_on(async {
        let mut builder = Builder::new();
        builder
            .on::<TaskFailed, _>(FnEventHandler(move |event: &TaskFailed, _: &Context| {
                handler_observed
                    .lock()
                    .unwrap()
                    .push((event.task_id, matches!(event.error.kind, ErrorKind::Other)));
                Ok(EventControl::Continue)
            }))
            .unwrap();
        let mut rt = builder.build().unwrap();
        rt.start().await.unwrap();
        let scope = rt.handle().scope().unwrap();
        let mut scope_rt = scope.build().unwrap();
        scope_rt
            .handle()
            .spawn(async { Err::<(), Error>(Error::new(Phase::Start, ErrorKind::Other)) })
            .unwrap();
        for _ in 0..1000 {
            if !observed.lock().unwrap().is_empty() {
                break;
            }
            tokio::task::yield_now().await;
        }
        assert_eq!(*observed.lock().unwrap(), vec![(TaskId::new(0), true)]);
        scope_rt.stop().await.unwrap();
        drop(scope_rt);
        rt.stop().await.unwrap();
    });
}

#[test]
fn cancelled_is_level_triggered() {
    block_on(async {
        let mut rt = Builder::new().build().unwrap();
        let ctx = rt.handle();
        assert!(ctx.cancelled().now_or_never().is_none());
        rt.stop().await.unwrap();
        assert!(ctx.cancelled().now_or_never().is_some());
        assert!(!rt.stop_handle().is_stop_requested());
    });
}

#[test]
fn stop_handle_request_wakes_registered_waiter_and_keeps_scope_usable() {
    struct FlagWaker {
        woken: Arc<AtomicBool>,
        request_visible: Arc<AtomicBool>,
        handle: StopHandle,
    }

    impl ArcWake for FlagWaker {
        fn wake_by_ref(arc_self: &Arc<Self>) {
            arc_self.woken.store(true, Ordering::SeqCst);
            arc_self
                .request_visible
                .store(arc_self.handle.is_stop_requested(), Ordering::SeqCst);
        }
    }

    block_on(async {
        let rt = Builder::new().build().unwrap();
        let ctx = rt.handle();
        let handle = rt.stop_handle();

        let woken = Arc::new(AtomicBool::new(false));
        let request_visible = Arc::new(AtomicBool::new(false));
        let waker = futures::task::waker(Arc::new(FlagWaker {
            woken: woken.clone(),
            request_visible: request_visible.clone(),
            handle: handle.clone(),
        }));
        let mut cx = TaskContext::from_waker(&waker);

        let mut waiting = Box::pin(handle.cancelled());
        assert!(waiting.as_mut().poll(&mut cx).is_pending());
        assert!(!woken.load(Ordering::SeqCst));
        assert_eq!(ctx.cancellation_waiters(), 1);

        handle.clone().request_stop();
        handle.request_stop();
        assert!(handle.is_stop_requested());
        assert!(woken.load(Ordering::SeqCst));
        assert!(request_visible.load(Ordering::SeqCst));
        assert!(waiting.as_mut().poll(&mut cx).is_ready());
        assert_eq!(ctx.cancellation_waiters(), 0);

        assert!(!ctx.is_stopping());
        drop(ctx.scope().unwrap());
        drop(waiting);

        drop(rt);
    });
}

#[test]
fn cancelled_future_drop_unregisters_waiter() {
    block_on(async {
        let rt = Builder::new().build().unwrap();
        let ctx = rt.handle();
        let waker = futures::task::noop_waker();
        let mut cx = TaskContext::from_waker(&waker);

        let mut waiting = Box::pin(ctx.cancelled());
        assert!(waiting.as_mut().poll(&mut cx).is_pending());
        assert_eq!(ctx.cancellation_waiters(), 1);

        drop(waiting);
        assert_eq!(ctx.cancellation_waiters(), 0);
        drop(rt);
    });
}

#[test]
fn dropping_one_cancelled_waiter_keeps_the_other_registered() {
    block_on(async {
        let rt = Builder::new().build().unwrap();
        let ctx = rt.handle();
        let waker = futures::task::noop_waker();
        let mut cx = TaskContext::from_waker(&waker);

        let mut first = Box::pin(ctx.cancelled());
        let mut second = Box::pin(ctx.cancelled());
        assert!(first.as_mut().poll(&mut cx).is_pending());
        assert!(second.as_mut().poll(&mut cx).is_pending());
        assert_eq!(ctx.cancellation_waiters(), 2);

        drop(second);
        assert_eq!(ctx.cancellation_waiters(), 1);

        rt.stop_handle().request_stop();
        assert!(first.as_mut().poll(&mut cx).is_ready());
        drop(first);
        drop(rt);
    });
}

#[test]
fn cancelled_wakes_waiter_across_worker_threads() {
    let observed = Arc::new(AtomicUsize::new(0));
    let task_observed = observed.clone();
    let rt = tokio::runtime::Builder::new_multi_thread()
        .worker_threads(2)
        .enable_time()
        .build()
        .unwrap();

    rt.block_on(async move {
        let mut cordis_rt = Builder::new().build().unwrap();
        cordis_rt.start().await.unwrap();
        let ctx = cordis_rt.handle();

        let wait_ctx = ctx.clone();
        ctx.spawn(async move {
            wait_ctx.cancelled().await;
            task_observed.fetch_add(1, Ordering::SeqCst);
            Ok::<(), Error>(())
        })
        .unwrap();

        tokio::time::sleep(Duration::from_millis(5)).await;
        cordis_rt.stop().await.unwrap();
    });

    assert_eq!(observed.load(Ordering::SeqCst), 1);
}

#[test]
fn cancelled_fires_before_task_drain() {
    let observed = Arc::new(AtomicUsize::new(0));
    let task_observed = observed.clone();
    block_on(async move {
        let mut rt = Builder::new().build().unwrap();
        rt.start().await.unwrap();
        let ctx = rt.handle();

        let wait_ctx = ctx.clone();
        ctx.spawn(async move {
            wait_ctx.cancelled().await;
            task_observed.fetch_add(1, Ordering::SeqCst);
            Ok::<(), Error>(())
        })
        .unwrap();

        for _ in 0..1000 {
            if ctx.cancellation_waiters() == 1 {
                break;
            }
            tokio::task::yield_now().await;
        }
        assert_eq!(ctx.cancellation_waiters(), 1);

        tokio::time::timeout(Duration::from_secs(5), rt.stop())
            .await
            .unwrap()
            .unwrap();
    });
    assert_eq!(observed.load(Ordering::SeqCst), 1);
}

#[test]
fn stop_handle_request_wakes_waiters_without_starting_cleanup() {
    let observed = Arc::new(AtomicUsize::new(0));
    let task_observed = observed.clone();
    block_on(async move {
        let mut rt = Builder::new().build().unwrap();
        rt.start().await.unwrap();
        let ctx = rt.handle();
        let handle = rt.stop_handle();
        assert!(!handle.is_stop_requested());

        let wait_ctx = ctx.clone();
        ctx.spawn(async move {
            wait_ctx.cancelled().await;
            task_observed.fetch_add(1, Ordering::SeqCst);
            Ok::<(), Error>(())
        })
        .unwrap();

        let cloned = handle.clone();
        cloned.request_stop();
        handle.request_stop();
        assert!(handle.is_stop_requested());

        assert!(!ctx.is_stopping());
        assert!(ctx.spawn(async { Ok::<(), Error>(()) }).is_ok());

        for _ in 0..1000 {
            if observed.load(Ordering::SeqCst) == 1 {
                break;
            }
            tokio::task::yield_now().await;
        }
        assert_eq!(observed.load(Ordering::SeqCst), 1);

        rt.stop().await.unwrap();
    });
}

#[test]
fn owner_aborted_task_is_not_a_stop_error() {
    block_on(async {
        let mut rt = Builder::new().build().unwrap();
        rt.start().await.unwrap();
        let ctx = rt.handle();

        let task = ctx
            .spawn(async {
                futures::future::pending::<()>().await;
                Ok::<(), Error>(())
            })
            .unwrap();
        assert_eq!(task.id(), TaskId::new(0));
        assert!(!task.is_finished());

        task.abort();
        assert!(matches!(
            task.wait().await,
            TaskOutcome::Aborted(AbortReason::Owner)
        ));
        assert!(task.is_finished());

        rt.stop().await.unwrap();
    });
}

#[test]
fn task_handle_wait_returns_body_error() {
    block_on(async {
        let mut rt = Builder::new().build().unwrap();
        rt.start().await.unwrap();
        let ctx = rt.handle();

        let task = ctx
            .spawn(async { Err::<(), Error>(Error::new(Phase::Start, ErrorKind::Other)) })
            .unwrap();
        let TaskOutcome::Failed(err) = task.wait().await else {
            panic!("expected Failed outcome");
        };
        assert!(matches!(err.kind, ErrorKind::Other));

        rt.stop().await.unwrap();
    });
}

#[test]
fn panicking_task_is_reported_at_drain() {
    block_on(async {
        let mut rt = Builder::new().build().unwrap();
        rt.start().await.unwrap();
        rt.handle().spawn(async { panic!("boom") }).unwrap();

        let err = rt.stop().await.unwrap_err();
        let ErrorKind::Multiple(errors) = err.kind else {
            panic!("expected aggregated error, got {:?}", err.kind);
        };
        assert_eq!(errors.len(), 1);
        assert!(matches!(
            errors[0].kind,
            ErrorKind::TaskFailed { task_id } if task_id == TaskId::new(0)
        ));
    });
}

#[test]
fn abort_after_completion_does_not_mask_panic_outcome() {
    block_on(async {
        let mut rt = Builder::new().build().unwrap();
        rt.start().await.unwrap();
        let ctx = rt.handle();

        let task = ctx.spawn(async { panic!("boom") }).unwrap();
        assert!(matches!(task.wait().await, TaskOutcome::Panicked(_)));

        task.abort();

        let err = rt.stop().await.unwrap_err();
        let ErrorKind::Multiple(errors) = err.kind else {
            panic!("expected aggregated error, got {:?}", err.kind);
        };
        assert_eq!(errors.len(), 1);
        assert!(matches!(
            errors[0].kind,
            ErrorKind::TaskFailed { task_id } if task_id == TaskId::new(0)
        ));
    });
}

#[test]
fn cancelled_is_per_layer_and_fires_on_blocked_stop_commit() {
    block_on(async {
        let mut rt = Builder::new().build().unwrap();
        rt.start().await.unwrap();
        let ctx = rt.handle();

        let scope = ctx.scope().unwrap();
        let mut child_rt = scope.build().unwrap();
        child_rt.start().await.unwrap();
        let child_ctx = child_rt.handle();

        let blocked = rt.stop().await;
        assert!(!blocked.is_stopped());
        assert!(ctx.cancelled().now_or_never().is_some());
        assert!(child_ctx.cancelled().now_or_never().is_none());

        child_rt.stop().await.unwrap();
        assert!(child_ctx.cancelled().now_or_never().is_some());

        drop(child_rt);
        rt.stop().await.unwrap();
        assert!(ctx.cancelled().now_or_never().is_some());
    });
}

#[test]
fn context_id_matches_parent_children_list() {
    block_on(async {
        let mut rt = Builder::new().build().unwrap();
        rt.start().await.unwrap();
        let ctx = rt.handle();
        let root_id = ctx.id();
        assert!(ctx.children().is_empty());

        let scope = ctx.scope().unwrap();
        let child_id = scope.id();
        assert_ne!(child_id, root_id);
        assert_eq!(ctx.children(), vec![child_id]);

        let child_rt = scope.build().unwrap();
        assert_eq!(child_rt.handle().id(), child_id);
        assert_eq!(child_rt.handle().parent().unwrap().id(), root_id);

        drop(child_rt);
        assert!(ctx.children().is_empty());

        rt.stop().await.unwrap();
    });
}

#[test]
fn stopped_future_resolves_after_stop() {
    block_on(async {
        let mut rt = Builder::new().build().unwrap();
        rt.start().await.unwrap();
        let ctx = rt.handle();

        let waiter = ctx.clone();
        let waiting = tokio::spawn(async move { waiter.stopped().await });
        tokio::task::yield_now().await;
        assert!(!ctx.is_stopped());

        rt.stop().await.unwrap();
        assert!(ctx.is_stopped());
        assert_eq!(waiting.await.unwrap(), Settlement::Stopped);
    });
}

#[test]
fn stopped_future_reports_abandoned_when_runtime_dropped() {
    block_on(async {
        let rt = Builder::new().build().unwrap();
        let ctx = rt.handle();
        drop(rt);
        assert_eq!(ctx.stopped().await, Settlement::Abandoned);
        assert!(!ctx.is_stopped());
    });
}

#[test]
fn panic_message_is_captured_in_outcome() {
    block_on(async {
        let mut rt = Builder::new().build().unwrap();
        rt.start().await.unwrap();
        let ctx = rt.handle();

        let task = ctx.spawn(async { panic!("boom") }).unwrap();
        match task.wait().await {
            TaskOutcome::Panicked(info) => {
                assert_eq!(info.message.as_deref(), Some("boom"));
            }
            other => panic!("expected Panicked, got {other:?}"),
        }

        let err = rt.stop().await.unwrap_err();
        assert!(err.is_multiple());
    });
}

#[test]
fn stop_outcome_accessors_and_blocked_fold() {
    block_on(async {
        let mut rt = Builder::new().build().unwrap();
        rt.start().await.unwrap();
        let ctx = rt.handle();
        let child = ctx.scope().unwrap();

        let blocked = rt.stop().await;
        assert!(!blocked.is_stopped());
        assert!(blocked.errors().is_empty());
        let blockers = blocked
            .blockers()
            .expect("blocked outcome carries blockers");
        assert_eq!(blockers.len(), 1);
        assert!(!blockers.is_empty());
        assert!(blockers.ids().contains(&child.id()));
        assert!(blockers.describe().contains("active scopes: 1"));
        assert!(matches!(
            blocked.into_result().unwrap_err().kind,
            ErrorKind::StopBlocked(_)
        ));

        drop(child);
        let stopped = rt.stop().await;
        assert!(stopped.is_stopped());
        assert!(stopped.errors().is_empty());
        assert!(stopped.blockers().is_none());
        assert_eq!(stopped.errors().len(), 0);
        stopped.into_result().unwrap();
    });
}

#[test]
fn task_outcome_into_result_treats_cancellation_as_ok() {
    block_on(async {
        let mut rt = Builder::new().build().unwrap();
        rt.start().await.unwrap();
        let ctx = rt.handle();

        let cancelled = ctx
            .spawn(async {
                futures::future::pending::<()>().await;
                Ok::<(), Error>(())
            })
            .unwrap();
        cancelled.abort();
        let id = cancelled.id();
        assert!(matches!(
            cancelled.wait().await,
            TaskOutcome::Aborted(AbortReason::Owner)
        ));
        cancelled.wait().await.into_result(id).unwrap();

        rt.stop().await.into_result().unwrap();
    });
}

#[test]
fn abandoned_runtime_rejects_new_work_and_wakes_cancelled() {
    block_on(async {
        let rt = Builder::new().build().unwrap();
        let ctx = rt.handle();

        drop(rt);

        assert!(ctx.is_stopping());
        let scope_err = match ctx.scope() {
            Err(err) => err,
            Ok(_) => panic!("abandoned runtime should reject scope()"),
        };
        assert!(matches!(scope_err.kind, ErrorKind::Stopping));
        assert!(ctx.cancelled().now_or_never().is_some());
        assert!(!ctx.is_stopped());
        assert_eq!(ctx.stopped().await, Settlement::Abandoned);
    });
}

#[test]
fn on_closing_runs_at_stop_commit_before_dispose() {
    let order = Arc::new(Mutex::new(Vec::new()));

    let closing_order = order.clone();
    let dispose_order = order.clone();
    let mut builder = Builder::new();
    builder
        .on_closing(move |_: &Context| closing_order.lock().unwrap().push("closing"))
        .unwrap();
    builder
        .on_dispose(SyncHook(move |_: &Context| {
            dispose_order.lock().unwrap().push("dispose");
            Ok(())
        }))
        .unwrap();

    let mut rt = builder.build().unwrap();
    block_on(rt.start()).unwrap();
    assert!(order.lock().unwrap().is_empty());
    block_on(rt.stop()).into_result().unwrap();

    assert_eq!(*order.lock().unwrap(), vec!["closing", "dispose"]);
}

#[test]
fn on_closing_runs_once_even_when_stop_repeats() {
    let calls = Arc::new(AtomicUsize::new(0));
    let counter = calls.clone();
    let mut builder = Builder::new();
    builder
        .on_closing(move |_: &Context| {
            counter.fetch_add(1, Ordering::SeqCst);
        })
        .unwrap();

    let mut rt = builder.build().unwrap();
    block_on(rt.start()).unwrap();
    block_on(rt.stop()).into_result().unwrap();
    block_on(rt.stop()).into_result().unwrap();
    block_on(rt.stop()).into_result().unwrap();

    assert_eq!(calls.load(Ordering::SeqCst), 1);
}

#[test]
fn on_closing_fires_on_blocked_stop_commit() {
    let called = Arc::new(Mutex::new(false));
    let flag = called.clone();

    let mut builder = Builder::new();
    builder
        .on_closing(move |_: &Context| *flag.lock().unwrap() = true)
        .unwrap();
    let mut rt = builder.build().unwrap();
    block_on(rt.start()).unwrap();
    let ctx = rt.handle();

    let scope = ctx.scope().unwrap();
    let mut child_rt = scope.build().unwrap();
    block_on(child_rt.start()).unwrap();

    let blocked = block_on(rt.stop());
    assert!(!blocked.is_stopped());
    assert!(*called.lock().unwrap());

    block_on(child_rt.stop()).into_result().unwrap();
    drop(child_rt);
    block_on(rt.stop()).into_result().unwrap();
}

#[test]
fn on_closing_is_per_layer_and_does_not_cross() {
    let parent_calls = Arc::new(AtomicUsize::new(0));
    let child_calls = Arc::new(AtomicUsize::new(0));
    let parent_counter = parent_calls.clone();
    let child_counter = child_calls.clone();

    let mut builder = Builder::new();
    builder
        .on_closing(move |_: &Context| {
            parent_counter.fetch_add(1, Ordering::SeqCst);
        })
        .unwrap();
    let mut rt = builder.build().unwrap();
    block_on(rt.start()).unwrap();
    let ctx = rt.handle();

    let mut builder = ctx.scope().unwrap();
    builder
        .on_closing(move |_: &Context| {
            child_counter.fetch_add(1, Ordering::SeqCst);
        })
        .unwrap();
    let mut child_rt = builder.build().unwrap();
    block_on(child_rt.start()).unwrap();

    block_on(child_rt.stop()).into_result().unwrap();
    assert_eq!(child_calls.load(Ordering::SeqCst), 1);
    assert_eq!(parent_calls.load(Ordering::SeqCst), 0);
    drop(child_rt);

    block_on(rt.stop()).into_result().unwrap();
    assert_eq!(parent_calls.load(Ordering::SeqCst), 1);
    assert_eq!(child_calls.load(Ordering::SeqCst), 1);
}

#[test]
fn on_closing_panic_is_isolated_and_reported() {
    let reached = Arc::new(Mutex::new(false));
    let flag = reached.clone();

    let mut builder = Builder::new();
    builder
        .on_closing(|_: &Context| panic!("closing hook blew up"))
        .unwrap();
    builder
        .on_closing(move |_: &Context| *flag.lock().unwrap() = true)
        .unwrap();
    let mut rt = builder.build().unwrap();
    block_on(rt.start()).unwrap();

    let outcome = block_on(rt.stop());
    assert!(outcome.is_stopped());
    assert!(*reached.lock().unwrap());
    let errors = outcome.errors();
    assert!(
        errors
            .iter()
            .any(|err| matches!(err.kind, ErrorKind::LifecyclePanicked { .. }))
    );
}

#[test]
fn on_closing_not_run_on_abandon_but_pull_waiters_wake() {
    let called = Arc::new(Mutex::new(false));
    let flag = called.clone();

    let mut builder = Builder::new();
    builder
        .on_closing(move |_: &Context| *flag.lock().unwrap() = true)
        .unwrap();
    let rt = builder.build().unwrap();
    let ctx = rt.handle();

    drop(rt);

    assert!(!*called.lock().unwrap());
    block_on(async {
        assert_eq!(ctx.stopped().await, Settlement::Abandoned);
    });
}

#[test]
fn on_closing_registered_after_commit_runs_immediately() {
    let calls = Arc::new(AtomicUsize::new(0));
    let counter = calls.clone();

    let mut rt = Builder::new().build().unwrap();
    block_on(rt.start()).unwrap();
    let ctx = rt.handle();
    block_on(rt.stop()).into_result().unwrap();

    let _handle = ctx.on_closing(move |_: &Context| {
        counter.fetch_add(1, Ordering::SeqCst);
    });
    assert_eq!(calls.load(Ordering::SeqCst), 1);
}

#[test]
fn close_hook_registered_during_dispatch_runs_exactly_once() {
    let outer = Arc::new(AtomicUsize::new(0));
    let inner = Arc::new(AtomicUsize::new(0));
    let registered = Arc::new(AtomicUsize::new(0));

    let mut builder = Builder::new();
    let outer_c = outer.clone();
    let inner_c = inner.clone();
    let registered_c = registered.clone();
    builder
        .on_closing(move |ctx: &Context| {
            outer_c.fetch_add(1, Ordering::SeqCst);
            if registered_c.swap(1, Ordering::SeqCst) == 0 {
                let inner_flag = inner_c.clone();
                let handle = ctx.on_closing(move |_: &Context| {
                    inner_flag.fetch_add(1, Ordering::SeqCst);
                });
                std::mem::forget(handle);
            }
        })
        .unwrap();

    let mut rt = builder.build().unwrap();
    block_on(rt.start()).unwrap();
    block_on(rt.stop()).into_result().unwrap();

    assert_eq!(outer.load(Ordering::SeqCst), 1);
    assert_eq!(
        inner.load(Ordering::SeqCst),
        1
    );
}

#[test]
fn late_on_closing_panic_during_cleanup_is_reported() {
    struct RegisterLate;

    impl Plugin for RegisterLate {
        fn name(&self) -> &'static str {
            "register-late"
        }

        fn stop<'a>(&'a self, ctx: &'a Context) -> BoxFuture<'a, Result<(), Error>> {
            Box::pin(async move {
                let _handle = ctx.on_closing(|_: &Context| panic!("late closing boom"));
                Ok(())
            })
        }
    }

    let mut builder = Builder::new();
    builder.plugin(RegisterLate).unwrap();
    let mut rt = builder.build().unwrap();
    block_on(rt.start()).unwrap();

    let outcome = block_on(rt.stop());
    assert!(outcome.is_stopped(), "{outcome:?}");
    assert!(
        outcome.errors().iter().any(|err| matches!(
            &err.kind,
            ErrorKind::LifecyclePanicked { .. }
        ) && err.phase == Phase::Close)
    );
}

#[test]
fn close_hook_chain_beyond_round_cap_all_run() {
    fn chain_hook(
        count: Arc<AtomicUsize>,
        remaining: Arc<AtomicUsize>,
    ) -> impl Fn(&Context) + Send + Sync + 'static {
        move |ctx: &Context| {
            count.fetch_add(1, Ordering::SeqCst);
            if remaining.fetch_sub(1, Ordering::SeqCst) > 1 {
                let handle = ctx.on_closing(chain_hook(count.clone(), remaining.clone()));
                std::mem::forget(handle);
            }
        }
    }

    let count = Arc::new(AtomicUsize::new(0));
    let mut builder = Builder::new();
    builder
        .on_closing(chain_hook(count.clone(), Arc::new(AtomicUsize::new(20))))
        .unwrap();

    let mut rt = builder.build().unwrap();
    block_on(rt.start()).unwrap();
    let outcome = block_on(rt.stop());

    assert_eq!(
        count.load(Ordering::SeqCst),
        20
    );
    assert!(
        outcome
            .errors()
            .iter()
            .any(|err| matches!(err.kind, ErrorKind::CloseHookDispatchOverflow))
    );
}

#[test]
fn self_propagating_close_hook_is_bounded_and_reported() {
    struct Propagate(Arc<AtomicUsize>);

    impl CloseHook for Propagate {
        fn call(&self, ctx: &Context) {
            self.0.fetch_add(1, Ordering::SeqCst);
            let _ = ctx.on_closing(Propagate(Arc::clone(&self.0)));
        }
    }

    struct StopThenPropagate(Arc<AtomicUsize>);

    impl Plugin for StopThenPropagate {
        fn name(&self) -> &'static str {
            "stop-then-propagate"
        }

        fn stop<'a>(&'a self, ctx: &'a Context) -> BoxFuture<'a, Result<(), Error>> {
            Box::pin(async move {
                let _ = ctx.on_closing(Propagate(Arc::clone(&self.0)));
                Ok(())
            })
        }
    }

    let count = Arc::new(AtomicUsize::new(0));
    let mut builder = Builder::new();
    builder
        .plugin(StopThenPropagate(Arc::clone(&count)))
        .unwrap();
    let mut rt = builder.build().unwrap();
    block_on(rt.start()).unwrap();
    let outcome = block_on(rt.stop());

    assert_eq!(
        count.load(Ordering::SeqCst),
        MAX_CLOSING_HOOK_ROUNDS as usize
    );
    assert!(
        outcome
            .errors()
            .iter()
            .any(|err| matches!(err.kind, ErrorKind::CloseHookDispatchOverflow))
    );
}

#[test]
fn branching_close_hook_registrations_are_bounded() {
    struct Fanout(Arc<AtomicUsize>);

    impl CloseHook for Fanout {
        fn call(&self, ctx: &Context) {
            self.0.fetch_add(1, Ordering::SeqCst);
            for _ in 0..2 {
                let _ = ctx.on_closing(Fanout(Arc::clone(&self.0)));
            }
        }
    }

    struct StopThenFanout(Arc<AtomicUsize>);

    impl Plugin for StopThenFanout {
        fn name(&self) -> &'static str {
            "stop-then-fanout"
        }

        fn stop<'a>(&'a self, ctx: &'a Context) -> BoxFuture<'a, Result<(), Error>> {
            Box::pin(async move {
                let _ = ctx.on_closing(Fanout(Arc::clone(&self.0)));
                Ok(())
            })
        }
    }

    let count = Arc::new(AtomicUsize::new(0));
    let mut builder = Builder::new();
    builder.plugin(StopThenFanout(Arc::clone(&count))).unwrap();
    let mut rt = builder.build().unwrap();
    block_on(rt.start()).unwrap();
    let outcome = block_on(rt.stop());

    let executed = count.load(Ordering::SeqCst);
    let bound = MAX_CHAINED_CLOSING_HOOKS as usize;
    assert!(executed > 0 && executed <= bound);
    assert!(
        outcome
            .errors()
            .iter()
            .any(|err| matches!(err.kind, ErrorKind::CloseHookDispatchOverflow))
    );
}

#[test]
fn runtime_registration_into_not_started_layer_is_budgeted() {
    let mut root = Builder::new().build().unwrap();
    block_on(root.start()).unwrap();
    let root_ctx = root.handle();

    let mut child = root_ctx.scope().unwrap().build().unwrap();
    block_on(child.start()).unwrap();
    let child_ctx = child.handle();

    let budget = MAX_CHAINED_CLOSING_HOOKS as usize;
    let child_for_reg = child_ctx.clone();
    let _root_hook = root_ctx.on_closing(move |_ctx: &Context| {
        let mut kept = Vec::new();
        for _ in 0..budget + 100 {
            kept.push(child_for_reg.on_closing(|_: &Context| {}));
        }
        drop(kept);
    });

    let blocked = block_on(root.stop());
    assert!(blocked.blockers().is_some());

    let outcome = block_on(child.stop());
    assert!(
        outcome
            .errors()
            .iter()
            .any(|err| matches!(err.kind, ErrorKind::CloseHookDispatchOverflow))
    );

    block_on(root.stop()).into_result().unwrap();
}

#[test]
fn runtime_registration_churn_outside_dispatch_does_not_exhaust_budget() {
    let mut rt = Builder::new().build().unwrap();
    block_on(rt.start()).unwrap();
    let ctx = rt.handle();

    let budget = MAX_CHAINED_CLOSING_HOOKS as usize;
    for _ in 0..budget + 1000 {
        drop(ctx.on_closing(|_: &Context| {}));
    }

    let ran = Arc::new(AtomicUsize::new(0));
    let ran_c = Arc::clone(&ran);
    let _handle = ctx.on_closing(move |_: &Context| {
        ran_c.fetch_add(1, Ordering::SeqCst);
    });

    let outcome = block_on(rt.stop());
    assert_eq!(
        ran.load(Ordering::SeqCst),
        1
    );
    assert!(
        !outcome
            .errors()
            .iter()
            .any(|err| matches!(err.kind, ErrorKind::CloseHookDispatchOverflow))
    );
}

#[test]
fn close_handle_drop_unregisters_runtime_hook() {
    let calls = Arc::new(AtomicUsize::new(0));
    let counter = calls.clone();

    let mut rt = Builder::new().build().unwrap();
    block_on(rt.start()).unwrap();
    let ctx = rt.handle();

    let handle = ctx.on_closing(move |_: &Context| {
        counter.fetch_add(1, Ordering::SeqCst);
    });
    drop(handle);

    block_on(rt.stop()).into_result().unwrap();
    assert_eq!(calls.load(Ordering::SeqCst), 0);
}

#[test]
fn on_closing_can_read_services_that_are_still_alive() {
    let seen = Arc::new(Mutex::new(None));
    let slot = seen.clone();

    let mut builder = Builder::new();
    builder
        .provide(Logger {
            name: "closing".to_string(),
        })
        .unwrap();
    builder
        .on_closing(move |ctx: &Context| {
            let logger = ctx.require::<Logger>().expect("service still present");
            *slot.lock().unwrap() = Some(logger.name.clone());
        })
        .unwrap();

    let mut rt = builder.build().unwrap();
    block_on(rt.start()).unwrap();
    block_on(rt.stop()).into_result().unwrap();

    assert_eq!(seen.lock().unwrap().as_deref(), Some("closing"));
}

#[derive(Debug, Clone, Copy)]
struct AuditEvent(u32);

#[test]
fn notify_returns_without_waiting_for_slow_handler() {
    let gate = Arc::new(tokio::sync::Semaphore::new(0));
    let entered = Arc::new(AtomicUsize::new(0));

    let handler_gate = gate.clone();
    let handler_entered = entered.clone();
    let mut builder = Builder::new();
    builder
        .on::<AuditEvent, _>(AsyncFnEventHandler(move |_: &AuditEvent, _: Context| {
            let gate = handler_gate.clone();
            let entered = handler_entered.clone();
            async move {
                entered.fetch_add(1, Ordering::SeqCst);
                let _permit = gate.acquire().await.expect("gate open");
                Ok(EventControl::Continue)
            }
        }))
        .unwrap();

    block_on(async move {
        let mut rt = builder.build().unwrap();
        rt.start().await.unwrap();
        let ctx = rt.handle();

        let receipt = ctx.notify(AuditEvent(1)).await;
        assert_eq!(receipt.delivered, 1);
        assert_eq!(
            entered.load(Ordering::SeqCst),
            0
        );

        tokio::time::sleep(Duration::from_millis(10)).await;
        assert_eq!(entered.load(Ordering::SeqCst), 1);

        gate.add_permits(1);
        rt.stop().await.into_result().unwrap();
    });
}

#[test]
fn notify_slow_subscriber_does_not_block_another() {
    let gate = Arc::new(tokio::sync::Semaphore::new(0));
    let slow_seen = Arc::new(AtomicUsize::new(0));
    let fast_seen = Arc::new(Mutex::new(Vec::new()));

    let handler_gate = gate.clone();
    let handler_slow = slow_seen.clone();
    let handler_fast = fast_seen.clone();

    let mut builder = Builder::new();
    builder
        .on::<AuditEvent, _>(AsyncFnEventHandler(move |_: &AuditEvent, _: Context| {
            let gate = handler_gate.clone();
            let count = handler_slow.clone();
            async move {
                count.fetch_add(1, Ordering::SeqCst);
                let _permit = gate.acquire().await.expect("gate open");
                Ok(EventControl::Continue)
            }
        }))
        .unwrap();
    builder
        .on::<AuditEvent, _>(AsyncFnEventHandler(
            move |event: &AuditEvent, _: Context| {
                let seen = handler_fast.clone();
                let value = event.0;
                async move {
                    seen.lock().unwrap().push(value);
                    Ok(EventControl::Continue)
                }
            },
        ))
        .unwrap();

    block_on(async move {
        let mut rt = builder.build().unwrap();
        rt.start().await.unwrap();
        let ctx = rt.handle();

        let _ = ctx.notify(AuditEvent(1)).await;
        let _ = ctx.notify(AuditEvent(2)).await;
        let _ = ctx.notify(AuditEvent(3)).await;
        tokio::time::sleep(Duration::from_millis(20)).await;

        assert_eq!(
            *fast_seen.lock().unwrap(),
            vec![1, 2, 3]
        );
        assert_eq!(
            slow_seen.load(Ordering::SeqCst),
            1
        );

        gate.add_permits(100);
        rt.stop().await.into_result().unwrap();
        assert_eq!(slow_seen.load(Ordering::SeqCst), 3);
    });
}

#[test]
fn notify_counts_dropped_per_subscriber_when_lane_full() {
    let gate = Arc::new(tokio::sync::Semaphore::new(0));
    let handler_gate = gate.clone();

    let mut builder = Builder::new();
    builder
        .on::<AuditEvent, _>(AsyncFnEventHandler(move |_: &AuditEvent, _: Context| {
            let gate = handler_gate.clone();
            async move {
                let _permit = gate.acquire().await.expect("gate open");
                Ok(EventControl::Continue)
            }
        }))
        .unwrap();

    block_on(async move {
        let mut rt = builder.build().unwrap();
        rt.start().await.unwrap();
        let ctx = rt.handle();

        let capacity = DEFAULT_LANE_CAPACITY;
        let mut dropped = 0;
        for i in 0..capacity + 10 {
            dropped += ctx.notify(AuditEvent(i as u32)).await.dropped;
        }
        assert!(dropped >= 10);

        let stats = ctx.notify_stats();
        assert_eq!(stats.len(), 1);
        assert_eq!(stats[0].dropped as usize, dropped);

        gate.add_permits(capacity + 10);
        rt.stop().await.into_result().unwrap();
    });
}

#[test]
fn notify_drains_pending_events_on_stop() {
    let seen = Arc::new(Mutex::new(Vec::new()));
    let handler_seen = seen.clone();

    let mut builder = Builder::new();
    builder
        .on::<AuditEvent, _>(AsyncFnEventHandler(
            move |event: &AuditEvent, _: Context| {
                let seen = handler_seen.clone();
                let value = event.0;
                async move {
                    seen.lock().unwrap().push(value);
                    Ok(EventControl::Continue)
                }
            },
        ))
        .unwrap();

    block_on(async move {
        let mut rt = builder.build().unwrap();
        rt.start().await.unwrap();
        let ctx = rt.handle();

        for i in 0..5 {
            let _ = ctx.notify(AuditEvent(i)).await;
        }
        rt.stop().await.into_result().unwrap();

        assert_eq!(*seen.lock().unwrap(), vec![0, 1, 2, 3, 4]);
    });
}

#[test]
fn notify_after_stop_is_rejected_not_dropped() {
    let mut rt = Builder::new().build().unwrap();
    block_on(async move {
        rt.start().await.unwrap();
        let ctx = rt.handle();
        rt.stop().await.into_result().unwrap();

        let receipt = ctx.notify(AuditEvent(1)).await;
        assert_eq!(receipt.rejected, 1);
        assert_eq!(receipt.delivered, 0);
        assert_eq!(receipt.dropped, 0);
    });
}

#[test]
fn what_comes_after_a_stop_is_counted_for_each_subscriber() {
    let mut builder = Builder::new();
    builder
        .on::<AuditEvent, _>(AsyncFnEventHandler(move |_: &AuditEvent, _: Context| async move {
            Ok(EventControl::Continue)
        }))
        .unwrap();

    block_on(async move {
        let mut rt = builder.build().unwrap();
        rt.start().await.unwrap();
        let ctx = rt.handle();
        rt.stop().await.into_result().unwrap();
        assert_eq!(ctx.notify_stats()[0].rejected, 0);

        let receipt = ctx.notify(AuditEvent(1)).await;
        assert_eq!((receipt.delivered, receipt.dropped, receipt.rejected), (0, 0, 1));
        let stats = ctx.notify_stats();
        assert_eq!(stats.len(), 1);
        assert_eq!((stats[0].dropped, stats[0].rejected), (0, 1));
    });
}

#[test]
fn a_plugin_is_asked_for_its_priority_when_the_scope_is_built() {
    struct Ranked(&'static str, Arc<std::sync::atomic::AtomicI32>, Arc<Mutex<Vec<&'static str>>>);

    impl Plugin for Ranked {
        fn name(&self) -> &'static str {
            self.0
        }

        fn priority(&self) -> i32 {
            self.1.load(Ordering::SeqCst)
        }

        fn start<'a>(&'a self, _ctx: &'a Context) -> BoxFuture<'a, Result<(), Error>> {
            Box::pin(async move {
                self.2.lock().unwrap().push(self.0);
                Ok(())
            })
        }
    }

    let started = Arc::new(Mutex::new(Vec::new()));
    let rank = Arc::new(std::sync::atomic::AtomicI32::new(0));
    let fixed = Arc::new(std::sync::atomic::AtomicI32::new(5));
    let mut builder = Builder::new();
    builder.plugin(Ranked("fixed", fixed, started.clone())).unwrap();
    builder.plugin(Ranked("moved", rank.clone(), started.clone())).unwrap();
    rank.store(9, Ordering::SeqCst);

    let mut rt = builder.build().unwrap();
    block_on(rt.start_serial()).unwrap();
    block_on(rt.stop()).unwrap();
    assert_eq!(*started.lock().unwrap(), vec!["moved", "fixed"]);
}

#[test]
fn plugin_apply_panic_rolls_back_registration() {
    struct BoomService;
    struct Marker;

    struct Boom;

    impl Plugin for Boom {
        fn name(&self) -> &'static str {
            "boom"
        }

        fn apply(&self, cfg: &mut Configurator<'_>) -> Result<(), Error> {
            cfg.provide(BoomService)?;
            panic!("apply exploded");
        }
    }

    struct BoomAgain;

    impl Plugin for BoomAgain {
        fn name(&self) -> &'static str {
            "boom"
        }
    }

    block_on(async {
        let mut builder = Builder::new();
        builder.provide(Marker).unwrap();

        let (mut builder, panicked) = worked_on(builder, |builder| {
            let _ = builder.plugin(Boom);
        })
        .await;
        assert!(panicked);

        assert!(!builder.contains::<BoomService>());
        assert!(!builder.has_plugin("boom"));
        builder.plugin(BoomAgain).unwrap();
        assert!(builder.contains::<Marker>());

        let mut rt = builder.build().unwrap();
        rt.start().await.unwrap();
        rt.stop().await.unwrap();
    });
}

#[test]
fn plugin_with_config_panic_rolls_back_config() {
    struct Marker;
    struct Cfg;

    struct BoomWithCfg;

    impl Plugin for BoomWithCfg {
        fn name(&self) -> &'static str {
            "boom-with-cfg"
        }

        fn apply(&self, _cfg: &mut Configurator<'_>) -> Result<(), Error> {
            panic!("config plugin exploded");
        }
    }

    block_on(async {
        let mut builder = Builder::new();
        builder.provide(Marker).unwrap();

        let (builder, panicked) = worked_on(builder, |builder| {
            let _ = builder.plugin_with_config(BoomWithCfg, Cfg);
        })
        .await;
        assert!(panicked);

        assert!(!builder.contains::<Cfg>());
        assert!(!builder.has_plugin("boom-with-cfg"));
        assert!(builder.contains::<Marker>());

        let mut rt = builder.build().unwrap();
        rt.start().await.unwrap();
        rt.stop().await.unwrap();
    });
}

// ---------------------------------------------------------------------------
// The registry
// ---------------------------------------------------------------------------

struct FailStart;

impl Plugin for FailStart {
    fn name(&self) -> &'static str {
        "fail-start"
    }

    fn start<'a>(&'a self, _ctx: &'a Context) -> BoxFuture<'a, Result<(), Error>> {
        Box::pin(async move {
            Err(Error::new(Phase::Start, ErrorKind::Other))
        })
    }
}

struct HangingTask;

impl Plugin for HangingTask {
    fn name(&self) -> &'static str {
        "hanging-task"
    }

    fn start<'a>(&'a self, ctx: &'a Context) -> BoxFuture<'a, Result<(), Error>> {
        Box::pin(async move {
            ctx.spawn(async {
                tokio::time::sleep(Duration::from_secs(3600)).await;
                Ok(())
            })?;
            Ok(())
        })
    }
}

async fn fixture() -> (Runtime, ScopeRegistry) {
    let mut root = Builder::new().build().unwrap();
    root.start().await.unwrap();
    let registry = ScopeRegistry::new();
    registry.bind(&root.handle()).unwrap();
    (root, registry)
}

#[test]
fn open_then_close_is_clean() {
    block_on(async {
        let (mut root, registry) = fixture().await;
        let ctx = registry.open("s1", |_| Ok(())).await.unwrap();
        assert!(ctx.id() == registry.get("s1").unwrap().id());
        assert_eq!(root.handle().children().len(), 1);

        let report = registry.close("s1", Duration::from_secs(1)).await.unwrap();
        assert_eq!(report.status, CloseStatus::Clean);
        assert!(report.is_clean());
        assert!(root.handle().children().is_empty());

        root.stop().await.into_result().unwrap();
    });
}

#[test]
fn duplicate_open_is_rejected_without_leaking_a_lease() {
    block_on(async {
        let (mut root, registry) = fixture().await;
        registry.open("s1", |_| Ok(())).await.unwrap();

        let err = match registry.open("s1", |_| Ok(())).await {
            Err(err) => err,
            Ok(_) => panic!("duplicate name must be rejected"),
        };
        assert!(matches!(err, RegistryError::AlreadyExists(ref n) if n == "s1"));
        assert_eq!(root.handle().children().len(), 1);

        registry.close_all(Duration::from_secs(1)).await;
        root.stop().await.into_result().unwrap();
    });
}

#[test]
fn concurrent_open_has_exactly_one_winner() {
    block_on(async {
        let (mut root, registry) = fixture().await;

        let (a, b) = futures::future::join(
            registry.open("s1", |_| Ok(())),
            registry.open("s1", |_| Ok(())),
        ).await;
        assert!(a.is_ok() ^ b.is_ok());
        let loser = if a.is_ok() { b } else { a };
        assert!(matches!(loser, Err(RegistryError::AlreadyExists(_))));

        registry.close_all(Duration::from_secs(1)).await;
        root.stop().await.into_result().unwrap();
    });
}

#[test]
fn failed_start_releases_the_name_for_retry() {
    block_on(async {
        let (mut root, registry) = fixture().await;

        let err = match registry
            .open("s1", |builder| builder.plugin(FailStart))
            .await
        {
            Err(err) => err,
            Ok(_) => panic!("failing plugin start must surface as an error"),
        };
        assert!(matches!(err, RegistryError::Scope(_)));
        assert!(registry.names().is_empty());
        assert!(root.handle().children().is_empty());

        registry.open("s1", |_| Ok(())).await.unwrap();
        registry.close_all(Duration::from_secs(1)).await;
        root.stop().await.into_result().unwrap();
    });
}

#[test]
fn close_all_lets_parent_stop() {
    block_on(async {
        let (mut root, registry) = fixture().await;
        for i in 0..3 {
            registry.open(format!("s{i}"), |_| Ok(())).await.unwrap();
        }
        assert_eq!(root.handle().children().len(), 3);

        let report = registry.close_all(Duration::from_secs(1)).await;
        assert_eq!(report.closed.len(), 3);
        assert!(report.is_clean(), "{report:?}");

        let outcome = root.stop().await;
        assert!(outcome.is_stopped(), "{outcome:?}");
    });
}

#[test]
fn open_after_shutdown_is_rejected() {
    block_on(async {
        let (mut root, registry) = fixture().await;
        registry.close_all(Duration::from_secs(1)).await;
        assert!(registry.is_shutting_down());

        assert!(matches!(
            registry.open("late", |_| Ok(())).await,
            Err(RegistryError::ShuttingDown)
        ));
        root.stop().await.into_result().unwrap();
    });
}

#[test]
fn close_reports_aborted_when_a_task_exceeds_budget() {
    block_on(async {
        let (mut root, registry) = fixture().await;
        registry
            .open("hangs", |builder| builder.plugin(HangingTask))
            .await
            .unwrap();

        let report = registry
            .close("hangs", Duration::from_millis(20))
            .await
            .unwrap();
        assert_eq!(report.status, CloseStatus::Aborted, "{report:?}");
        assert_eq!(report.aborted_tasks().len(), 1);

        root.stop().await.into_result().unwrap();
    });
}

#[test]
fn close_child_with_active_grandchild_reports_blocked() {
    block_on(async {
        let (mut root, registry) = fixture().await;
        let child_ctx = registry.open("child", |_| Ok(())).await.unwrap();
        let grandchild = child_ctx.scope().unwrap();

        let report = registry
            .close("child", Duration::from_secs(1))
            .await
            .unwrap();
        assert_eq!(report.status, CloseStatus::Blocked, "{report:?}");
        assert!(registry.names().iter().any(|n| n == "child"));
        assert!(registry.get("child").is_none());
        assert_eq!(root.handle().children().len(), 1);

        drop(grandchild);
        let report = registry
            .close("child", Duration::from_secs(1))
            .await
            .unwrap();
        assert_eq!(report.status, CloseStatus::Clean, "{report:?}");
        assert!(root.handle().children().is_empty());

        root.stop().await.into_result().unwrap();
    });
}

#[test]
fn open_during_close_all_cannot_publish() {
    struct SlowStart {
        entered: Arc<tokio::sync::Notify>,
        release: Arc<tokio::sync::Notify>,
    }

    impl Plugin for SlowStart {
        fn name(&self) -> &'static str {
            "slow-start"
        }

        fn start<'a>(&'a self, _ctx: &'a Context) -> BoxFuture<'a, Result<(), Error>> {
            Box::pin(async move {
                self.entered.notify_one();
                self.release.notified().await;
                Ok(())
            })
        }
    }

    block_on(async {
        let (mut root, registry) = fixture().await;
        let entered = Arc::new(tokio::sync::Notify::new());
        let release = Arc::new(tokio::sync::Notify::new());

        let (opened, _closed) = futures::future::join(
            registry.open("late", {
                let entered = entered.clone();
                let release = release.clone();
                move |builder: &mut Builder| builder.plugin(SlowStart { entered, release })
            }),
            async {
                entered.notified().await;
                let report = registry.close_all(Duration::from_secs(1)).await;
                release.notify_one();
                report
            }
        ).await;

        assert!(matches!(opened, Err(RegistryError::ShuttingDown)));
        assert!(registry.get("late").is_none());
        assert!(root.handle().children().is_empty());
        root.stop().await.into_result().unwrap();
    });
}

#[test]
fn close_cancellation_keeps_scope_recoverable() {
    struct HangingStop {
        entered: Arc<tokio::sync::Notify>,
        release: Arc<tokio::sync::Notify>,
    }

    impl Plugin for HangingStop {
        fn name(&self) -> &'static str {
            "hanging-stop"
        }

        fn stop<'a>(&'a self, _ctx: &'a Context) -> BoxFuture<'a, Result<(), Error>> {
            Box::pin(async move {
                self.entered.notify_one();
                self.release.notified().await;
                Ok(())
            })
        }
    }

    block_on(async {
        let (mut root, registry) = fixture().await;
        let entered = Arc::new(tokio::sync::Notify::new());
        let release = Arc::new(tokio::sync::Notify::new());
        registry
            .open("s", {
                let entered = entered.clone();
                let release = release.clone();
                move |builder: &mut Builder| builder.plugin(HangingStop { entered, release })
            })
            .await
            .unwrap();

        let cancelled = tokio::time::timeout(
            Duration::from_millis(50),
            registry.close("s", Duration::from_secs(3600)),
        )
        .await;
        assert!(cancelled.is_err());
        assert!(entered.notified().now_or_never().is_some());

        release.notify_one();
        let report = registry.close("s", Duration::from_secs(1)).await.unwrap();
        assert_eq!(report.status, CloseStatus::Clean, "{report:?}");
        assert!(root.handle().children().is_empty());

        root.stop().await.into_result().unwrap();
    });
}

#[test]
fn failed_start_with_leaked_child_does_not_destroy_owner() {
    struct LeakyStart {
        child: Arc<Mutex<Option<Builder>>>,
    }

    impl Plugin for LeakyStart {
        fn name(&self) -> &'static str {
            "leaky-start"
        }

        fn start<'a>(&'a self, ctx: &'a Context) -> BoxFuture<'a, Result<(), Error>> {
            Box::pin(async move {
                *self.child.lock().unwrap() = Some(ctx.scope().unwrap());
                Err(Error::new(Phase::Start, ErrorKind::Other))
            })
        }
    }

    block_on(async {
        let (mut root, registry) = fixture().await;
        let child = Arc::new(Mutex::new(None));
        let open_child = child.clone();

        let err = match registry
            .open("leaky", move |builder: &mut Builder| {
                builder.plugin(LeakyStart { child: open_child })
            })
            .await
        {
            Err(err) => err,
            Ok(_) => panic!("unexpected outcome"),
        };
        assert!(matches!(err, RegistryError::Scope(_)), "{err:?}");
        assert!(registry.names().iter().any(|n| n == "leaky"));
        assert!(registry.get("leaky").is_none());

        drop(child.lock().unwrap().take());
        let report = registry
            .close("leaky", Duration::from_secs(1))
            .await
            .unwrap();
        assert_eq!(report.status, CloseStatus::Clean, "{report:?}");
        assert!(root.handle().children().is_empty());

        root.stop().await.into_result().unwrap();
    });
}

#[test]
fn failed_start_cancellation_keeps_owner_recoverable() {
    struct FailThenHang {
        entered: Arc<tokio::sync::Notify>,
        release: Arc<tokio::sync::Notify>,
    }

    impl Plugin for FailThenHang {
        fn name(&self) -> &'static str {
            "fail-then-hang"
        }

        fn start<'a>(&'a self, _ctx: &'a Context) -> BoxFuture<'a, Result<(), Error>> {
            Box::pin(async move {
                Err(Error::new(Phase::Start, ErrorKind::Other))
            })
        }

        fn stop<'a>(&'a self, _ctx: &'a Context) -> BoxFuture<'a, Result<(), Error>> {
            Box::pin(async move {
                self.entered.notify_one();
                self.release.notified().await;
                Ok(())
            })
        }
    }

    block_on(async {
        let (mut root, registry) = fixture().await;
        let entered = Arc::new(tokio::sync::Notify::new());
        let release = Arc::new(tokio::sync::Notify::new());

        let cancelled = tokio::time::timeout(
            Duration::from_millis(50),
            registry.open("s", {
                let entered = entered.clone();
                let release = release.clone();
                move |builder: &mut Builder| builder.plugin(FailThenHang { entered, release })
            }),
        )
        .await;
        assert!(cancelled.is_err());
        assert!(entered.notified().now_or_never().is_some());

        assert!(registry.names().iter().any(|n| n == "s"));
        assert!(registry.get("s").is_none());

        release.notify_one();
        let report = registry.close("s", Duration::from_secs(1)).await.unwrap();
        assert_eq!(report.status, CloseStatus::Clean, "{report:?}");
        assert!(root.handle().children().is_empty());

        root.stop().await.into_result().unwrap();
    });
}

#[test]
fn registry_shared_by_reference_across_tasks() {
    block_on(async {
        let (mut root, registry) = fixture().await;
        let counter = Arc::new(AtomicUsize::new(0));
        let tasks: Vec<_> = (0..4)
            .map(|i| {
                let counter = counter.clone();
                let registry = &registry;
                async move {
                    registry.open(format!("s{i}"), |_| Ok(())).await.unwrap();
                    counter.fetch_add(1, Ordering::SeqCst);
                }
            })
            .collect();
        futures::future::join_all(tasks).await;
        assert_eq!(counter.load(Ordering::SeqCst), 4);

        registry.close_all(Duration::from_secs(1)).await;
        root.stop().await.into_result().unwrap();
    });
}
