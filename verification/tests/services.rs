//! The services of a scope, and how they are assembled and looked up.

use std::sync::Arc;

use cordis::builder::Builder;
use cordis::context::{Context, Host};
use cordis::error::{Error, ErrorKind, Phase};
use cordis::id::{ScopeId, ScopeIds};
use cordis::plugin::{Dependency, PluginDependency, PluginScope, ServiceKey};
use cordis::schedule::PluginInfo;
use cordis::scope::ScopeCore;
use cordis::service::{DynamicValue, Found, FoundMut, ServiceRegistry, TypedFactory};

struct Numbers;

impl Host for Numbers {
    type Value = u32;
    type Factory = &'static str;
    type Plugin = &'static str;
    type Hook = &'static str;
    type CloseHook = &'static str;
    type Handler = &'static str;
    type Event = u32;
    type Cause = u32;
    type Deadline = u64;

    fn priority(_plugin: &Self::Plugin) -> i32 {
        0
    }
}

const A: ServiceKey = ServiceKey { id: 1, name: "A" };
const B: ServiceKey = ServiceKey { id: 2, name: "B" };

fn builder() -> Builder<Numbers> {
    Builder::new(ScopeId::new(0))
}

fn info(name: &'static str) -> PluginInfo {
    PluginInfo { name, deps: Vec::new(), plugin_deps: Vec::new() }
}

fn other() -> Error<u32> {
    Error::new(Phase::Event, ErrorKind::Other)
}

/// A built scope, and a child of it that is being assembled.
fn nested(outer: Builder<Numbers>) -> (Context<Numbers>, Builder<Numbers>) {
    let ctx = outer.build().ok().unwrap().runtime.handle();
    let mut core: ScopeCore<u32> = ScopeCore::new();
    let mut ids = ScopeIds::new();
    ids.allocate();
    let child = Builder::scope(&ctx, &mut core, &mut ids).ok().unwrap();
    assert_eq!(core.children(), vec![child.id()]);
    (ctx, child)
}

fn found(value: Option<Found<'_, u32, &'static str>>) -> Option<u32> {
    match value {
        Some(Found::Value(value)) => Some(*value),
        Some(Found::Factory(_)) => panic!("a factory"),
        None => None,
    }
}

#[test]
fn a_slot_is_taken_once() {
    let mut services: ServiceRegistry<u32, &'static str> = ServiceRegistry::new();
    services.provide::<u32>(A, 5).unwrap();
    let error = services.provide_factory::<u32>(A, "make").unwrap_err();
    assert_eq!(error.to_text(), "Build: service already registered: A");
    services.provide_factory::<u32>(B, "make").unwrap();
    let error = services.provide::<u32>(B, 6).unwrap_err();
    assert_eq!(error.to_text(), "Build: service already registered: B");
    assert!(matches!(services.lookup(1), Some(Found::Value(&5))));
    assert!(matches!(services.lookup(2), Some(Found::Factory(&"make"))));
    assert!(services.lookup(3).is_none());
    if let Some(FoundMut::Value(value)) = services.lookup_mut(1) {
        *value = 7;
    }
    assert_eq!(services.remove::<u32>(A).unwrap(), 7);
    let error = services.remove::<u32>(A).unwrap_err();
    assert_eq!(error.to_text(), "Build: service not found: A");
}

#[test]
fn a_collection_stands_beside_the_slot() {
    let mut services: ServiceRegistry<u32, &'static str> = ServiceRegistry::new();
    services.provide_collect::<u32>(A, 1).unwrap();
    services.provide_collect::<u32>(A, 2).unwrap();
    assert_eq!(services.all(1), vec![&1, &2]);
    assert!(services.contains(1));
    assert!(!services.contains_type(1));
    services.pop_collection(1);
    assert_eq!(services.all(1), vec![&1]);
    services.pop_collection(1);
    assert!(!services.contains(1));
}

#[test]
fn a_factory_that_fails_is_asked_again() {
    let mut broken = TypedFactory::new(|| Err::<u32, Error<u32>>(other()));
    assert!(broken.get().is_err());
    assert!(broken.get().is_err());
    let mut working = TypedFactory::new(|| Ok::<u32, Error<u32>>(3));
    assert_eq!(*working.get().unwrap(), 3);
    *working.get_mut().unwrap() = 4;
    assert_eq!(*working.get().unwrap(), 4);
}

#[test]
fn a_registry_runs_its_factories_where_it_must() {
    let make = || Ok::<u32, Error<u32>>(8);
    let mut services: ServiceRegistry<u32, TypedFactory<u32, _>> = ServiceRegistry::new();
    services.provide::<u32>(A, 1).unwrap();
    services.provide_factory::<u32>(B, TypedFactory::new(make)).unwrap();
    assert_eq!(*services.get(A).unwrap(), 1);
    assert_eq!(*services.get(B).unwrap(), 8);
    *services.get_mut(B).unwrap() = 9;
    assert_eq!(services.try_get(B).unwrap(), Some(&9));
    assert_eq!(services.try_get(ServiceKey::new(3, "C")).unwrap(), None);
    assert!(services.get(ServiceKey::new(3, "C")).is_err());
}

#[test]
fn a_changeable_value_can_be_set_and_updated() {
    let mut value = DynamicValue::new(1);
    assert_eq!(*value.read(), 1);
    value.set(2);
    value.update(|v| *v += 10);
    *value.write() *= 2;
    assert_eq!(*value.read(), 24);
}

#[test]
fn an_inner_service_hides_the_outer_one() {
    let mut outer = builder();
    outer.provide(A, 1).unwrap();
    outer.provide(B, 2).unwrap();
    outer.provide_collect(A, 10).unwrap();
    let (ctx, mut child) = nested(outer);
    assert_eq!(child.depth(), 1);
    assert!(!child.is_root());
    child.provide(A, 3).unwrap();
    child.provide_collect(A, 30).unwrap();

    assert_eq!(found(child.try_require(A)), Some(3));
    assert_eq!(found(child.try_require(B)), Some(2));
    assert_eq!(child.require_all(A), vec![&30]);
    assert_eq!(child.require_all_recursive(A), vec![&30, &10]);
    assert!(child.require_mut(B).is_err());

    assert_eq!(found(ctx.try_require(A)), Some(1));
    let inner = child.build().ok().unwrap().runtime.handle();
    assert_eq!(found(inner.try_require(A)), Some(3));
    assert_eq!(inner.require_all_recursive(A), vec![&30, &10]);
    assert!(inner.parent().is_some());
    assert!(ctx.parent().is_none());
    let error = inner.require(ServiceKey::new(9, "Z")).err().unwrap();
    assert_eq!(error.to_text(), "Require: service not found: Z");
}

#[test]
fn a_rollback_restores_the_checkpoint() {
    let mut builder = builder();
    builder.provide(A, 1).unwrap();
    let checkpoint = builder.checkpoint();
    builder.provide(B, 2).unwrap();
    builder.provide_collect(A, 3).unwrap();
    builder.on_ready("ready").unwrap();
    builder.on_dispose("dispose").unwrap();
    builder.on_closing(Arc::new("closing")).unwrap();
    let first = builder.on(5, Arc::new("handler")).unwrap();
    builder.off(first).unwrap();
    builder.plugin("p", info("p"), PluginScope::Any, |_| Ok(())).unwrap();
    builder.rollback(checkpoint);

    assert!(builder.contains(A));
    assert!(!builder.contains(B));
    assert!(builder.require_all(A).is_empty());
    assert!(!builder.has_plugin("p"));
    assert!(builder.ready.is_empty() && builder.dispose.is_empty());
    assert!(builder.closing.hooks.is_empty());
    assert!(builder.handlers.is_empty());
    assert_eq!(builder.on(5, Arc::new("handler")).unwrap().handler_id, first.handler_id);
}

#[test]
fn a_removed_handler_comes_back_to_its_place() {
    let mut builder = builder();
    builder.on(5, Arc::new("first")).unwrap();
    let second = builder.on(5, Arc::new("second")).unwrap();
    builder.on(5, Arc::new("third")).unwrap();
    let checkpoint = builder.checkpoint();
    builder.off(second).unwrap();
    let error = builder.off(second).unwrap_err();
    assert!(matches!(error.kind, ErrorKind::SubscriptionNotFound));
    assert_eq!(builder.handlers.len(), 2);
    builder.rollback(checkpoint);
    let names: Vec<&str> = builder.handlers.iter().map(|entry| *entry.handler).collect();
    assert_eq!(names, vec!["first", "second", "third"]);
}

#[test]
fn a_plugin_that_fails_leaves_nothing_behind() {
    let mut builder = builder();
    let error = builder
        .plugin("outer", info("outer"), PluginScope::Any, |builder| {
            builder.provide(A, 1)?;
            builder.plugin("inner", info("inner"), PluginScope::Any, |builder| {
                builder.provide(B, 2)?;
                Err(other())
            })
        })
        .unwrap_err();
    assert_eq!(error.plugin, Some("inner"));
    assert_eq!(error.phase, Phase::Apply);
    assert!(!builder.contains(A) && !builder.contains(B));
    assert!(!builder.has_plugin("outer") && !builder.has_plugin("inner"));

    let error = builder
        .plugin_with_config(A, 7, "p", info("p"), PluginScope::Any, |_| Err(other()))
        .unwrap_err();
    assert_eq!(error.plugin, Some("p"));
    assert!(!builder.contains(A));
    builder.plugin_with_config(A, 7, "p", info("p"), PluginScope::Any, |_| Ok(())).unwrap();
    assert_eq!(found(builder.try_require(A)), Some(7));
}

#[test]
fn the_id_of_a_hook_that_was_taken_back_is_not_used_again() {
    let mut builder = builder();
    builder.on_closing(Arc::new("first")).unwrap();
    let failed = builder.plugin("p", info("p"), PluginScope::Any, |builder| {
        builder.on_closing(Arc::new("taken back"))?;
        Err(other())
    });
    assert!(failed.is_err());
    assert_eq!((builder.closing.hooks.len(), builder.closing.next_id), (1, 2));
    builder
        .plugin("p", info("p"), PluginScope::Any, |builder| {
            builder.on_closing(Arc::new("second"))
        })
        .unwrap();
    let ids: Vec<usize> = builder.closing.hooks.iter().map(|entry| entry.id).collect();
    assert_eq!(ids, vec![0, 2]);
    assert!(builder.plugin("p", info("p"), PluginScope::Any, |_| Ok(())).is_err());
    assert_eq!(builder.closing.next_id, 3);
}

#[test]
fn a_plugin_name_is_unique_and_its_place_is_checked() {
    let mut builder = builder();
    builder.plugin("p", info("p"), PluginScope::Root, |_| Ok(())).unwrap();
    let error = builder.plugin("p", info("p"), PluginScope::Any, |_| Ok(())).unwrap_err();
    assert!(matches!(error.kind, ErrorKind::PluginNameAlreadyRegistered(name) if name == "p"));
    let error = builder.check_plugin("q", PluginScope::Child).unwrap_err();
    assert_eq!(
        error.to_text(),
        "Build: plugin scope mismatch for q: expected Child, actual Root"
    );
    let (_, child) = nested(builder);
    assert!(child.has_plugin("p"));
    assert!(child.check_plugin("q", PluginScope::Child).is_ok());
    assert!(child.check_plugin("p", PluginScope::Root).is_err());
}

#[test]
fn unsatisfied_dependencies_are_named() {
    let mut builder = builder();
    let needy = PluginInfo {
        name: "needy",
        deps: vec![Dependency::optional_of(B), Dependency::of(A)],
        plugin_deps: vec![PluginDependency::of("friend")],
    };
    builder.plugin("needy", needy, PluginScope::Any, |_| Ok(())).unwrap();
    let error = builder.verify().unwrap_err();
    assert!(matches!(&error.kind, ErrorKind::ServiceNotFound(name) if name == "A"));
    let (mut builder, error) = builder.try_build().err().unwrap();
    assert!(matches!(error.kind, ErrorKind::ServiceNotFound(_)));
    builder.provide(A, 1).unwrap();
    let error = builder.verify_dependencies().unwrap_err();
    assert!(matches!(error.kind, ErrorKind::PluginDependencyNotFound(name) if name == "friend"));
    builder.plugin("friend", info("friend"), PluginScope::Any, |_| Ok(())).unwrap();
    assert!(builder.verify().is_ok());
    let built = builder.try_build().ok().unwrap();
    assert_eq!(built.runtime.schedule.order, vec![1, 0]);
}

#[test]
fn a_scope_that_is_stopping_has_no_new_children() {
    let ctx = builder().build().ok().unwrap().runtime.handle();
    let mut core: ScopeCore<u32> = ScopeCore::new();
    let mut ids = ScopeIds::new();
    core.begin_close();
    let error = Builder::scope(&ctx, &mut core, &mut ids).err().unwrap();
    assert!(matches!(error.kind, ErrorKind::Stopping));
    assert!(core.children().is_empty());
}

#[test]
fn events_go_to_the_scopes_that_listen() {
    let mut outer = builder();
    outer.on(5, Arc::new("outer")).unwrap();
    let (ctx, child) = nested(outer);
    let inner = child.build().ok().unwrap().runtime.handle();
    let listening: Vec<ScopeId> = inner.listeners(5).iter().map(Context::id).collect();
    assert_eq!(listening, vec![ctx.id()]);
    assert!(inner.listeners(6).is_empty());
}

#[test]
fn the_scopes_around_a_scope_are_listed_outwards() {
    let (ctx, child) = nested(builder());
    let inner = child.build().ok().unwrap().runtime.handle();
    let outward: Vec<ScopeId> = inner.outward().iter().map(Context::id).collect();
    assert_eq!(outward, vec![inner.id(), ctx.id()]);
    assert_eq!(ctx.outward().len(), 1);
}
