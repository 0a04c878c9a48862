//! How ids, errors and reports are shown.

use std::sync::Arc;

use cordis::error::{Error, ErrorKind, Phase, Source};
use cordis::id::{Blockers, ScopeId, ScopeIds, TaskId};
use cordis::plugin::PluginScope;
use cordis::registry::RegistryError;

type Failure = Error<u32>;
type Kind = ErrorKind<u32>;

fn shown(phase: Phase, kind: Kind) -> String {
    Failure::new(phase, kind).to_text()
}

#[test]
fn ids_are_shown_by_number() {
    assert_eq!(ScopeId::new(12).to_text(), "scope#12");
    assert_eq!(TaskId::new(0).to_text(), "task#0");
    assert_eq!(TaskId::new(u64::MAX).to_text(), "task#18446744073709551615");
    assert_eq!(ScopeId::new(3).get(), 3);
    assert_eq!(TaskId::new(4).get(), 4);
}

#[test]
fn scope_ids_are_handed_out_in_sequence() {
    let mut ids = ScopeIds::new();
    let first = ids.allocate();
    let second = ids.allocate();
    assert_eq!(second.get(), first.get() + 1);
}

#[test]
fn blockers_are_described_with_their_ids() {
    let blockers = Blockers::new(vec![ScopeId::new(3), ScopeId::new(8)]);
    assert_eq!(blockers.len(), 2);
    assert!(!blockers.is_empty());
    assert_eq!(blockers.ids(), &[ScopeId::new(3), ScopeId::new(8)]);
    assert_eq!(blockers.describe(), "active scopes: 2, ids: [ScopeId(3), ScopeId(8)]");
    assert_eq!(Blockers::new(Vec::new()).describe(), "active scopes: 0, ids: []");
}

#[test]
fn each_kind_of_error_has_its_text() {
    let name = || "X".to_string();
    assert_eq!(
        shown(Phase::Build, Kind::ServiceAlreadyRegistered(name())),
        "Build: service already registered: X"
    );
    assert_eq!(shown(Phase::Require, Kind::ServiceNotFound(name())), "Require: service not found: X");
    assert_eq!(
        shown(Phase::Apply, Kind::PluginNameAlreadyRegistered(name())),
        "Apply: plugin name already registered: X"
    );
    assert_eq!(
        shown(Phase::Verify, Kind::PluginDependencyNotFound(name())),
        "Verify: plugin dependency not found: X"
    );
    assert_eq!(
        shown(Phase::Verify, Kind::PluginDependencyCycle),
        "Verify: plugin dependency cycle detected"
    );
    let mismatch = Kind::PluginScopeMismatch {
        plugin_name: name(),
        expected: PluginScope::Root,
        actual: PluginScope::Child,
    };
    assert_eq!(
        shown(Phase::Apply, mismatch),
        "Apply: plugin scope mismatch for X: expected Root, actual Child"
    );
    assert_eq!(
        shown(Phase::Stop, Kind::StopBlocked(Blockers::new(vec![ScopeId::new(1)]))),
        "Stop: stop blocked by active scopes: 1, ids: [ScopeId(1)]"
    );
    assert_eq!(shown(Phase::Build, Kind::Stopping), "Build: stopping");
    assert_eq!(
        shown(Phase::Build, Kind::SubscriptionNotFound),
        "Build: event subscription not found"
    );
    assert_eq!(
        shown(Phase::Start, Kind::NoTaskRuntime),
        "Start: no tokio runtime context for spawn"
    );
    let task_id = TaskId::new(7);
    assert_eq!(shown(Phase::Stop, Kind::TaskFailed { task_id }), "Stop: background task#7 panicked");
    assert_eq!(
        shown(Phase::Stop, Kind::TaskAborted { task_id }),
        "Stop: background task#7 aborted after drain timeout"
    );
    assert_eq!(
        shown(Phase::Dispose, Kind::LifecyclePanicked { message: Some("boom".to_string()) }),
        "Dispose: lifecycle callback panicked: boom"
    );
    assert_eq!(
        shown(Phase::Dispose, Kind::LifecyclePanicked { message: None }),
        "Dispose: lifecycle callback panicked"
    );
    assert_eq!(
        shown(Phase::Close, Kind::CloseHookDispatchOverflow),
        "Close: close hook dispatch round limit exceeded"
    );
    assert_eq!(shown(Phase::Start, Kind::StartFailed), "Start: start did not complete");
    assert_eq!(shown(Phase::Ready, Kind::Other), "Ready: other error");
}

#[test]
fn several_errors_are_numbered_from_one() {
    let both = vec![
        Failure::new(Phase::Stop, Kind::Other),
        Failure::new(Phase::Event, Kind::Stopping),
    ];
    assert_eq!(
        shown(Phase::Stop, Kind::Multiple(Arc::new(both))),
        "Stop: multiple errors:\n  1. Stop: other error\n  2. Event: stopping"
    );
}

#[test]
fn relabelling_an_error_keeps_what_caused_it() {
    let error = Failure::with_source(Phase::Event, Kind::Other, 42);
    let moved = error.into_phase(Phase::Stop, Some("p"));
    assert_eq!(moved.phase, Phase::Stop);
    assert_eq!(moved.plugin, Some("p"));
    assert!(matches!(moved.source(), Some(Source::Other(cause)) if **cause == 42));
    let outer = Failure::with_error(Phase::Start, Kind::StartFailed, moved);
    assert!(
        matches!(outer.source(), Some(Source::Framework(inner)) if inner.phase == Phase::Stop)
    );
    assert!(!outer.is_multiple());
}

#[test]
fn each_error_of_the_registry_has_its_text() {
    let named = |make: fn(String) -> RegistryError<u32>| make("s".to_string()).to_text();
    assert_eq!(
        RegistryError::<u32>::Unbound.to_text(),
        "registry is not bound to a parent context"
    );
    assert_eq!(named(RegistryError::AlreadyExists), "scope `s` already exists");
    assert_eq!(named(RegistryError::NotFound), "scope `s` not found");
    assert_eq!(named(RegistryError::Busy), "scope `s` is being opened or closed");
    assert_eq!(RegistryError::<u32>::ShuttingDown.to_text(), "registry is shutting down");
    assert_eq!(
        RegistryError::Scope(Failure::new(Phase::Build, Kind::Stopping)).to_text(),
        "scope error: Build: stopping"
    );
}

#[test]
fn any_number_of_errors_can_be_shown() {
    let many: Vec<Error<u32>> =
        (0..60_000).map(|_| Error::new(Phase::Stop, Kind::Other)).collect();
    let text = Error::<u32>::new(Phase::Stop, Kind::Multiple(Arc::new(many))).to_text();
    assert!(text.starts_with("Stop: multiple errors:\n  1. Stop: other error\n  2. "));
    assert!(text.ends_with("\n  59999. Stop: other error\n  60000. Stop: other error"));
    assert_eq!(text.lines().count(), 60_001);
}
