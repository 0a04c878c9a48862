//! Starting and stopping, step by step.

use std::sync::Arc;

use cordis::builder::Builder;
use cordis::closing::ClosingHooks;
use cordis::context::Host;
use cordis::error::{Error, ErrorKind, Phase};
use cordis::id::{Blockers, ScopeId, TaskId};
use cordis::plugin::{PluginDependency, PluginScope};
use cordis::runtime::{
    run_lifecycle_unit, CleanupStep, Runtime, StartStep, StopEntry, StopOutcome, UnitEnd,
};
use cordis::schedule::PluginInfo;
use cordis::scope::{Lifecycle, ScopeCore};

struct Plain;

impl Host for Plain {
    type Value = u32;
    type Factory = u32;
    type Plugin = &'static str;
    type Hook = &'static str;
    type CloseHook = &'static str;
    type Handler = &'static str;
    type Event = u32;
    type Cause = u32;
    type Deadline = u64;

    fn priority(_plugin: &Self::Plugin) -> i32 {
        0
    }
}

struct Scope {
    runtime: Runtime<Plain>,
    core: ScopeCore<u32>,
    closing: ClosingHooks<&'static str, u32>,
}

/// A scope with the plugins `a`, `b` that needs `a`, and `c`, two ready hooks and a dispose hook.
fn scope() -> Scope {
    let mut builder: Builder<Plain> = Builder::new(ScopeId::new(0));
    for (name, needs) in [("a", None), ("b", Some("a")), ("c", None)] {
        let plugin_deps = needs.map(PluginDependency::of).into_iter().collect();
        let info = PluginInfo { name, deps: Vec::new(), plugin_deps };
        builder.plugin(name, info, PluginScope::Any, |_| Ok(())).unwrap();
    }
    builder.on_ready("first").unwrap();
    builder.on_ready("second").unwrap();
    builder.on_dispose("dispose").unwrap();
    let built = builder.build().ok().unwrap();
    Scope { runtime: built.runtime, core: ScopeCore::new(), closing: built.closing }
}

fn failure() -> Error<u32> {
    Error::new(Phase::Event, ErrorKind::Other)
}

fn batch(step: StartStep<u32>) -> Vec<usize> {
    match step {
        StartStep::Launch(batch) => batch,
        _ => panic!("not a batch"),
    }
}

fn done(step: StartStep<u32>) -> Result<(), Error<u32>> {
    match step {
        StartStep::Done(result) => result,
        _ => panic!("not done"),
    }
}

impl Scope {
    fn start(&mut self) {
        assert_eq!(batch(self.runtime.start_with(&mut self.core, false)), vec![0, 2]);
        let step = self.runtime.plugins_started(&mut self.core, vec![Ok(()), Ok(())]);
        assert_eq!(batch(step), vec![1]);
        let step = self.runtime.plugins_started(&mut self.core, vec![Ok(())]);
        assert!(matches!(step, StartStep::Ready(0)));
        let step = self.runtime.ready_done(&mut self.core, Ok(()));
        assert!(matches!(step, StartStep::Ready(1)));
        assert!(done(self.runtime.ready_done(&mut self.core, Ok(()))).is_ok());
    }

    fn enter(&mut self, deadline: Option<u64>) -> Result<(), StopOutcome<u32>> {
        self.runtime.enter_cleanup(&mut self.core, &mut self.closing, deadline).0
    }

    fn finish(&mut self) -> StopOutcome<u32> {
        self.runtime.complete_stop(&mut self.core, &mut self.closing).0
    }
}

#[test]
fn plugins_start_layer_by_layer_and_stop_in_reverse() {
    let mut scope = scope();
    scope.start();
    assert_eq!(scope.core.lifecycle(), Lifecycle::Running);

    let entry = scope.runtime.begin_stop(&mut scope.core);
    assert_eq!(entry, StopEntry::Committed { first: true });
    scope.enter(Some(77)).ok().unwrap();
    assert_eq!(scope.runtime.cleanup_deadline(), Some(&77));
    for plugin in [1, 2, 0] {
        assert!(matches!(scope.runtime.cleanup_step(), CleanupStep::StopPlugin(p) if p == plugin));
        assert!(scope.runtime.begin_stop(&mut scope.core) == StopEntry::Resume);
        scope.runtime.unit_ended(UnitEnd::Returned(Ok(())));
    }
    assert!(matches!(scope.runtime.cleanup_step(), CleanupStep::DrainTasks));
    scope.runtime.tasks_drained(Vec::new());
    assert!(matches!(scope.runtime.cleanup_step(), CleanupStep::DrainNotify));
    scope.runtime.notify_drained();
    assert!(matches!(scope.runtime.cleanup_step(), CleanupStep::Dispose(0)));
    scope.runtime.unit_ended(UnitEnd::Returned(Ok(())));
    assert!(matches!(scope.runtime.cleanup_step(), CleanupStep::Finish));
    let retired = scope.runtime.retire();
    assert_eq!(retired.plugins.len(), 3);
    assert_eq!(retired.dispose, vec!["dispose"]);
    assert!(retired.lease.is_none());
    scope.finish().unwrap();
    assert!(scope.core.is_stopped());
    assert!(scope.runtime.begin_stop(&mut scope.core) == StopEntry::AlreadyStopped);
    assert!(done(scope.runtime.start_with(&mut scope.core, false)).is_ok());
    assert!(scope.runtime.drop_report(&scope.core, false).is_none());
}

#[test]
fn a_serial_start_takes_one_plugin_at_a_time() {
    let mut scope = scope();
    assert_eq!(batch(scope.runtime.start_with(&mut scope.core, true)), vec![0]);
    assert_eq!(batch(scope.runtime.plugins_started(&mut scope.core, vec![Ok(())])), vec![1]);
    assert_eq!(batch(scope.runtime.plugins_started(&mut scope.core, vec![Ok(())])), vec![2]);
    let step = scope.runtime.plugins_started(&mut scope.core, vec![Ok(())]);
    assert!(matches!(step, StartStep::Ready(0)));
}

#[test]
fn a_failed_start_names_the_plugins_and_is_not_repeated() {
    let mut scope = scope();
    batch(scope.runtime.start_with(&mut scope.core, false));
    let step = scope.runtime.plugins_started(&mut scope.core, vec![Err(failure()), Ok(())]);
    let error = done(step).unwrap_err();
    let ErrorKind::Multiple(errors) = &error.kind else { panic!("not several") };
    assert_eq!(errors.len(), 1);
    assert_eq!(errors[0].plugin, Some("a"));
    assert_eq!(errors[0].phase, Phase::Start);
    assert!(scope.runtime.start_error().is_some());
    let again = done(scope.runtime.start_with(&mut scope.core, false)).unwrap_err();
    assert_eq!(again.to_text(), "Start: start did not complete");
    assert!(again.source().is_some());
    assert_eq!(scope.runtime.started, vec![0, 2]);
}

#[test]
fn the_error_of_a_failed_start_outlasts_the_stop() {
    let mut scope = scope();
    batch(scope.runtime.start_with(&mut scope.core, false));
    scope.runtime.plugins_started(&mut scope.core, vec![Err(failure()), Ok(())]);
    let text = scope.runtime.start_error().unwrap().to_text();
    scope.runtime.begin_stop(&mut scope.core);
    scope.closing.on_closing(Arc::new("kept"), 1);
    scope.enter(None).ok().unwrap();
    assert_eq!(scope.runtime.start_error().unwrap().to_text(), text);
    assert_eq!((scope.closing.hooks.len(), scope.closing.chained), (1, 1));
    scope.runtime.unit_ended(UnitEnd::Returned(Ok(())));
    scope.runtime.unit_ended(UnitEnd::Returned(Ok(())));
    scope.runtime.tasks_drained(Vec::new());
    scope.runtime.notify_drained();
    scope.runtime.unit_ended(UnitEnd::Returned(Ok(())));
    scope.runtime.retire();
    scope.finish().unwrap();
    assert_eq!(scope.runtime.start_error().unwrap().to_text(), text);
    assert_eq!((scope.closing.hooks.len(), scope.closing.chained), (1, 1));
}

#[test]
fn a_hook_that_comes_after_the_stop_is_run_at_once() {
    let mut scope = scope();
    scope.start();
    scope.runtime.begin_stop(&mut scope.core);
    let mut run = scope.closing.begin_dispatch().unwrap();
    while scope.closing.next_batch(&mut run).is_some() {}
    scope.closing.finish_dispatch(run);
    scope.enter(None).ok().unwrap();
    for _ in 0..3 {
        scope.runtime.unit_ended(UnitEnd::Returned(Ok(())));
    }
    scope.runtime.tasks_drained(Vec::new());
    scope.runtime.notify_drained();
    scope.runtime.unit_ended(UnitEnd::Returned(Ok(())));
    scope.runtime.retire();
    scope.finish().unwrap();
    assert!(scope.closing.on_closing(Arc::new("late"), 0).run_now);
}

#[test]
fn a_failed_ready_hook_ends_the_start() {
    let mut scope = scope();
    batch(scope.runtime.start_with(&mut scope.core, false));
    batch(scope.runtime.plugins_started(&mut scope.core, vec![Ok(()), Ok(())]));
    scope.runtime.plugins_started(&mut scope.core, vec![Ok(())]);
    let error = done(scope.runtime.ready_done(&mut scope.core, Err(failure()))).unwrap_err();
    assert_eq!(error.to_text(), "Start: multiple errors:\n  1. Ready: other error");
}

#[test]
fn the_errors_of_a_cleanup_are_gathered() {
    let mut scope = scope();
    scope.start();
    scope.runtime.begin_stop(&mut scope.core);
    scope.enter(None).ok().unwrap();
    scope.runtime.unit_ended(UnitEnd::Panicked(Some("boom".to_string())));
    scope.runtime.unit_ended(UnitEnd::Returned(Err(failure())));
    scope.runtime.unit_ended(UnitEnd::Returned(Ok(())));
    let report = Error::new(Phase::Stop, ErrorKind::TaskFailed { task_id: TaskId::new(1) });
    scope.runtime.tasks_drained(vec![report]);
    scope.runtime.notify_drained();
    scope.runtime.unit_ended(UnitEnd::Panicked(None));
    scope.closing.record(Some(Error::new(Phase::Close, ErrorKind::Other)));
    scope.runtime.retire();
    let outcome = scope.finish();
    let texts: Vec<String> = outcome.errors().iter().map(Error::to_text).collect();
    assert_eq!(
        texts,
        vec![
            "Stop: lifecycle callback panicked: boom",
            "Stop: other error",
            "Stop: background task#1 panicked",
            "Dispose: lifecycle callback panicked",
            "Close: other error",
        ]
    );
    assert_eq!(outcome.errors()[0].plugin, Some("b"));
    assert_eq!(outcome.errors()[1].plugin, Some("c"));
    assert!(outcome.unwrap_err().is_multiple());
}

#[test]
fn children_hold_up_a_stop_until_they_are_gone() {
    let mut scope = scope();
    scope.start();
    scope.core.acquire_lease(ScopeId::new(4));
    scope.runtime.begin_stop(&mut scope.core);
    let blocked = scope.enter(None).err().unwrap();
    assert!(!blocked.is_stopped());
    assert_eq!(blocked.blockers().unwrap().ids(), &[ScopeId::new(4)]);
    assert_eq!(
        scope.runtime.drop_diagnostic(&scope.core),
        "Runtime dropped after stop() was blocked by active child scopes (ids: [ScopeId(4)]); drop or stop those scopes, then retry stop()"
    );
    scope.core.release_lease(ScopeId::new(4));
    assert_eq!(
        scope.runtime.drop_diagnostic(&scope.core),
        "Runtime dropped after stop() was blocked: the blocking scopes were reclaimed but stop() was not retried, so cleanup never ran"
    );
    let entry = scope.runtime.begin_stop(&mut scope.core);
    assert_eq!(entry, StopEntry::Committed { first: false });
    scope.enter(None).ok().unwrap();
    assert_eq!(
        scope.runtime.drop_diagnostic(&scope.core),
        "Runtime dropped while stopping: cleanup did not complete and plugin resources or dispose hooks were not fully reclaimed"
    );
}

#[test]
fn dropping_a_running_scope_is_reported_unless_it_unwinds() {
    let mut scope = scope();
    assert!(scope.runtime.drop_report(&scope.core, false).is_none());
    scope.start();
    assert_eq!(
        scope.runtime.drop_report(&scope.core, false).unwrap(),
        "Runtime dropped without stop(): plugin resources and dispose hooks were not reclaimed"
    );
    assert!(scope.runtime.drop_report(&scope.core, true).is_none());
    scope.runtime.abandon(&mut scope.core, &mut scope.closing);
    assert!(scope.core.is_abandoned());
    assert!(scope.core.is_stopping());
}

#[test]
fn the_outcome_of_a_stop_folds_into_a_result() {
    let clean: StopOutcome<u32> = StopOutcome::Stopped { errors: Vec::new() };
    assert!(clean.into_result().is_ok());
    let failed = StopOutcome::Stopped { errors: vec![failure()] };
    assert_eq!(failed.errors().len(), 1);
    let error = failed.into_result().unwrap_err();
    assert_eq!(error.to_text(), "Stop: multiple errors:\n  1. Event: other error");
    let blocked: StopOutcome<u32> =
        StopOutcome::Blocked(Blockers::new(vec![ScopeId::new(2)]));
    assert_eq!(
        blocked.into_result().unwrap_err().to_text(),
        "Stop: stop blocked by active scopes: 1, ids: [ScopeId(2)]"
    );
}

#[test]
fn a_unit_that_returns_nothing_bad_is_no_error() {
    assert!(run_lifecycle_unit::<u32>(Phase::Stop, None, UnitEnd::Returned(Ok(()))).is_none());
    let error =
        run_lifecycle_unit(Phase::Stop, Some("p"), UnitEnd::Returned(Err(failure()))).unwrap();
    assert_eq!((error.phase, error.plugin), (Phase::Stop, Some("p")));
}
