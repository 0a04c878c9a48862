//! The framework's error type.

use std::sync::Arc;

use vstd::prelude::*;

use crate::id::{Blockers, TaskId};
use crate::plugin::PluginScope;
use crate::text::push_decimal;

verus! {

/// The phase in which an error arose.
#[derive(Debug, Clone, Copy, PartialEq, Eq, Structural)]
pub enum Phase {
    Apply,
    Verify,
    Build,
    /// A service lookup at run time that found nothing.
    ///
    /// Kept apart from `Build`: there the same missing service is an assembly error.
    Require,
    Start,
    Ready,
    /// A closing hook, run when a scope has just committed to closing.
    ///
    /// Kept apart from `Stop`: closing hooks run before any plugin is stopped.
    Close,
    Stop,
    Dispose,
    Event,
}

impl Phase {
    /// The name of the variant.
    pub open spec fn text(self) -> Seq<char> {
        match self {
            Phase::Apply => "Apply"@,
            Phase::Verify => "Verify"@,
            Phase::Build => "Build"@,
            Phase::Require => "Require"@,
            Phase::Start => "Start"@,
            Phase::Ready => "Ready"@,
            Phase::Close => "Close"@,
            Phase::Stop => "Stop"@,
            Phase::Dispose => "Dispose"@,
            Phase::Event => "Event"@,
        }
    }

    /// The name of the variant.
    pub fn label(self) -> (s: &'static str)
        ensures
            s@ == self.text(),
    {
        match self {
            Phase::Apply => "Apply",
            Phase::Verify => "Verify",
            Phase::Build => "Build",
            Phase::Require => "Require",
            Phase::Start => "Start",
            Phase::Ready => "Ready",
            Phase::Close => "Close",
            Phase::Stop => "Stop",
            Phase::Dispose => "Dispose",
            Phase::Event => "Event",
        }
    }
}

/// What went wrong. `C` is the type of a cause from outside the framework.
#[derive(Debug)]
#[non_exhaustive]
pub enum ErrorKind<C> {
    /// The service slot is taken.
    ServiceAlreadyRegistered(String),
    /// No such service.
    ServiceNotFound(String),
    /// The plugin name is taken.
    PluginNameAlreadyRegistered(String),
    /// A plugin that another one needs is missing.
    PluginDependencyNotFound(String),
    /// The dependencies between plugins form a cycle.
    PluginDependencyCycle,
    /// The plugin may not be installed in a scope of this kind.
    PluginScopeMismatch { plugin_name: String, expected: PluginScope, actual: PluginScope },
    /// A stop that active child scopes hold up. It can be retried: nothing was cleaned up yet.
    StopBlocked(Blockers),
    /// The scope has committed to stopping and takes no new work.
    Stopping,
    /// The event subscription does not exist, or belongs to another scope.
    SubscriptionNotFound,
    /// There is no task runtime to spawn on.
    NoTaskRuntime,
    /// A background task panicked, or failed without its failure having been reported.
    TaskFailed { task_id: TaskId },
    /// A background task was cancelled because the stop ran out of time.
    TaskAborted { task_id: TaskId },
    /// User code that runs as part of the life cycle panicked.
    LifecyclePanicked { message: Option<String> },
    /// Closing hooks kept registering further hooks beyond the bounds.
    CloseHookDispatchOverflow,
    /// The start did not complete: it failed before, or was interrupted.
    ///
    /// Where it failed, the first failure is the error's source.
    StartFailed,
    /// An error of the user's own; see the error's source.
    Other,
    /// Several errors together.
    Multiple(Arc<Vec<Error<C>>>),
}

/// What an error was caused by.
#[derive(Debug)]
pub enum Source<C> {
    /// Another error of the framework.
    Framework(Arc<Error<C>>),
    /// A cause from outside the framework.
    Other(Arc<C>),
}

/// An error of the framework.
#[derive(Debug)]
pub struct Error<C> {
    /// The phase in which the error arose.
    pub phase: Phase,
    /// The plugin concerned, if any.
    pub plugin: Option<&'static str>,
    /// What went wrong.
    pub kind: ErrorKind<C>,
    /// What it was caused by, if anything.
    pub source: Option<Source<C>>,
}

impl<C> Clone for Source<C> {
    fn clone(&self) -> (copy: Self)
        ensures
            copy == *self,
    {
        match self {
            Source::Framework(error) => Source::Framework(error.clone()),
            Source::Other(cause) => Source::Other(cause.clone()),
        }
    }
}

impl<C> Clone for ErrorKind<C> {
    fn clone(&self) -> (copy: Self)
        ensures
            copy == *self,
    {
        match self {
            ErrorKind::ServiceAlreadyRegistered(name) => ErrorKind::ServiceAlreadyRegistered(
                name.clone(),
            ),
            ErrorKind::ServiceNotFound(name) => ErrorKind::ServiceNotFound(name.clone()),
            ErrorKind::PluginNameAlreadyRegistered(name) => ErrorKind::PluginNameAlreadyRegistered(
                name.clone(),
            ),
            ErrorKind::PluginDependencyNotFound(name) => ErrorKind::PluginDependencyNotFound(
                name.clone(),
            ),
            ErrorKind::PluginDependencyCycle => ErrorKind::PluginDependencyCycle,
            ErrorKind::PluginScopeMismatch { plugin_name, expected, actual } => {
                ErrorKind::PluginScopeMismatch {
                    plugin_name: plugin_name.clone(),
                    expected: *expected,
                    actual: *actual,
                }
            },
            ErrorKind::StopBlocked(blockers) => ErrorKind::StopBlocked(blockers.clone()),
            ErrorKind::Stopping => ErrorKind::Stopping,
            ErrorKind::SubscriptionNotFound => ErrorKind::SubscriptionNotFound,
            ErrorKind::NoTaskRuntime => ErrorKind::NoTaskRuntime,
            ErrorKind::TaskFailed { task_id } => ErrorKind::TaskFailed { task_id: *task_id },
            ErrorKind::TaskAborted { task_id } => ErrorKind::TaskAborted { task_id: *task_id },
            ErrorKind::LifecyclePanicked { message } => ErrorKind::LifecyclePanicked {
                message: match message {
                    Some(text) => Some(text.clone()),
                    None => None,
                },
            },
            ErrorKind::CloseHookDispatchOverflow => ErrorKind::CloseHookDispatchOverflow,
            ErrorKind::StartFailed => ErrorKind::StartFailed,
            ErrorKind::Other => ErrorKind::Other,
            ErrorKind::Multiple(errors) => ErrorKind::Multiple(errors.clone()),
        }
    }
}

impl<C> Clone for Error<C> {
    /// A copy that shares the source and the errors of a `Multiple`.
    fn clone(&self) -> (copy: Self)
        ensures
            copy == *self,
    {
        Error {
            phase: self.phase,
            plugin: self.plugin,
            kind: self.kind.clone(),
            source: match &self.source {
                Some(source) => Some(source.clone()),
                None => None,
            },
        }
    }
}

impl<C> Error<C> {
    /// The error that `phase` and `kind` make, of no plugin and without a source.
    pub open spec fn plain(phase: Phase, kind: ErrorKind<C>) -> Error<C> {
        Error { phase, plugin: None, kind, source: None }
    }

    /// Whether this is the plain error that no service called `name` was found.
    pub open spec fn says_not_found(self, phase: Phase, name: Seq<char>) -> bool {
        &&& self.phase == phase
        &&& self.plugin is None
        &&& self.source is None
        &&& self.kind matches ErrorKind::ServiceNotFound(n) && n@ == name
    }

    /// Whether this is the plain error that the slot of a service called `name` is taken.
    pub open spec fn says_taken(self, name: Seq<char>) -> bool {
        &&& self.phase == Phase::Build
        &&& self.plugin is None
        &&& self.source is None
        &&& self.kind matches ErrorKind::ServiceAlreadyRegistered(n) && n@ == name
    }

    /// The error that no service called `name` was found.
    pub fn service_not_found(phase: Phase, name: &'static str) -> (error: Error<C>)
        ensures
            error.says_not_found(phase, name@),
    {
        Error::new(phase, ErrorKind::ServiceNotFound(String::from_str(name)))
    }

    /// An error without a source.
    pub fn new(phase: Phase, kind: ErrorKind<C>) -> (error: Error<C>)
        ensures
            error == Error::plain(phase, kind),
    {
        Error { phase, plugin: None, kind, source: None }
    }

    /// An error that was caused by something outside the framework.
    pub fn with_source(phase: Phase, kind: ErrorKind<C>, source: C) -> (error: Error<C>)
        ensures
            error == (Error {
                phase,
                plugin: None,
                kind,
                source: Some(Source::Other(Arc::new(source))),
            }),
    {
        Error { phase, plugin: None, kind, source: Some(Source::Other(Arc::new(source))) }
    }

    /// An error that was caused by another error of the framework.
    pub fn with_error(phase: Phase, kind: ErrorKind<C>, cause: Error<C>) -> (error: Error<C>)
        ensures
            error == (Error {
                phase,
                plugin: None,
                kind,
                source: Some(Source::Framework(Arc::new(cause))),
            }),
    {
        Error { phase, plugin: None, kind, source: Some(Source::Framework(Arc::new(cause))) }
    }

    /// The error relabelled with a phase and, where it names no plugin yet, with a plugin.
    pub open spec fn in_phase(self, phase: Phase, plugin: Option<&'static str>) -> Error<C> {
        Error {
            phase,
            plugin: if self.plugin is None {
                plugin
            } else {
                self.plugin
            },
            kind: self.kind,
            source: self.source,
        }
    }

    /// Relabels the error with a phase and a plugin. The kind and the source stay; a plugin
    /// that is already named stays too.
    pub fn into_phase(self, phase: Phase, plugin: Option<&'static str>) -> (error: Error<C>)
        ensures
            error == self.in_phase(phase, plugin),
    {
        let plugin = match self.plugin {
            Some(inner) => Some(inner),
            None => plugin,
        };
        Error { phase, plugin, kind: self.kind, source: self.source }
    }

    /// What went wrong.
    pub fn kind(&self) -> (kind: &ErrorKind<C>)
        ensures
            *kind == self.kind,
    {
        &self.kind
    }

    /// Whether the error gathers several others.
    pub fn is_multiple(&self) -> (multiple: bool)
        ensures
            multiple == (self.kind is Multiple),
    {
        matches!(self.kind, ErrorKind::Multiple(_))
    }

    /// What the error was caused by, if anything.
    pub fn source(&self) -> (source: Option<&Source<C>>)
        ensures
            source == match self.source {
                Some(s) => Some(&s),
                None => None,
            },
    {
        self.source.as_ref()
    }

    /// How the error is shown: the phase, and what went wrong.
    pub open spec fn text(self) -> Seq<char>
        decreases self, 0nat,
    {
        let p = self.phase.text();
        match self.kind {
            ErrorKind::ServiceAlreadyRegistered(name) => p + ": service already registered: "@
                + name@,
            ErrorKind::ServiceNotFound(name) => p + ": service not found: "@ + name@,
            ErrorKind::PluginNameAlreadyRegistered(name) => p
                + ": plugin name already registered: "@ + name@,
            ErrorKind::PluginDependencyNotFound(name) => p + ": plugin dependency not found: "@
                + name@,
            ErrorKind::PluginDependencyCycle => p + ": plugin dependency cycle detected"@,
            ErrorKind::PluginScopeMismatch { plugin_name, expected, actual } => p
                + ": plugin scope mismatch for "@ + plugin_name@ + ": expected "@ + expected.text()
                + ", actual "@ + actual.text(),
            ErrorKind::StopBlocked(blockers) => p + ": stop blocked by "@ + blockers.text(),
            ErrorKind::Stopping => p + ": stopping"@,
            ErrorKind::SubscriptionNotFound => p + ": event subscription not found"@,
            ErrorKind::NoTaskRuntime => p + ": no tokio runtime context for spawn"@,
            ErrorKind::TaskFailed { task_id } => p + ": background "@ + task_id.text()
                + " panicked"@,
            ErrorKind::TaskAborted { task_id } => p + ": background "@ + task_id.text()
                + " aborted after drain timeout"@,
            ErrorKind::LifecyclePanicked { message } => match message {
                Some(message) => p + ": lifecycle callback panicked: "@ + message@,
                None => p + ": lifecycle callback panicked"@,
            },
            ErrorKind::CloseHookDispatchOverflow => p
                + ": close hook dispatch round limit exceeded"@,
            ErrorKind::StartFailed => p + ": start did not complete"@,
            ErrorKind::Other => p + ": other error"@,
            ErrorKind::Multiple(errors) => p + ": multiple errors:"@ + Error::list_text(
                *errors,
                errors@.len(),
            ),
        }
    }

    /// How the first `k` of several errors are shown: each on a line of its own, numbered
    /// from 1.
    pub open spec fn list_text(errors: Vec<Error<C>>, k: nat) -> Seq<char>
        decreases errors, k,
    {
        if k == 0 || k > errors@.len() {
            Seq::empty()
        } else {
            Error::list_text(errors, (k - 1) as nat) + ("\n  "@ + crate::text::decimal_text(k)
                + ". "@ + errors@[k - 1].text())
        }
    }

    /// Appends the error to `out`, as [`Error::text`] says.
    pub fn push_text(&self, out: &mut String)
        ensures
            final(out)@ == old(out)@ + self.text(),
        decreases *self, 0nat,
    {
        let ghost start = out@;
        out.append(self.phase.label());
        match &self.kind {
            ErrorKind::ServiceAlreadyRegistered(name) => {
                out.append(": service already registered: ");
                out.append(name.as_str());
            },
            ErrorKind::ServiceNotFound(name) => {
                out.append(": service not found: ");
                out.append(name.as_str());
            },
            ErrorKind::PluginNameAlreadyRegistered(name) => {
                out.append(": plugin name already registered: ");
                out.append(name.as_str());
            },
            ErrorKind::PluginDependencyNotFound(name) => {
                out.append(": plugin dependency not found: ");
                out.append(name.as_str());
            },
            ErrorKind::PluginDependencyCycle => {
                out.append(": plugin dependency cycle detected");
            },
            ErrorKind::PluginScopeMismatch { plugin_name, expected, actual } => {
                out.append(": plugin scope mismatch for ");
                out.append(plugin_name.as_str());
                out.append(": expected ");
                out.append(expected.label());
                out.append(", actual ");
                out.append(actual.label());
            },
            ErrorKind::StopBlocked(blockers) => {
                out.append(": stop blocked by ");
                let report = blockers.describe();
                out.append(report.as_str());
            },
            ErrorKind::Stopping => {
                out.append(": stopping");
            },
            ErrorKind::SubscriptionNotFound => {
                out.append(": event subscription not found");
            },
            ErrorKind::NoTaskRuntime => {
                out.append(": no tokio runtime context for spawn");
            },
            ErrorKind::TaskFailed { task_id } => {
                out.append(": background ");
                let task = task_id.to_text();
                out.append(task.as_str());
                out.append(" panicked");
            },
            ErrorKind::TaskAborted { task_id } => {
                out.append(": background ");
                let task = task_id.to_text();
                out.append(task.as_str());
                out.append(" aborted after drain timeout");
            },
            ErrorKind::LifecyclePanicked { message } => match message {
                Some(message) => {
                    out.append(": lifecycle callback panicked: ");
                    out.append(message.as_str());
                },
                None => {
                    out.append(": lifecycle callback panicked");
                },
            },
            ErrorKind::CloseHookDispatchOverflow => {
                out.append(": close hook dispatch round limit exceeded");
            },
            ErrorKind::StartFailed => {
                out.append(": start did not complete");
            },
            ErrorKind::Other => {
                out.append(": other error");
            },
            ErrorKind::Multiple(errors) => {
                out.append(": multiple errors:");
                Error::push_list(errors, out);
            },
        }
        assert(out@ =~= start + self.text());
    }

    fn push_list(errors: &Vec<Error<C>>, out: &mut String)
        ensures
            final(out)@ == old(out)@ + Error::list_text(*errors, errors@.len()),
        decreases *errors, 0nat,
    {
        let ghost start = out@;
        let mut i: usize = 0;
        assert(start + Error::list_text(*errors, 0) =~= start);
        while i < errors.len()
            invariant
                i <= errors@.len(),
                out@ == start + Error::list_text(*errors, i as nat),
            decreases errors@.len() - i,
        {
            out.append("\n  ");
            push_decimal(out, i as u64 + 1);
            out.append(". ");
            errors[i].push_text(out);
            i = i + 1;
            assert(out@ =~= start + Error::list_text(*errors, i as nat));
        }
    }

    /// Shows the error as [`Error::text`] says.
    pub fn to_text(&self) -> (s: String)
        ensures
            s@ == self.text(),
    {
        let mut s = String::new();
        self.push_text(&mut s);
        assert(s@ =~= self.text());
        s
    }
}

/// Relabelling keeps the chain of causes: whatever phases and plugins an error passes through,
/// its kind and its source are the ones it arose with, and the innermost plugin named stays.
pub proof fn relabelling_keeps_the_cause<C>(
    error: Error<C>,
    first: Phase,
    inner: Option<&'static str>,
    second: Phase,
    outer: Option<&'static str>,
)
    ensures
        ({
            let relabelled = error.in_phase(first, inner).in_phase(second, outer);
            &&& relabelled.source == error.source
            &&& relabelled.kind == error.kind
            &&& relabelled.phase == second
            &&& error.plugin is Some ==> relabelled.plugin == error.plugin
            &&& error.plugin is None && inner is Some ==> relabelled.plugin == inner
            &&& error.plugin is None && inner is None ==> relabelled.plugin == outer
        }),
{
}

} // verus!
