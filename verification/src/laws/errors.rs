//! What an error says, and what it goes on saying.

use vstd::prelude::*;

use crate::error::{Error, ErrorKind, Phase};

verus! {

/// An error that is passed on says where it was passed on, and keeps what went wrong and what caused
/// it. It names the plugin that it named first; only one that named none takes the name it is given.
pub proof fn an_error_that_is_passed_on_says_the_same<C>(
    error: Error<C>,
    phase: Phase,
    plugin: Option<&'static str>,
)
    ensures
        error.in_phase(phase, plugin).phase == phase,
        error.in_phase(phase, plugin).kind == error.kind,
        error.in_phase(phase, plugin).source == error.source,
        error.plugin is Some ==> error.in_phase(phase, plugin).plugin == error.plugin,
        error.plugin is None ==> error.in_phase(phase, plugin).plugin == plugin,
{
}

/// To pass an error on twice is to pass it on to the second phase, with the plugin that was named
/// first.
pub proof fn the_plugin_that_was_named_first_stays<C>(
    error: Error<C>,
    inner: Phase,
    plugin: &'static str,
    outer: Phase,
    other: Option<&'static str>,
)
    ensures
        error.in_phase(inner, Some(plugin)).in_phase(outer, other) == error.in_phase(
            outer,
            Some(plugin),
        ),
{
}

/// A new error belongs to no plugin and has no cause.
pub proof fn a_new_error_has_no_cause<C>(phase: Phase, kind: ErrorKind<C>)
    ensures
        Error::plain(phase, kind).phase == phase,
        Error::plain(phase, kind).kind == kind,
        Error::plain(phase, kind).plugin is None,
        Error::plain(phase, kind).source is None,
{
}

/// An error about a service names it: as missing, in the phase in which it was missed, or as taken,
/// which is an error of assembling.
pub proof fn an_error_about_a_service_names_it<C>(error: Error<C>, phase: Phase, name: Seq<char>)
    ensures
        error.says_not_found(phase, name) <==> error.phase == phase && error.plugin is None
            && error.source is None && (error.kind matches ErrorKind::ServiceNotFound(missing)
            && missing@ == name),
        error.says_taken(name) <==> error.phase == Phase::Build && error.plugin is None
            && error.source is None && (error.kind matches ErrorKind::ServiceAlreadyRegistered(
            taken,
        ) && taken@ == name),
{
}

} // verus!
