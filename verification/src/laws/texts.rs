//! How numbers, lists and errors are shown.

use vstd::prelude::*;

use crate::error::{Error, ErrorKind, Phase};
use crate::id::{Blockers, ScopeId, TaskId};
use crate::plugin::PluginScope;
use crate::registry::RegistryError;

verus! {

/// The number that a row of decimal digits stands for.
pub open spec fn number_shown(text: Seq<char>) -> int
    decreases text.len(),
{
    if text.len() == 0 {
        0
    } else {
        10 * number_shown(text.drop_last()) + (text.last() as int - '0' as int)
    }
}

/// The text of a number is made of digits, stands for that number, and has no zero in front but for
/// the number zero itself.
pub proof fn a_number_is_shown_in_decimal(n: nat)
    ensures
        number_shown(crate::text::decimal_text(n)) == n,
        crate::text::decimal_text(n).len() > 0,
        forall|i: int|
            0 <= i < crate::text::decimal_text(n).len() ==> '0' <= #[trigger] crate::text::decimal_text(
                n,
            )[i] <= '9',
        n > 0 ==> crate::text::decimal_text(n)[0] != '0',
        n == 0 ==> crate::text::decimal_text(n) == seq!['0'],
    decreases n,
{
    lemma_digit(n % 10);
    reveal_with_fuel(number_shown, 2);
    if n < 10 {
        let shown = crate::text::decimal_text(n);
        assert(shown.drop_last() =~= Seq::empty());
    } else {
        a_number_is_shown_in_decimal(n / 10);
        let shown = crate::text::decimal_text(n);
        assert(shown.drop_last() =~= crate::text::decimal_text(n / 10));
        assert(shown.last() == crate::text::digit_text(n % 10)[0]);
    }
}

proof fn lemma_digit(d: nat)
    requires
        d < 10,
    ensures
        crate::text::digit_text(d).len() == 1,
        crate::text::digit_text(d)[0] as int == '0' as int + d,
{
    reveal_strlit("0");
    reveal_strlit("1");
    reveal_strlit("2");
    reveal_strlit("3");
    reveal_strlit("4");
    reveal_strlit("5");
    reveal_strlit("6");
    reveal_strlit("7");
    reveal_strlit("8");
    reveal_strlit("9");
}

/// Ids in a list are shown one after the other, each as `ScopeId(n)`, with a comma and a space
/// between two of them.
pub proof fn ids_are_shown_one_by_one(ids: Seq<ScopeId>)
    ensures
        crate::id::ids_text(ids, ids.len()) == Seq::new(
            ids.len(),
            |i: int|
                (if i == 0 {
                    Seq::<char>::empty()
                } else {
                    ", "@
                }) + "ScopeId("@ + crate::text::decimal_text(ids[i].0 as nat) + ")"@,
        ).flatten(),
{
    lemma_ids(ids, ids.len());
}

proof fn lemma_ids(ids: Seq<ScopeId>, k: nat)
    requires
        k <= ids.len(),
    ensures
        crate::id::ids_text(ids, k) == Seq::new(
            k,
            |i: int|
                (if i == 0 {
                    Seq::<char>::empty()
                } else {
                    ", "@
                }) + "ScopeId("@ + crate::text::decimal_text(ids[i].0 as nat) + ")"@,
        ).flatten(),
    decreases k,
{
    let piece = |i: int|
        (if i == 0 {
            Seq::<char>::empty()
        } else {
            ", "@
        }) + "ScopeId("@ + crate::text::decimal_text(ids[i].0 as nat) + ")"@;
    let pieces = Seq::new(k, piece);
    if k == 0 {
        assert(pieces.flatten() =~= Seq::empty());
    } else {
        lemma_ids(ids, (k - 1) as nat);
        let before = Seq::new((k - 1) as nat, piece);
        before.lemma_flatten_push(piece(k - 1));
        assert(pieces =~= before.push(piece(k - 1)));
        assert(crate::id::ids_text(ids, k) =~= crate::id::ids_text(ids, (k - 1) as nat) + piece(
            k - 1,
        ));
    }
}

/// Several errors are shown line by line, each behind its number, counted from 1, in order.
pub proof fn errors_are_shown_line_by_line<C>(errors: Vec<Error<C>>)
    ensures
        Error::list_text(errors, errors@.len()) == Seq::new(
            errors@.len(),
            |i: int|
                "\n  "@ + crate::text::decimal_text((i + 1) as nat) + ". "@ + errors@[i].text(),
        ).flatten(),
{
    lemma_lines(errors, errors@.len());
}

proof fn lemma_lines<C>(errors: Vec<Error<C>>, k: nat)
    requires
        k <= errors@.len(),
    ensures
        Error::list_text(errors, k) == Seq::new(
            k,
            |i: int|
                "\n  "@ + crate::text::decimal_text((i + 1) as nat) + ". "@ + errors@[i].text(),
        ).flatten(),
    decreases k,
{
    let line = |i: int|
        "\n  "@ + crate::text::decimal_text((i + 1) as nat) + ". "@ + errors@[i].text();
    let lines = Seq::new(k, line);
    if k == 0 {
        assert(lines.flatten() =~= Seq::empty());
    } else {
        lemma_lines(errors, (k - 1) as nat);
        let before = Seq::new((k - 1) as nat, line);
        before.lemma_flatten_push(line(k - 1));
        assert(lines =~= before.push(line(k - 1)));
    }
}

/// What is shown of an error begins with its phase, says what went wrong, and ends with the name, the
/// message, the ids or the list that it is about.
pub proof fn an_error_shows_its_phase_and_its_subject<C>(error: Error<C>)
    ensures
        ({
            let shown = error.text();
            let phase = error.phase.text() + ": "@;
            &&& shown.len() > phase.len()
            &&& shown.take(phase.len() as int) == phase
            &&& match error.kind {
                ErrorKind::ServiceAlreadyRegistered(name) => shown == phase
                    + "service already registered: "@ + name@,
                ErrorKind::ServiceNotFound(name) => shown == phase + "service not found: "@ + name@,
                ErrorKind::PluginNameAlreadyRegistered(name) => shown == phase
                    + "plugin name already registered: "@ + name@,
                ErrorKind::PluginDependencyNotFound(name) => shown == phase
                    + "plugin dependency not found: "@ + name@,
                ErrorKind::StopBlocked(blockers) => shown == phase + "stop blocked by "@
                    + blockers.text(),
                ErrorKind::TaskFailed { task_id } => shown == phase + "background task#"@
                    + crate::text::decimal_text(task_id.0 as nat) + " panicked"@,
                ErrorKind::TaskAborted { task_id } => shown == phase + "background task#"@
                    + crate::text::decimal_text(task_id.0 as nat)
                    + " aborted after drain timeout"@,
                ErrorKind::LifecyclePanicked { message: Some(message) } => shown == phase
                    + "lifecycle callback panicked: "@ + message@,
                ErrorKind::Multiple(errors) => shown == phase + "multiple errors:"@
                    + Error::list_text(*errors, errors@.len()),
                ErrorKind::PluginScopeMismatch { plugin_name, expected, actual } => shown == phase
                    + "plugin scope mismatch for "@ + plugin_name@ + ": expected "@
                    + expected.text() + ", actual "@ + actual.text(),
                ErrorKind::PluginDependencyCycle => shown == phase
                    + "plugin dependency cycle detected"@,
                ErrorKind::Stopping => shown == phase + "stopping"@,
                ErrorKind::SubscriptionNotFound => shown == phase
                    + "event subscription not found"@,
                ErrorKind::NoTaskRuntime => shown == phase
                    + "no tokio runtime context for spawn"@,
                ErrorKind::LifecyclePanicked { message: None } => shown == phase
                    + "lifecycle callback panicked"@,
                ErrorKind::CloseHookDispatchOverflow => shown == phase
                    + "close hook dispatch round limit exceeded"@,
                ErrorKind::StartFailed => shown == phase + "start did not complete"@,
                ErrorKind::Other => shown == phase + "other error"@,
            }
        }),
{
    reveal_strlit(": ");
    reveal_strlit("service already registered: ");
    reveal_strlit(": service already registered: ");
    reveal_strlit("service not found: ");
    reveal_strlit(": service not found: ");
    reveal_strlit("plugin name already registered: ");
    reveal_strlit(": plugin name already registered: ");
    reveal_strlit("plugin dependency not found: ");
    reveal_strlit(": plugin dependency not found: ");
    reveal_strlit("plugin dependency cycle detected");
    reveal_strlit(": plugin dependency cycle detected");
    reveal_strlit("plugin scope mismatch for ");
    reveal_strlit(": plugin scope mismatch for ");
    reveal_strlit("stop blocked by ");
    reveal_strlit(": stop blocked by ");
    reveal_strlit("stopping");
    reveal_strlit(": stopping");
    reveal_strlit("event subscription not found");
    reveal_strlit(": event subscription not found");
    reveal_strlit("no tokio runtime context for spawn");
    reveal_strlit(": no tokio runtime context for spawn");
    reveal_strlit("background task#");
    reveal_strlit(": background ");
    reveal_strlit("task#");
    reveal_strlit("lifecycle callback panicked: ");
    reveal_strlit(": lifecycle callback panicked: ");
    reveal_strlit("lifecycle callback panicked");
    reveal_strlit(": lifecycle callback panicked");
    reveal_strlit("close hook dispatch round limit exceeded");
    reveal_strlit(": close hook dispatch round limit exceeded");
    reveal_strlit("start did not complete");
    reveal_strlit(": start did not complete");
    reveal_strlit("other error");
    reveal_strlit(": other error");
    reveal_strlit("multiple errors:");
    reveal_strlit(": multiple errors:");
    let shown = error.text();
    let phase = error.phase.text() + ": "@;
    assert(shown.take(phase.len() as int) =~= phase);
}

/// A phase, and the kind of a scope, is shown by its own name.
pub proof fn a_phase_is_shown_by_its_name(phase: Phase, scope: PluginScope)
    ensures
        phase.text() == match phase {
            Phase::Apply => seq!['A', 'p', 'p', 'l', 'y'],
            Phase::Verify => seq!['V', 'e', 'r', 'i', 'f', 'y'],
            Phase::Build => seq!['B', 'u', 'i', 'l', 'd'],
            Phase::Require => seq!['R', 'e', 'q', 'u', 'i', 'r', 'e'],
            Phase::Start => seq!['S', 't', 'a', 'r', 't'],
            Phase::Ready => seq!['R', 'e', 'a', 'd', 'y'],
            Phase::Close => seq!['C', 'l', 'o', 's', 'e'],
            Phase::Stop => seq!['S', 't', 'o', 'p'],
            Phase::Dispose => seq!['D', 'i', 's', 'p', 'o', 's', 'e'],
            Phase::Event => seq!['E', 'v', 'e', 'n', 't'],
        },
        scope.text() == match scope {
            PluginScope::Any => seq!['A', 'n', 'y'],
            PluginScope::Root => seq!['R', 'o', 'o', 't'],
            PluginScope::Child => seq!['C', 'h', 'i', 'l', 'd'],
        },
{
    reveal_strlit("Apply");
    reveal_strlit("Verify");
    reveal_strlit("Build");
    reveal_strlit("Require");
    reveal_strlit("Start");
    reveal_strlit("Ready");
    reveal_strlit("Close");
    reveal_strlit("Stop");
    reveal_strlit("Dispose");
    reveal_strlit("Event");
    reveal_strlit("Any");
    reveal_strlit("Root");
    reveal_strlit("Child");
}

/// An id is shown with its number in decimal, and blockers with how many they are and all their ids.
pub proof fn an_id_is_shown_with_its_number(scope: ScopeId, task: TaskId, blockers: Blockers)
    ensures
        scope.text() == "scope#"@ + crate::text::decimal_text(scope.0 as nat),
        task.text() == "task#"@ + crate::text::decimal_text(task.0 as nat),
        blockers.text() == "active scopes: "@ + crate::text::decimal_text(blockers.ids@.len())
            + ", ids: ["@ + crate::id::ids_text(blockers.ids@, blockers.ids@.len()) + "]"@,
{
    reveal_strlit("[");
    reveal_strlit(", ids: ");
    reveal_strlit(", ids: [");
}

/// An error of a registry that is about a name shows it, between backticks.
pub proof fn an_error_of_a_registry_shows_the_name<C>(error: RegistryError<C>)
    ensures
        match error {
            RegistryError::Unbound => error.text() == "registry is not bound to a parent context"@,
            RegistryError::AlreadyExists(name) => error.text() == "scope `"@ + name@
                + "` already exists"@,
            RegistryError::NotFound(name) => error.text() == "scope `"@ + name@ + "` not found"@,
            RegistryError::Busy(name) => error.text() == "scope `"@ + name@
                + "` is being opened or closed"@,
            RegistryError::ShuttingDown => error.text() == "registry is shutting down"@,
            RegistryError::Scope(inner) => error.text() == "scope error: "@ + inner.text(),
        },
{
}

} // verus!
