//! Who holds a name, and how the closing of a scope is told.

use vstd::prelude::*;

use crate::error::{Error, ErrorKind};
use crate::id::TaskId;
use crate::registry::{CloseStatus, RegistryError, ScopeRegistry, Slot};
use crate::runtime::StopOutcome;

verus! {

/// A close is blocked exactly where the stop is; it is told as aborted where any task was cancelled
/// for lack of time, whatever the other errors are; it is clean exactly where there was no error.
pub proof fn a_close_is_told_by_its_errors<C>(outcome: StopOutcome<C>)
    ensures
        match outcome {
            StopOutcome::Blocked(_) => crate::registry::status_is(outcome) == CloseStatus::Blocked,
            StopOutcome::Stopped { errors } => {
                let aborted = exists|i: int|
                    0 <= i < errors@.len() && (#[trigger] errors@[i]).kind is TaskAborted;
                &&& aborted <==> crate::registry::status_is(outcome) == CloseStatus::Aborted
                &&& errors@.len() == 0 <==> crate::registry::status_is(outcome)
                    == CloseStatus::Clean
                &&& !aborted && errors@.len() > 0 <==> crate::registry::status_is(outcome)
                    == CloseStatus::Failed
            },
        },
{
    if outcome is Stopped {
        let errors = outcome->errors@;
        if exists|i: int| 0 <= i < errors.len() && (#[trigger] errors[i]).kind is TaskAborted {
            let i = choose|i: int| 0 <= i < errors.len() && (#[trigger] errors[i]).kind is TaskAborted;
            assert(crate::registry::tells_of_abort(errors[i]));
        }
    }
}

/// The tasks that are named as cancelled are those that an error says were, each as often as one
/// does, in order.
pub proof fn the_cancelled_tasks_are_those_of_the_errors<C>(errors: Seq<Error<C>>)
    ensures
        crate::registry::aborted_ids(errors, errors.len()) == errors.filter(
            |error: Error<C>| error.kind is TaskAborted,
        ).map_values(|error: Error<C>| error.kind->TaskAborted_task_id),
{
    lemma_aborted_ids(errors, errors.len());
    assert(errors.take(errors.len() as int) =~= errors);
}

proof fn lemma_aborted_ids<C>(errors: Seq<Error<C>>, k: nat)
    requires
        k <= errors.len(),
    ensures
        crate::registry::aborted_ids(errors, k) == errors.take(k as int).filter(
            |error: Error<C>| error.kind is TaskAborted,
        ).map_values(|error: Error<C>| error.kind->TaskAborted_task_id),
    decreases k,
{
    let aborted = |error: Error<C>| error.kind is TaskAborted;
    let id = |error: Error<C>| error.kind->TaskAborted_task_id;
    let seen = errors.take(k as int);
    crate::laws::numbers::lemma_filter_step(seen, aborted);
    if k == 0 {
        assert(seen.filter(aborted).map_values(id) =~= Seq::empty());
    } else {
        lemma_aborted_ids(errors, (k - 1) as nat);
        assert(seen.drop_last() =~= errors.take(k - 1));
        if aborted(errors[k - 1]) {
            assert(seen.filter(aborted).map_values(id) =~= seen.drop_last().filter(
                aborted,
            ).map_values(id).push(id(errors[k - 1])));
        }
    }
}

/// What is registered, by name, is what the entries hold: a name is registered exactly where an
/// entry bears it, and what is registered under it is in that entry.
pub proof fn a_name_stands_for_its_entry<P, R>(
    registry: ScopeRegistry<P, R>,
    name: Seq<char>,
    i: int,
)
    requires
        registry.wf(),
    ensures
        registry.slots().contains_key(name) <==> exists|k: int|
            0 <= k < registry.entries@.len() && (#[trigger] registry.entries@[k]).name@ == name,
        0 <= i < registry.entries@.len() ==> registry.slots()[registry.entries@[i].name@]
            == registry.entries@[i].slot,
{
    crate::registry::names_are_the_registered_ones(registry, name);
    if 0 <= i < registry.entries@.len() {
        let mine = registry.entries@[i].name@;
        assert(crate::registry::named_at(registry.entries@, mine, i));
        let k = choose|k: int| #[trigger] crate::registry::named_at(registry.entries@, mine, k);
        assert(crate::registry::named_at(registry.entries@, mine, k));
        if k < i {
            assert(registry.entries@[k].name@ != registry.entries@[i].name@);
        }
        if i < k {
            assert(registry.entries@[i].name@ != registry.entries@[k].name@);
        }
    }
}

/// A name is granted exactly where the registry has its parent, is not shutting down, and nobody
/// holds the name. What others hold stays as it was, and a claim that is refused changes nothing and
/// is told why.
pub proof fn a_claim_takes_a_free_name_and_no_other<P, R, C>(
    before: ScopeRegistry<P, R>,
    name: Seq<char>,
    result: Result<(), RegistryError<C>>,
    after: ScopeRegistry<P, R>,
    other: Seq<char>,
)
    requires
        before.claims(name, result, after),
    ensures
        result is Ok <==> before.parent is Some && !before.shutting_down
            && !before.slots().contains_key(name),
        result is Ok ==> after.slots().contains_key(name) && after.slots()[name]
            == Slot::<R>::Reserved,
        other != name || result is Err ==> {
            &&& after.slots().contains_key(other) == before.slots().contains_key(other)
            &&& before.slots().contains_key(other) ==> after.slots()[other] == before.slots()[other]
        },
        after.parent == before.parent,
        after.shutting_down == before.shutting_down,
        before.parent is None ==> (result matches Err(RegistryError::Unbound)),
        before.parent is Some && before.shutting_down ==> (result matches Err(
            RegistryError::ShuttingDown,
        )),
        before.parent is Some && !before.shutting_down && before.slots().contains_key(name) ==> (
        result matches Err(RegistryError::AlreadyExists(taken)) && taken@ == name),
{
}

/// Who closes a scope gets its owner exactly where the scope is running, or was blocked before; a
/// scope that somebody is making or closing is busy, and one that is not there is not found. The
/// name stays taken meanwhile, and what others hold stays as it was.
pub proof fn one_caller_closes_a_scope<P, R, C>(
    before: ScopeRegistry<P, R>,
    name: Seq<char>,
    result: Result<R, RegistryError<C>>,
    after: ScopeRegistry<P, R>,
    other: Seq<char>,
)
    requires
        before.closing_begins(name, result, after),
    ensures
        !before.slots().contains_key(name) ==> (result matches Err(RegistryError::NotFound(missing))
            && missing@ == name),
        before.slots().contains_key(name) ==> match before.slots()[name] {
            Slot::Running(owner) => result == Ok::<R, RegistryError<C>>(owner),
            Slot::Closing(Some(owner)) => result == Ok::<R, RegistryError<C>>(owner),
            Slot::Closing(None) => result matches Err(RegistryError::Busy(busy)) && busy@ == name,
            Slot::Reserved => result matches Err(RegistryError::Busy(busy)) && busy@ == name,
        },
        result is Ok ==> after.slots().contains_key(name) && after.slots()[name]
            == Slot::<R>::Closing(None),
        other != name || result is Err ==> {
            &&& after.slots().contains_key(other) == before.slots().contains_key(other)
            &&& before.slots().contains_key(other) ==> after.slots()[other] == before.slots()[other]
        },
        after.parent == before.parent,
        after.shutting_down == before.shutting_down,
{
}

/// When the closing of a scope has ended, its name is free, unless its stop was blocked: then its
/// owner is there to be closed again. What others hold stays as it was.
pub proof fn a_closed_scope_gives_its_name_back<P, R, C>(
    before: ScopeRegistry<P, R>,
    name: Seq<char>,
    owner: R,
    outcome: StopOutcome<C>,
    after: ScopeRegistry<P, R>,
    other: Seq<char>,
)
    requires
        before.closing_ends(name, owner, outcome, after),
    ensures
        outcome is Stopped ==> !after.slots().contains_key(name),
        outcome is Blocked ==> after.slots().contains_key(name) && after.slots()[name]
            == Slot::Closing(Some(owner)),
        other != name ==> {
            &&& after.slots().contains_key(other) == before.slots().contains_key(other)
            &&& before.slots().contains_key(other) ==> after.slots()[other] == before.slots()[other]
        },
        after.parent == before.parent,
        after.shutting_down == before.shutting_down,
{
}

/// No scope runs after a claim, or while another is closed, that did not run before.
pub proof fn only_what_ran_goes_on_running<P, R>(
    before: ScopeRegistry<P, R>,
    after: ScopeRegistry<P, R>,
    name: Seq<char>,
)
    requires
        before.nothing_new_runs(after),
        after.slots().contains_key(name),
        after.slots()[name] is Running,
    ensures
        before.slots().contains_key(name),
        before.slots()[name] is Running,
{
}

/// To have a name, to know what is under it and to say that it is claimed all go by the entries.
pub proof fn a_name_is_known_by_its_entry<P, R>(registry: ScopeRegistry<P, R>, name: Seq<char>)
    ensures
        registry.has(name) <==> exists|k: int|
            0 <= k < registry.entries@.len() && (#[trigger] registry.entries@[k]).name@ == name,
        registry.has(name) <==> registry.slots().contains_key(name),
        registry.has(name) ==> registry.slot(name) == registry.slots()[name],
        registry.claimed(name) <==> registry.has(name) && registry.slot(name) is Reserved,
{
    if exists|k: int|
        0 <= k < registry.entries@.len() && (#[trigger] registry.entries@[k]).name@ == name {
        let k = choose|k: int|
            0 <= k < registry.entries@.len() && (#[trigger] registry.entries@[k]).name@ == name;
        assert(crate::registry::named_at(registry.entries@, name, k));
    }
}

} // verus!
