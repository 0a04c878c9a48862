//! Where a scope is in its life.

use vstd::prelude::*;

use crate::id::ScopeId;
use crate::scope::{Lifecycle, ScopeCore, Settlement};

verus! {

/// A scope takes new work until its stop is committed, and never again: not while it waits for its
/// children, not while it is cleaned up, not when it is stopped. A start that failed commits to
/// nothing.
pub proof fn a_scope_takes_work_until_it_closes(life: Lifecycle)
    ensures
        !life.shutting_down() <==> life == Lifecycle::Built || life == Lifecycle::Starting || life
            == Lifecycle::Running || life == Lifecycle::Failed,
{
}

/// A stop goes from closing to cleaning up to its end. Each is further than the one before it, and
/// all are further than a scope that takes work.
pub proof fn a_stop_goes_on_in_this_order(life: Lifecycle)
    ensures
        Lifecycle::Closing.stop_progress() < Lifecycle::Stopping.stop_progress(),
        Lifecycle::Stopping.stop_progress() < Lifecycle::Stopped.stop_progress(),
        life == Lifecycle::Closing || life == Lifecycle::Stopping || life == Lifecycle::Stopped
            <==> life.stop_progress() > 0,
{
}

/// The bits of the tag say, from the lowest, whether the scope takes no new work, whether it is
/// stopped, whether a stop was requested and whether it was abandoned.
pub proof fn the_tag_tells_the_state<W>(core: ScopeCore<W>)
    requires
        core.wf(),
    ensures
        core.tag & 1 != 0 <==> core.lifecycle == Lifecycle::Closing || core.lifecycle
            == Lifecycle::Stopping || core.lifecycle == Lifecycle::Stopped,
        core.tag & 2 != 0 <==> core.lifecycle == Lifecycle::Stopped,
        core.tag & 4 != 0 <==> core.requested,
        core.tag & 8 != 0 <==> core.abandoned,
{
    crate::scope::tag_holds_each_flag(
        core.lifecycle.shutting_down(),
        core.lifecycle == Lifecycle::Stopped,
        core.requested,
        core.abandoned,
    );
}

/// A scope that was dropped before its stop was complete has come to rest as abandoned, whatever
/// its life cycle says, and no other has.
pub proof fn an_abandoned_scope_is_told_as_such<W>(core: ScopeCore<W>)
    ensures
        core.abandoned <==> core.settlement_is() == Settlement::Abandoned,
        !core.abandoned <==> core.settlement_is() == Settlement::Stopped,
{
}

/// A scope holds a lease exactly where it is among the children, where it stands once.
pub proof fn a_lease_is_held_once<W>(core: ScopeCore<W>, child: ScopeId, i: int, j: int)
    requires
        core.wf(),
    ensures
        core.leases().contains(child) <==> exists|k: int|
            0 <= k < core.children@.len() && #[trigger] core.children@[k] == child,
        0 <= i < j < core.children@.len() ==> core.children@[i].0 < core.children@[j].0,
        core.leases().len() == core.children@.len(),
{
    assert(core.children@.no_duplicates()) by {
        assert forall|a: int, b: int|
            0 <= a < core.children@.len() && 0 <= b < core.children@.len() && a
                != b implies core.children@[a] != core.children@[b] by {
            if a < b {
                assert(core.children@[a].0 < core.children@[b].0);
            } else {
                assert(core.children@[b].0 < core.children@[a].0);
            }
        }
    }
    core.children@.unique_seq_to_set();
}

/// Where the life of a scope is said to be the same, its life cycle is, and whether a stop was
/// requested, and whether it was abandoned; where its signals are, both are.
pub proof fn the_same_life_is_the_same_in_all<W>(before: ScopeCore<W>, after: ScopeCore<W>)
    ensures
        after.same_life(before) <==> after.lifecycle == before.lifecycle && after.requested
            == before.requested && after.abandoned == before.abandoned,
        after.same_signals(before) <==> after.cancellation == before.cancellation && after.settled
            == before.settled,
{
}

} // verus!
