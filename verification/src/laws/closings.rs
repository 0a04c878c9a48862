//! Which closing hooks run, and when.

use std::sync::Arc;

use vstd::prelude::*;

use crate::closing::{CloseDispatch, ClosingEntry, ClosingHooks, DispatchRun, Registration};
use crate::error::{Error, ErrorKind, Phase};

verus! {

/// The hooks that wait are those whose ids lie above every id that was handed out, in the order of
/// registration; before anything was handed out they are all that are registered.
pub proof fn what_was_not_handed_out_waits<K, C>(closing: ClosingHooks<K, C>)
    ensures
        closing.waiting() == closing.hooks@.filter(
            |entry: ClosingEntry<K>|
                closing.dispatched_upto is None || entry.id > closing.dispatched_upto->0,
        ),
        closing.pending() == closing.hooks@.filter(
            |entry: ClosingEntry<K>|
                closing.dispatched_upto is None || entry.id > closing.dispatched_upto->0,
        ).map_values(|entry: ClosingEntry<K>| entry.hook),
{
    lemma_above(closing.hooks@, closing.dispatched_upto);
    let late = |entry: ClosingEntry<K>|
        closing.dispatched_upto is None || entry.id > closing.dispatched_upto->0;
    assert(closing.pending() =~= closing.hooks@.filter(late).map_values(
        |entry: ClosingEntry<K>| entry.hook,
    ));
}

proof fn lemma_above<K>(hooks: Seq<ClosingEntry<K>>, upto: Option<usize>)
    ensures
        crate::closing::above(hooks, upto) == hooks.filter(
            |entry: ClosingEntry<K>| upto is None || entry.id > upto->0,
        ),
    decreases hooks.len(),
{
    let late = |entry: ClosingEntry<K>| upto is None || entry.id > upto->0;
    crate::laws::numbers::lemma_filter_step(hooks, late);
    if hooks.len() > 0 {
        lemma_above(hooks.drop_last(), upto);
    }
}

/// Taking out a hook leaves all the others, in order, and touches nothing else.
pub proof fn taking_out_a_hook_leaves_the_others<K, C>(
    before: ClosingHooks<K, C>,
    id: usize,
    after: ClosingHooks<K, C>,
)
    requires
        before.removed(id, after),
    ensures
        after.hooks@ == before.hooks@.filter(|entry: ClosingEntry<K>| entry.id != id),
        after.next_id == before.next_id,
        after.dispatch == before.dispatch,
        after.dispatched_upto == before.dispatched_upto,
        after.chained == before.chained,
        after.cutoff_reported == before.cutoff_reported,
        after.errors@ == before.errors@,
{
    lemma_without(before.hooks@, id);
}

proof fn lemma_without<K>(hooks: Seq<ClosingEntry<K>>, id: usize)
    ensures
        crate::closing::without(hooks, id) == hooks.filter(
            |entry: ClosingEntry<K>| entry.id != id,
        ),
    decreases hooks.len(),
{
    crate::laws::numbers::lemma_filter_step(hooks, |entry: ClosingEntry<K>| entry.id != id);
    if hooks.len() > 0 {
        lemma_without(hooks.drop_last(), id);
    }
}

/// A registration is refused exactly where 4096 were made out of hooks or after the dispatch began,
/// and this is another one, or where it would run at once out of hooks nested 16 deep. A refused hook
/// is neither kept nor run, and one error says so for all of them. Any other hook is kept, and runs
/// at once exactly where the dispatch is over.
pub proof fn a_registration_is_kept_within_the_bounds<K, C>(
    before: ClosingHooks<K, C>,
    hook: Arc<K>,
    depth: u32,
    registration: Registration,
    after: ClosingHooks<K, C>,
)
    requires
        before.registered(hook, depth, registration, after),
    ensures
        ({
            let late = before.dispatch != CloseDispatch::NotStarted;
            let over = before.dispatch == CloseDispatch::Dispatched;
            let refused = ((depth > 0 || late) && before.chained >= 4096) || (over && depth >= 16);
            &&& refused <==> after.hooks@ == before.hooks@
            &&& !refused ==> {
                &&& after.hooks@ == before.hooks@.push(ClosingEntry { id: before.next_id, hook })
                &&& registration.run_now == over
                &&& after.chained == before.chained + if depth > 0 || late {
                    1int
                } else {
                    0
                }
                &&& after.cutoff_reported == before.cutoff_reported
                &&& after.errors@ == before.errors@
            }
            &&& refused ==> {
                &&& !registration.run_now
                &&& after.chained == before.chained
                &&& after.cutoff_reported
                &&& before.cutoff_reported ==> after.errors@ == before.errors@
                &&& !before.cutoff_reported ==> {
                    &&& after.errors@.len() == before.errors@.len() + 1
                    &&& after.errors@.drop_last() == before.errors@
                    &&& after.errors@.last().phase == Phase::Close
                    &&& after.errors@.last().kind is CloseHookDispatchOverflow
                    &&& after.errors@.last().plugin is None
                    &&& after.errors@.last().source is None
                }
            }
        }),
        registration.id == before.next_id,
        after.next_id == before.next_id + 1,
        after.dispatch == before.dispatch,
        after.dispatched_upto == before.dispatched_upto,
{
    assert(after.hooks@ == before.hooks@.push(ClosingEntry { id: before.next_id, hook })
        ==> after.hooks@.len() != before.hooks@.len());
    if before.refuses(depth) && !before.cutoff_reported {
        assert(after.errors@.drop_last() =~= before.errors@);
    }
}

/// A batch holds all the hooks that wait, in the order of registration, and none waits then. The
/// dispatch is over when nothing waited or 16 rounds were handed out before. Where hooks waited even
/// then, one error says so, and no hook that was handed out is so again.
pub proof fn a_batch_holds_all_that_wait<K, C>(
    before: ClosingHooks<K, C>,
    run: DispatchRun<C>,
    batch: Option<Vec<Arc<K>>>,
    after: ClosingHooks<K, C>,
    run_after: DispatchRun<C>,
)
    requires
        before.batched(run, batch, after, run_after),
    ensures
        ({
            let waiting = before.hooks@.filter(
                |entry: ClosingEntry<K>|
                    before.dispatched_upto is None || entry.id > before.dispatched_upto->0,
            );
            let last = run.round == 16 || waiting.len() == 0;
            &&& batch is None <==> run.done
            &&& run.done ==> run_after == run && after == before
            &&& !run.done ==> {
                &&& batch matches Some(batch) && batch@ == waiting.map_values(
                    |entry: ClosingEntry<K>| entry.hook,
                )
                &&& forall|i: int|
                    0 <= i < after.hooks@.len() ==> after.dispatched_upto is Some && (
                    #[trigger] after.hooks@[i]).id <= after.dispatched_upto->0
                &&& run_after.done == last
                &&& last ==> after.dispatch == CloseDispatch::Dispatched
                &&& !last ==> after.dispatch == before.dispatch && run_after.round == run.round + 1
                &&& after.cutoff_reported == (before.cutoff_reported || (last && waiting.len() > 0))
                &&& !(last && waiting.len() > 0 && !before.cutoff_reported) ==> run_after.errors@
                    == run.errors@
                &&& last && waiting.len() > 0 && !before.cutoff_reported ==> {
                    &&& run_after.errors@.len() == run.errors@.len() + 1
                    &&& run_after.errors@.drop_last() == run.errors@
                    &&& run_after.errors@.last().phase == Phase::Close
                    &&& run_after.errors@.last().kind is CloseHookDispatchOverflow
                    &&& run_after.errors@.last().plugin is None
                    &&& run_after.errors@.last().source is None
                }
            }
        }),
        after.hooks@ == before.hooks@,
        after.next_id == before.next_id,
        after.chained == before.chained,
        after.errors@ == before.errors@,
        before.dispatched_upto matches Some(upto) ==> after.dispatched_upto is Some
            && after.dispatched_upto->0 >= upto,
{
    what_was_not_handed_out_waits(before);
    what_was_not_handed_out_waits(after);
    if before.dispatched_upto is Some {
        assert(before.handed_out(before.dispatched_upto->0));
        assert(after.handed_out(before.dispatched_upto->0));
    }
    if !run.done {
        let late = |entry: ClosingEntry<K>|
            after.dispatched_upto is None || entry.id > after.dispatched_upto->0;
        crate::laws::numbers::lemma_filter_members(after.hooks@, late);
        assert forall|i: int| 0 <= i < after.hooks@.len() implies after.dispatched_upto is Some && (
        #[trigger] after.hooks@[i]).id <= after.dispatched_upto->0 by {
            if late(after.hooks@[i]) {
                assert(after.hooks@.contains(after.hooks@[i]));
                assert(after.waiting().contains(after.hooks@[i]));
            }
        }
        assert(run_after.errors@.len() > run.errors@.len() ==> run_after.errors@.drop_last()
            =~= run.errors@);
    }
}

/// A declaration is the last in the table, under the next id, and taking it back leaves the table as
/// it was before it; the id is not used again.
pub proof fn a_declaration_can_be_taken_back<K, C>(
    before: ClosingHooks<K, C>,
    hook: Arc<K>,
    declared: ClosingHooks<K, C>,
    after: ClosingHooks<K, C>,
)
    requires
        before.declared(hook, declared),
        declared.undeclared(after),
    ensures
        declared.hooks@ == before.hooks@.push(ClosingEntry { id: before.next_id, hook }),
        after.hooks@ == before.hooks@,
        declared.next_id == before.next_id + 1,
        after.next_id == declared.next_id,
        after.dispatch == before.dispatch,
        after.dispatched_upto == before.dispatched_upto,
        after.chained == before.chained,
        after.cutoff_reported == before.cutoff_reported,
        after.errors@ == before.errors@,
        declared.dispatch == before.dispatch,
        declared.dispatched_upto == before.dispatched_upto,
        declared.chained == before.chained,
        declared.cutoff_reported == before.cutoff_reported,
        declared.errors@ == before.errors@,
{
    assert(after.hooks@ =~= before.hooks@);
}

/// In a new table nothing is registered, handed out or reported, and no dispatch has begun.
pub proof fn a_fresh_table_is_empty<K, C>(closing: ClosingHooks<K, C>)
    requires
        closing.fresh(),
    ensures
        closing.hooks@.len() == 0,
        closing.next_id == 0,
        closing.dispatch == CloseDispatch::NotStarted,
        closing.dispatched_upto is None,
        closing.chained == 0,
        !closing.cutoff_reported,
        closing.errors@.len() == 0,
{
}

/// A hook that panicked is an error of the phase of closing, which holds the panic's message.
pub proof fn a_panic_in_a_hook_is_told<C>(message: Option<String>)
    ensures
        crate::closing::hook_panic::<C>(message).phase == Phase::Close,
        crate::closing::hook_panic::<C>(message).kind matches ErrorKind::LifecyclePanicked {
            message: told,
        } && told == message,
        crate::closing::hook_panic::<C>(message).plugin is None,
        crate::closing::hook_panic::<C>(message).source is None,
{
}

} // verus!
