//! What holds of the closing hooks of a scope over its whole life, whatever happens in which order:
//! hooks are registered and taken out, the dispatch begins and hands out its batches, or the scope
//! is abandoned.
//!
//! A hook that is kept is handed out to be run exactly once. One that was taken out before it was
//! handed out, or whose scope was abandoned before, never is.

use std::sync::Arc;

use vstd::prelude::*;

use crate::closing::{CloseDispatch, ClosingEntry, ClosingHooks, DispatchRun, Registration};

verus! {

/// The closing hooks of a scope, and their dispatch if it has begun.
pub struct ClosingState<K, C> {
    pub closing: ClosingHooks<K, C>,
    pub run: Option<DispatchRun<C>>,
}

/// Something that happens to the closing hooks of a scope.
pub enum ClosingStep<K> {
    /// A hook is declared while the scope is being assembled.
    Declare { hook: Arc<K> },
    /// The last declaration is taken back.
    Undeclare,
    /// A hook is registered while the scope lives.
    Register { hook: Arc<K>, depth: u32, registration: Registration },
    /// A hook is taken out.
    Remove { id: usize },
    /// The dispatch is begun, unless it has begun before.
    Begin,
    /// The next batch is asked for.
    Batch { batch: Option<Vec<Arc<K>>> },
    /// The scope is abandoned.
    Settle,
    /// Errors are recorded or collected.
    Account,
}

impl<K, C> ClosingState<K, C> {
    /// Whether a dispatch is under way.
    pub open spec fn live(self) -> bool {
        self.run matches Some(run) && !run.done
    }

    /// Whether the dispatch has handed out its last batch.
    pub open spec fn done(self) -> bool {
        self.run matches Some(run) && run.done
    }

    /// Whether the hooks that are registered, and how far the dispatch has come, are as in `before`.
    pub open spec fn same_hooks(self, before: Self) -> bool {
        &&& self.closing.hooks@ == before.closing.hooks@
        &&& self.closing.next_id == before.closing.next_id
        &&& self.closing.dispatch == before.closing.dispatch
        &&& self.closing.dispatched_upto == before.closing.dispatched_upto
        &&& self.live() == before.live()
        &&& self.done() == before.done()
    }

    /// Whether `step` leads from this state to `after`. Hooks are declared before the dispatch, and
    /// a scope is not abandoned while its dispatch is under way.
    pub open spec fn leads(self, step: ClosingStep<K>, after: Self) -> bool {
        match step {
            ClosingStep::Declare { hook } => {
                &&& self.closing.dispatch == CloseDispatch::NotStarted
                &&& self.closing.declared(hook, after.closing)
                &&& after.run == self.run
            },
            ClosingStep::Undeclare => {
                &&& self.closing.undeclared(after.closing)
                &&& after.run == self.run
            },
            ClosingStep::Register { hook, depth, registration } => {
                &&& self.closing.registered(hook, depth, registration, after.closing)
                &&& after.run == self.run
            },
            ClosingStep::Remove { id } => {
                &&& self.closing.removed(id, after.closing)
                &&& after.run == self.run
            },
            ClosingStep::Begin => if self.closing.dispatch == CloseDispatch::NotStarted {
                &&& after.closing == (ClosingHooks {
                    dispatch: CloseDispatch::Dispatching,
                    ..self.closing
                })
                &&& after.run matches Some(run) && run.round == 0 && !run.done && run.errors@.len()
                    == 0
            } else {
                after == self
            },
            ClosingStep::Batch { batch } => {
                &&& self.run matches Some(run) && after.run matches Some(run_after)
                    && self.closing.batched(run, batch, after.closing, run_after)
            },
            ClosingStep::Settle => {
                &&& !self.live()
                &&& after.closing == (ClosingHooks {
                    dispatch: CloseDispatch::Dispatched,
                    ..self.closing
                })
                &&& after.run == self.run
            },
            ClosingStep::Account => after.same_hooks(self),
        }
    }

    /// The entries that `step` hands out to be run: a hook that is registered when the dispatch is
    /// over, or those of a batch.
    pub open spec fn hands_out(self, step: ClosingStep<K>) -> Seq<ClosingEntry<K>> {
        match step {
            ClosingStep::Register { hook, depth, registration } => if registration.run_now {
                seq![ClosingEntry { id: self.closing.next_id, hook }]
            } else {
                Seq::empty()
            },
            ClosingStep::Batch { batch } => if self.live() {
                self.closing.waiting()
            } else {
                Seq::empty()
            },
            _ => Seq::empty(),
        }
    }

    /// Whether `step` puts `hook` into the table.
    pub open spec fn takes_in(self, step: ClosingStep<K>, hook: Arc<K>) -> bool {
        match step {
            ClosingStep::Declare { hook: declared } => declared == hook,
            ClosingStep::Register { hook: registered, depth, registration } => registered == hook
                && !self.closing.refuses(depth),
            _ => false,
        }
    }

    /// How the dispatch and what it has come to belong together.
    spec fn consistent(self) -> bool {
        &&& self.live() <==> self.closing.dispatch == CloseDispatch::Dispatching
        &&& self.done() ==> self.closing.dispatch == CloseDispatch::Dispatched
    }
}

/// Whether `states` are what a scope's closing hooks go through from the beginning, where the `k`-th
/// of `steps` leads from the `k`-th state to the next.
pub open spec fn history<K, C>(
    states: Seq<ClosingState<K, C>>,
    steps: Seq<ClosingStep<K>>,
) -> bool {
    &&& states.len() == steps.len() + 1
    &&& states[0].closing.fresh()
    &&& states[0].run is None
    &&& forall|k: int| 0 <= k < states.len() ==> (#[trigger] states[k]).closing.wf()
    &&& forall|k: int|
        0 <= k < steps.len() ==> states[k].leads(#[trigger] steps[k], states[k + 1])
}

proof fn lemma_without_members<K>(hooks: Seq<ClosingEntry<K>>, id: usize)
    ensures
        forall|entry: ClosingEntry<K>| #[trigger]
            crate::closing::without(hooks, id).contains(entry) ==> hooks.contains(entry),
    decreases hooks.len(),
{
    let rest = crate::closing::without(hooks, id);
    if hooks.len() > 0 {
        let front = hooks.drop_last();
        lemma_without_members(front, id);
        let before = crate::closing::without(front, id);
        assert forall|entry: ClosingEntry<K>| #[trigger] rest.contains(entry) implies hooks.contains(
            entry,
        ) by {
            let i = choose|i: int| 0 <= i < rest.len() && rest[i] == entry;
            if i < before.len() {
                assert(before[i] == entry);
                assert(before.contains(entry));
                let j = choose|j: int| 0 <= j < front.len() && front[j] == entry;
                assert(hooks[j] == entry);
            } else {
                assert(hooks[hooks.len() - 1] == entry);
            }
        }
    }
}

/// One step: ids only grow, what was handed out stays so, the end of the dispatch is final, and
/// nothing comes into the table but a new entry.
proof fn lemma_step<K, C>(
    before: ClosingState<K, C>,
    step: ClosingStep<K>,
    after: ClosingState<K, C>,
)
    requires
        before.leads(step, after),
        before.consistent(),
    ensures
        after.consistent(),
        before.closing.next_id <= after.closing.next_id,
        forall|id: usize| #[trigger]
            before.closing.handed_out(id) ==> after.closing.handed_out(id),
        before.closing.dispatch == CloseDispatch::Dispatched ==> after.closing.dispatch
            == CloseDispatch::Dispatched,
        forall|entry: ClosingEntry<K>| #[trigger]
            after.closing.hooks@.contains(entry) ==> before.closing.hooks@.contains(entry)
                || entry.id == before.closing.next_id && before.closing.next_id
                < after.closing.next_id,
{
    let old_hooks = before.closing.hooks@;
    let new_hooks = after.closing.hooks@;
    assert forall|entry: ClosingEntry<K>| #[trigger]
        new_hooks.contains(entry) implies old_hooks.contains(entry) || entry.id
        == before.closing.next_id && before.closing.next_id < after.closing.next_id by {
        let i = choose|i: int| 0 <= i < new_hooks.len() && new_hooks[i] == entry;
        match step {
            ClosingStep::Remove { id } => {
                lemma_without_members(old_hooks, id);
            },
            _ => {
                if i < old_hooks.len() {
                    assert(old_hooks[i] == entry);
                }
            },
        }
    }
}

/// What holds of the `b`-th state, given what holds of the `a`-th.
proof fn lemma_onwards<K, C>(
    states: Seq<ClosingState<K, C>>,
    steps: Seq<ClosingStep<K>>,
    a: int,
    b: int,
)
    requires
        history(states, steps),
        0 <= a <= b < states.len(),
    ensures
        states[b].consistent(),
        states[a].closing.next_id <= states[b].closing.next_id,
        forall|id: usize| #[trigger]
            states[a].closing.handed_out(id) ==> states[b].closing.handed_out(id),
        states[a].closing.dispatch == CloseDispatch::Dispatched ==> states[b].closing.dispatch
            == CloseDispatch::Dispatched,
        forall|entry: ClosingEntry<K>| #[trigger]
            states[b].closing.hooks@.contains(entry) ==> states[a].closing.hooks@.contains(entry)
                || entry.id >= states[a].closing.next_id,
    decreases b,
{
    if b == 0 {
    } else if a < b {
        lemma_onwards(states, steps, a, b - 1);
        assert(states[b - 1].leads(steps[b - 1], states[b - 1 + 1]));
        lemma_step(states[b - 1], steps[b - 1], states[b]);
        assert forall|entry: ClosingEntry<K>| #[trigger]
            states[b].closing.hooks@.contains(entry) implies states[a].closing.hooks@.contains(entry)
            || entry.id >= states[a].closing.next_id by {}
    } else {
        lemma_onwards(states, steps, 0, b - 1);
        assert(states[b - 1].leads(steps[b - 1], states[b - 1 + 1]));
        lemma_step(states[b - 1], steps[b - 1], states[b]);
    }
}

/// What is handed out in a step is either a new entry, when the dispatch is over, or in the table
/// and not handed out before; and it is handed out then.
proof fn lemma_handed<K, C>(
    states: Seq<ClosingState<K, C>>,
    steps: Seq<ClosingStep<K>>,
    k: int,
    i: int,
)
    requires
        history(states, steps),
        0 <= k < steps.len(),
        0 <= i < states[k].hands_out(steps[k]).len(),
    ensures
        ({
            let entry = states[k].hands_out(steps[k])[i];
            &&& entry.id < states[k + 1].closing.next_id
            &&& steps[k] is Register ==> entry.id == states[k].closing.next_id
                && states[k].closing.dispatch == CloseDispatch::Dispatched
                && states[k].hands_out(steps[k]).len() == 1
            &&& !(steps[k] is Register) ==> states[k].live() && entry.id < states[k].closing.next_id
                && states[k].closing.hooks@.contains(entry) && !states[k].closing.handed_out(
                entry.id,
            ) && states[k + 1].closing.handed_out(entry.id)
        }),
{
    let entry = states[k].hands_out(steps[k])[i];
    assert(states[k].leads(steps[k], states[k + 1]));
    assert(states[k].closing.wf() && states[k + 1].closing.wf());
    match steps[k] {
        ClosingStep::Register { hook, depth, registration } => {
            assert(registration.run_now);
        },
        ClosingStep::Batch { batch } => {
            crate::closing::waiting_hooks_are_those_not_handed_out(states[k].closing);
            assert(states[k].closing.waiting().contains(entry));
            assert(states[k].closing.hooks@.contains(entry));
            let j = choose|j: int|
                0 <= j < states[k].closing.hooks@.len() && states[k].closing.hooks@[j] == entry;
            assert(states[k + 1].closing.hooks@[j] == entry);
            crate::closing::nothing_waiting_means_all_handed_out(states[k + 1].closing, j);
        },
        _ => {},
    }
}

/// A hook is handed out at most once: what is handed out under one id, in one place or two, is
/// handed out in one step, in one place.
pub proof fn no_hook_is_handed_out_twice<K, C>(
    states: Seq<ClosingState<K, C>>,
    steps: Seq<ClosingStep<K>>,
    a: int,
    i: int,
    b: int,
    j: int,
)
    requires
        history(states, steps),
        0 <= a < steps.len(),
        0 <= i < states[a].hands_out(steps[a]).len(),
        0 <= b < steps.len(),
        0 <= j < states[b].hands_out(steps[b]).len(),
        states[a].hands_out(steps[a])[i].id == states[b].hands_out(steps[b])[j].id,
    ensures
        a == b,
        i == j,
{
    lemma_handed(states, steps, a, i);
    lemma_handed(states, steps, b, j);
    if a < b {
        lemma_one_later(states, steps, a, i, b, j);
    } else if b < a {
        lemma_one_later(states, steps, b, j, a, i);
    } else {
        match steps[a] {
            ClosingStep::Batch { batch } => {
                assert(states[a].closing.wf());
                crate::closing::waiting_hooks_are_those_not_handed_out(states[a].closing);
                let waiting = states[a].closing.waiting();
                assert(waiting[i].id == waiting[j].id);
            },
            _ => {},
        }
    }
}

proof fn lemma_one_later<K, C>(
    states: Seq<ClosingState<K, C>>,
    steps: Seq<ClosingStep<K>>,
    a: int,
    i: int,
    b: int,
    j: int,
)
    requires
        history(states, steps),
        0 <= a < b < steps.len(),
        0 <= i < states[a].hands_out(steps[a]).len(),
        0 <= j < states[b].hands_out(steps[b]).len(),
    ensures
        states[a].hands_out(steps[a])[i].id != states[b].hands_out(steps[b])[j].id,
{
    let id = states[a].hands_out(steps[a])[i].id;
    lemma_handed(states, steps, a, i);
    lemma_handed(states, steps, b, j);
    lemma_onwards(states, steps, a, a + 1);
    lemma_onwards(states, steps, a + 1, b);
    if steps[a] is Register {
        assert(states[b].closing.dispatch == CloseDispatch::Dispatched);
    } else {
        assert(states[a + 1].closing.handed_out(id));
        assert(states[b].closing.handed_out(id));
    }
}

/// A hook that is not in the table any more, or was never taken into it, is not handed out from then
/// on. So a hook that is taken out before the dispatch begins never runs.
pub proof fn a_hook_taken_out_is_not_handed_out<K, C>(
    states: Seq<ClosingState<K, C>>,
    steps: Seq<ClosingStep<K>>,
    id: usize,
    from: int,
    k: int,
    i: int,
)
    requires
        history(states, steps),
        0 <= from <= k < steps.len(),
        id < states[from].closing.next_id,
        forall|n: int|
            0 <= n < states[from].closing.hooks@.len() ==> (
            #[trigger] states[from].closing.hooks@[n]).id != id,
        0 <= i < states[k].hands_out(steps[k]).len(),
    ensures
        states[k].hands_out(steps[k])[i].id != id,
{
    lemma_handed(states, steps, k, i);
    lemma_onwards(states, steps, from, k);
    let entry = states[k].hands_out(steps[k])[i];
    if entry.id == id && !(steps[k] is Register) {
        assert(states[k].closing.hooks@.contains(entry));
        assert(states[from].closing.hooks@.contains(entry));
        let n = choose|n: int|
            0 <= n < states[from].closing.hooks@.len() && states[from].closing.hooks@[n] == entry;
        assert(states[from].closing.hooks@[n].id == id);
    }
}

/// Once the dispatch is over, nothing that was registered before is handed out any more. So where a
/// scope is abandoned before its dispatch has begun, none of the hooks that it has then ever runs.
pub proof fn a_hook_left_at_the_end_is_not_handed_out<K, C>(
    states: Seq<ClosingState<K, C>>,
    steps: Seq<ClosingStep<K>>,
    id: usize,
    from: int,
    k: int,
    i: int,
)
    requires
        history(states, steps),
        0 <= from <= k < steps.len(),
        id < states[from].closing.next_id,
        states[from].closing.dispatch == CloseDispatch::Dispatched,
        0 <= i < states[k].hands_out(steps[k]).len(),
    ensures
        states[k].hands_out(steps[k])[i].id != id,
{
    lemma_handed(states, steps, k, i);
    lemma_onwards(states, steps, from, k);
}

/// Whether `entry` is handed out in one of the steps from `from` up to `to`.
spec fn handed_between<K, C>(
    states: Seq<ClosingState<K, C>>,
    steps: Seq<ClosingStep<K>>,
    entry: ClosingEntry<K>,
    from: int,
    to: int,
) -> bool {
    exists|k: int|
        from <= k < to && (#[trigger] states[k].hands_out(steps[k])).contains(entry)
}

proof fn lemma_kept<K, C>(
    states: Seq<ClosingState<K, C>>,
    steps: Seq<ClosingStep<K>>,
    hook: Arc<K>,
    r: int,
    k: int,
)
    requires
        history(states, steps),
        0 <= r < k < states.len(),
        states[r].takes_in(steps[r], hook),
        forall|n: int|
            r < n <= k ==> (#[trigger] states[n]).closing.hooks@.contains(
                ClosingEntry { id: states[r].closing.next_id, hook },
            ),
    ensures
        ({
            let entry = ClosingEntry { id: states[r].closing.next_id, hook };
            ||| handed_between(states, steps, entry, r, k)
            ||| states[k].closing.dispatch != CloseDispatch::Dispatched
                && !states[k].closing.handed_out(entry.id)
            ||| states[k].closing.dispatch == CloseDispatch::Dispatched && states[k].run is None
        }),
        states[r].closing.dispatch == CloseDispatch::Dispatched ==> handed_between(
            states,
            steps,
            ClosingEntry { id: states[r].closing.next_id, hook },
            r,
            k,
        ),
    decreases k,
{
    let entry = ClosingEntry { id: states[r].closing.next_id, hook };
    assert(states[k - 1].leads(steps[k - 1], states[k - 1 + 1]));
    lemma_onwards(states, steps, 0, k - 1);
    lemma_onwards(states, steps, 0, k);
    assert(states[r].closing.wf());
    if k == r + 1 {
        if states[r].closing.dispatch == CloseDispatch::Dispatched {
            assert(states[r].hands_out(steps[r]) == seq![entry]);
            assert(states[r].hands_out(steps[r])[0] == entry);
            assert(states[r].hands_out(steps[r]).contains(entry));
        }
    } else {
        lemma_kept(states, steps, hook, r, k - 1);
        if handed_between(states, steps, entry, r, k - 1) {
            let n = choose|n: int|
                r <= n < k - 1 && (#[trigger] states[n].hands_out(steps[n])).contains(entry);
            assert(states[n].hands_out(steps[n]).contains(entry));
        } else if steps[k - 1] is Batch && states[k - 1].live() {
            assert(states[k - 1].closing.wf());
            crate::closing::waiting_hooks_are_those_not_handed_out(states[k - 1].closing);
            assert(states[k - 1].closing.hooks@.contains(entry));
            assert(states[k - 1].hands_out(steps[k - 1]).contains(entry));
        }
    }
}

/// A hook that was taken into the table and is kept there until the dispatch has handed out its last
/// batch is handed out exactly once: with one of the batches, or, where it was registered after the
/// last one, at once. A hook that is registered when the dispatch is over, for whatever reason, is
/// handed out at once.
pub proof fn a_kept_hook_is_handed_out_exactly_once<K, C>(
    states: Seq<ClosingState<K, C>>,
    steps: Seq<ClosingStep<K>>,
    hook: Arc<K>,
    r: int,
)
    requires
        history(states, steps),
        0 <= r < steps.len(),
        states[r].takes_in(steps[r], hook),
        states[r].closing.dispatch == CloseDispatch::Dispatched || states.last().done(),
        forall|n: int|
            r < n < states.len() ==> (#[trigger] states[n]).closing.hooks@.contains(
                ClosingEntry { id: states[r].closing.next_id, hook },
            ),
    ensures
        ({
            let entry = ClosingEntry { id: states[r].closing.next_id, hook };
            exists|k: int, i: int|
                {
                    &&& r <= k < steps.len()
                    &&& 0 <= i < states[k].hands_out(steps[k]).len()
                    &&& (#[trigger] states[k].hands_out(steps[k])[i]) == entry
                    &&& forall|b: int, j: int|
                        0 <= b < steps.len() && 0 <= j < states[b].hands_out(steps[b]).len() && (
                        #[trigger] states[b].hands_out(steps[b])[j]).id == entry.id ==> b == k && j
                            == i
                }
        }),
        states[r].closing.dispatch == CloseDispatch::Dispatched ==> states[r].hands_out(steps[r])
            == seq![ClosingEntry { id: states[r].closing.next_id, hook }],
{
    let entry = ClosingEntry { id: states[r].closing.next_id, hook };
    let last = steps.len() as int;
    assert(states.last() == states[last]);
    assert(states[r].leads(steps[r], states[r + 1]));
    lemma_onwards(states, steps, 0, last);
    lemma_kept(states, steps, hook, r, last);
    assert(handed_between(states, steps, entry, r, last));
    let k = choose|k: int|
        r <= k < last && (#[trigger] states[k].hands_out(steps[k])).contains(entry);
    let handed = states[k].hands_out(steps[k]);
    let i = choose|i: int| 0 <= i < handed.len() && handed[i] == entry;
    assert(states[k].hands_out(steps[k])[i] == entry);
    assert forall|b: int, j: int|
        0 <= b < steps.len() && 0 <= j < states[b].hands_out(steps[b]).len() && (
        #[trigger] states[b].hands_out(steps[b])[j]).id == entry.id implies b == k && j == i by {
        no_hook_is_handed_out_twice(states, steps, b, j, k, i);
    }
}

} // verus!
