//! The hooks that run when a scope begins to close.
//!
//! A hook may register further hooks while it runs. Every hook that is kept runs exactly once: with
//! one of the batches, or, once the last batch was handed out, at once. Three bounds keep this
//! finite: how many rounds of batches there are, how deep hooks may nest, and how many hooks may
//! be registered out of hooks. Where a bound is hit, one error per scope says so.

use std::sync::Arc;

use vstd::prelude::*;

use crate::error::{Error, ErrorKind, Phase};

verus! {

/// How many rounds of newly registered hooks are run, and how deep hooks may nest.
pub const MAX_CLOSING_HOOK_ROUNDS: u32 = 16;

/// How many hooks may be registered out of hooks, or after the dispatch has begun, per scope.
pub const MAX_CHAINED_CLOSING_HOOKS: u32 = 4096;

/// How far the dispatch of a scope's closing hooks has come.
#[derive(Debug, Clone, Copy, PartialEq, Eq, Structural)]
pub enum CloseDispatch {
    /// It has not begun. Whatever is registered now will be dispatched.
    NotStarted,
    /// It is under way. Whatever is registered now will be in a later batch.
    Dispatching,
    /// It is over, or will never happen. Whatever is registered now must run at once.
    Dispatched,
}

/// A registered hook.
pub struct ClosingEntry<K> {
    pub id: usize,
    pub hook: Arc<K>,
}

/// The closing hooks of a scope, and the errors that running them led to.
pub struct ClosingHooks<K, C> {
    /// The registered hooks, in the order of registration.
    pub hooks: Vec<ClosingEntry<K>>,
    /// The id of the next registration.
    pub next_id: usize,
    pub dispatch: CloseDispatch,
    /// The largest id that was handed out for dispatch.
    pub dispatched_upto: Option<usize>,
    /// How many hooks were registered out of hooks, or after the dispatch had begun.
    pub chained: u32,
    /// Whether it was reported that a bound was hit.
    pub cutoff_reported: bool,
    /// The errors that were not yet collected.
    pub errors: Vec<Error<C>>,
}

/// What becomes of a registration.
pub struct Registration {
    /// The id under which the hook can be taken out again.
    pub id: usize,
    /// Whether the hook must be run now.
    pub run_now: bool,
}

/// One dispatch of a scope's closing hooks.
pub struct DispatchRun<C> {
    /// How many rounds were handed out.
    pub round: u32,
    /// Whether the last batch was handed out.
    pub done: bool,
    /// The errors of the hooks that ran.
    pub errors: Vec<Error<C>>,
}

impl<C> DispatchRun<C> {
    /// How many batches there can still be.
    pub open spec fn batches_left(self) -> int {
        if self.done {
            0
        } else {
            MAX_CLOSING_HOOK_ROUNDS + 1 - self.round
        }
    }

    /// Records the outcome of a hook that has run.
    pub fn record(&mut self, error: Option<Error<C>>)
        ensures
            final(self).round == old(self).round,
            final(self).done == old(self).done,
            final(self).errors@ == match error {
                Some(error) => old(self).errors@.push(error),
                None => old(self).errors@,
            },
    {
        match error {
            Some(error) => {
                self.errors.push(error);
            },
            None => {},
        }
    }
}

/// How deep closing hooks are nested.
pub struct ClosingHookDepth {
    pub depth: u32,
}

impl ClosingHookDepth {
    /// Outside any hook.
    pub fn new() -> (depth: Self)
        ensures
            depth.depth == 0,
    {
        ClosingHookDepth { depth: 0 }
    }

    /// Enters a hook.
    pub fn enter(&mut self)
        requires
            old(self).depth < u32::MAX,
        ensures
            final(self).depth == old(self).depth + 1,
    {
        self.depth = self.depth + 1;
    }

    /// Leaves a hook.
    pub fn leave(&mut self)
        ensures
            final(self).depth == if old(self).depth > 0 {
                (old(self).depth - 1) as u32
            } else {
                0
            },
    {
        if self.depth > 0 {
            self.depth = self.depth - 1;
        }
    }

    /// How deep hooks are nested.
    pub fn current(&self) -> (depth: u32)
        ensures
            depth == self.depth,
    {
        self.depth
    }
}

/// The error of a hook that panicked with the given message.
pub open spec fn hook_panic<C>(message: Option<String>) -> Error<C> {
    Error::plain(Phase::Close, ErrorKind::LifecyclePanicked { message })
}

/// The error that says that a bound was hit.
pub open spec fn overflow<C>() -> Error<C> {
    Error::plain(Phase::Close, ErrorKind::CloseHookDispatchOverflow)
}

/// What running a closing hook led to: an error where it panicked, with the panic's message.
pub fn hook_outcome<C>(panicked: Option<Option<String>>) -> (error: Option<Error<C>>)
    ensures
        error == match panicked {
            Some(message) => Some(hook_panic::<C>(message)),
            None => None,
        },
{
    match panicked {
        Some(message) => Some(Error::new(Phase::Close, ErrorKind::LifecyclePanicked { message })),
        None => None,
    }
}

/// The entries among `hooks` whose ids lie above `upto`, in order.
pub open spec fn above<K>(hooks: Seq<ClosingEntry<K>>, upto: Option<usize>) -> Seq<ClosingEntry<K>>
    decreases hooks.len(),
{
    if hooks.len() == 0 {
        Seq::empty()
    } else {
        let before = above(hooks.drop_last(), upto);
        if upto is None || hooks.last().id > upto->0 {
            before.push(hooks.last())
        } else {
            before
        }
    }
}

/// The hooks of `entries`, in order.
pub open spec fn hooks_of<K>(entries: Seq<ClosingEntry<K>>) -> Seq<Arc<K>> {
    entries.map_values(|entry: ClosingEntry<K>| entry.hook)
}

/// The hooks other than the one with the given id, in order.
pub open spec fn without<K>(hooks: Seq<ClosingEntry<K>>, id: usize) -> Seq<ClosingEntry<K>>
    decreases hooks.len(),
{
    if hooks.len() == 0 {
        Seq::empty()
    } else {
        let before = without(hooks.drop_last(), id);
        if hooks.last().id == id {
            before
        } else {
            before.push(hooks.last())
        }
    }
}

impl<K, C> ClosingHooks<K, C> {
    /// Ids ascend in the order of registration and lie below the next one, and the bound on
    /// chained registrations is kept.
    pub open spec fn wf(self) -> bool {
        &&& forall|i: int, j: int|
            0 <= i < j < self.hooks@.len() ==> (#[trigger] self.hooks@[i]).id < (
            #[trigger] self.hooks@[j]).id
        &&& forall|i: int| 0 <= i < self.hooks@.len() ==> (#[trigger] self.hooks@[i]).id < self.next_id
        &&& self.dispatched_upto matches Some(upto) ==> upto < self.next_id
        &&& self.chained <= MAX_CHAINED_CLOSING_HOOKS
    }

    /// Whether the hook with the given id was handed out for dispatch.
    pub open spec fn handed_out(self, id: usize) -> bool {
        self.dispatched_upto matches Some(upto) && id <= upto
    }

    /// Whether the dispatch and the errors are as in `before`.
    pub open spec fn same_dispatch(self, before: Self) -> bool {
        &&& self.dispatch == before.dispatch
        &&& self.dispatched_upto == before.dispatched_upto
        &&& self.chained == before.chained
        &&& self.cutoff_reported == before.cutoff_reported
        &&& self.errors@ == before.errors@
    }

    /// Whether nothing was registered or dispatched yet.
    pub open spec fn fresh(self) -> bool {
        &&& self.hooks@.len() == 0
        &&& self.next_id == 0
        &&& self.dispatch == CloseDispatch::NotStarted
        &&& self.dispatched_upto is None
        &&& self.chained == 0
        &&& !self.cutoff_reported
        &&& self.errors@.len() == 0
    }

    /// The entries that were not yet handed out.
    pub open spec fn waiting(self) -> Seq<ClosingEntry<K>> {
        above(self.hooks@, self.dispatched_upto)
    }

    /// The hooks that were not yet handed out.
    pub open spec fn pending(self) -> Seq<Arc<K>> {
        hooks_of(self.waiting())
    }

    /// Whether a registration from hooks nested `depth` deep counts as chained.
    pub open spec fn counts(self, depth: u32) -> bool {
        depth > 0 || self.dispatch != CloseDispatch::NotStarted
    }

    /// Whether a registration from hooks nested `depth` deep hits a bound.
    pub open spec fn refuses(self, depth: u32) -> bool {
        ||| self.counts(depth) && self.chained >= MAX_CHAINED_CLOSING_HOOKS
        ||| self.dispatch == CloseDispatch::Dispatched && depth >= MAX_CLOSING_HOOK_ROUNDS
    }

    /// The errors after a bound was hit: the error that says so is added, unless it was before.
    pub open spec fn errors_after_cutoff(self) -> Seq<Error<C>> {
        if self.cutoff_reported {
            self.errors@
        } else {
            self.errors@.push(overflow())
        }
    }

    /// What declaring `hook` leads to: it is the last in the table, under a new id.
    pub open spec fn declared(self, hook: Arc<K>, after: Self) -> bool {
        &&& after.hooks@ == self.hooks@.push(ClosingEntry { id: self.next_id, hook })
        &&& after.next_id == self.next_id + 1
        &&& after.same_dispatch(self)
    }

    /// What taking back the last declaration leads to.
    pub open spec fn undeclared(self, after: Self) -> bool {
        &&& after.hooks@ == if self.hooks@.len() == 0 {
            self.hooks@
        } else {
            self.hooks@.drop_last()
        }
        &&& after.next_id == self.next_id
        &&& after.same_dispatch(self)
    }

    /// What registering `hook` out of hooks nested `depth` deep leads to. Where a bound is hit, the
    /// hook is neither kept nor run, and that is reported once. Else it is the last in the table,
    /// under a new id, and must be run now exactly where the dispatch is over.
    pub open spec fn registered(
        self,
        hook: Arc<K>,
        depth: u32,
        registration: Registration,
        after: Self,
    ) -> bool {
        &&& registration.id == self.next_id
        &&& after.next_id == self.next_id + 1
        &&& after.dispatch == self.dispatch
        &&& after.dispatched_upto == self.dispatched_upto
        &&& self.refuses(depth) ==> {
            &&& !registration.run_now
            &&& after.hooks@ == self.hooks@
            &&& after.chained == self.chained
            &&& after.cutoff_reported
            &&& after.errors@ == self.errors_after_cutoff()
        }
        &&& !self.refuses(depth) ==> {
            &&& registration.run_now == (self.dispatch == CloseDispatch::Dispatched)
            &&& after.hooks@ == self.hooks@.push(ClosingEntry { id: self.next_id, hook })
            &&& after.chained == self.chained + if self.counts(depth) {
                1int
            } else {
                0
            }
            &&& after.cutoff_reported == self.cutoff_reported
            &&& after.errors@ == self.errors@
        }
    }

    /// What taking out the hook with the given id leads to.
    pub open spec fn removed(self, id: usize, after: Self) -> bool {
        &&& after.hooks@ == without(self.hooks@, id)
        &&& after.next_id == self.next_id
        &&& after.same_dispatch(self)
    }

    /// What asking for the next batch of a dispatch leads to. Where the dispatch is over, there is
    /// none. Else the batch holds the hooks that were not yet handed out, and all are handed out
    /// then. It is the last one where there was nothing to hand out or no round is left, which ends
    /// the dispatch; where the last one holds anything, that is reported once.
    pub open spec fn batched(
        self,
        run: DispatchRun<C>,
        batch: Option<Vec<Arc<K>>>,
        after: Self,
        run_after: DispatchRun<C>,
    ) -> bool {
        &&& after.hooks@ == self.hooks@
        &&& after.next_id == self.next_id
        &&& after.chained == self.chained
        &&& after.errors@ == self.errors@
        &&& forall|id: usize| #[trigger] self.handed_out(id) ==> after.handed_out(id)
        &&& batch is None <==> run.done
        &&& run.done ==> run_after == run && after == self
        &&& !run.done ==> {
            &&& batch is Some
            &&& batch->0@ == self.pending()
            &&& after.waiting().len() == 0
            &&& run_after.batches_left() < run.batches_left()
            &&& run_after.done == (run.round == MAX_CLOSING_HOOK_ROUNDS || self.waiting().len() == 0)
            &&& run_after.done ==> after.dispatch == CloseDispatch::Dispatched
            &&& !run_after.done ==> after.dispatch == self.dispatch && run_after.round == run.round
                + 1
            &&& after.cutoff_reported == (self.cutoff_reported || (run_after.done
                && self.waiting().len() > 0))
            &&& run_after.errors@ == if run_after.done && self.waiting().len() > 0
                && !self.cutoff_reported {
                run.errors@.push(overflow())
            } else {
                run.errors@
            }
        }
    }

    /// No hooks yet.
    pub fn new() -> (closing: Self)
        ensures
            closing.wf(),
            closing.fresh(),
    {
        ClosingHooks {
            hooks: Vec::new(),
            next_id: 0,
            dispatch: CloseDispatch::NotStarted,
            dispatched_upto: None,
            chained: 0,
            cutoff_reported: false,
            errors: Vec::new(),
        }
    }

    /// Registers a hook while the scope is being assembled. No bound applies.
    pub fn declare(&mut self, hook: Arc<K>)
        requires
            old(self).wf(),
            old(self).next_id < usize::MAX,
        ensures
            final(self).wf(),
            old(self).declared(hook, *final(self)),
    {
        let id = self.next_id;
        self.next_id = id + 1;
        self.hooks.push(ClosingEntry { id, hook });
    }

    /// Takes back the last hook that was declared. Ids are not used again.
    pub fn undeclare(&mut self)
        requires
            old(self).wf(),
        ensures
            final(self).wf(),
            old(self).undeclared(*final(self)),
    {
        self.hooks.pop();
    }

    /// Registers a hook while the scope lives. `depth` is how deep closing hooks are nested where
    /// this happens: 0 outside any.
    ///
    /// A registration that hits a bound is neither kept nor run. Where the dispatch is over, the
    /// hook is to be run at once.
    pub fn on_closing(&mut self, hook: Arc<K>, depth: u32) -> (registration: Registration)
        requires
            old(self).wf(),
            old(self).next_id < usize::MAX,
        ensures
            final(self).wf(),
            old(self).registered(hook, depth, registration, *final(self)),
    {
        let id = self.next_id;
        self.next_id = id + 1;
        let over_depth = self.dispatch == CloseDispatch::Dispatched && depth
            >= MAX_CLOSING_HOOK_ROUNDS;
        let counts = depth > 0 || self.dispatch != CloseDispatch::NotStarted;
        if (counts && self.chained >= MAX_CHAINED_CLOSING_HOOKS) || over_depth {
            if self.mark_cutoff() {
                self.errors.push(Error::new(Phase::Close, ErrorKind::CloseHookDispatchOverflow));
            }
            Registration { id, run_now: false }
        } else {
            if counts {
                self.chained = self.chained + 1;
            }
            self.hooks.push(ClosingEntry { id, hook });
            Registration { id, run_now: self.dispatch == CloseDispatch::Dispatched }
        }
    }

    /// Takes out the hook with the given id, if it is there.
    pub fn remove(&mut self, id: usize)
        requires
            old(self).wf(),
        ensures
            final(self).wf(),
            old(self).removed(id, *final(self)),
    {
        let ghost before = self.hooks@;
        let mut i: usize = 0;
        let mut found: Option<usize> = None;
        while i < self.hooks.len()
            invariant
                i <= self.hooks@.len(),
                self.hooks@ == before,
                match found {
                    Some(k) => k < i && before[k as int].id == id,
                    None => forall|k: int| 0 <= k < i ==> (#[trigger] before[k]).id != id,
                },
            decreases self.hooks@.len() - i,
        {
            if self.hooks[i].id == id {
                found = Some(i);
            }
            i = i + 1;
        }
        match found {
            Some(k) => {
                proof {
                    lemma_without_one(before, id, k as int);
                }
                self.hooks.remove(k);
                proof {
                    assert forall|a: int, b: int| 0 <= a < b < self.hooks@.len() implies (
                    #[trigger] self.hooks@[a]).id < (#[trigger] self.hooks@[b]).id by {
                        let x = if a < k {
                            a
                        } else {
                            a + 1
                        };
                        let y = if b < k {
                            b
                        } else {
                            b + 1
                        };
                        assert(self.hooks@[a] == before[x]);
                        assert(self.hooks@[b] == before[y]);
                    }
                }
            },
            None => {
                proof {
                    lemma_without_none(before, id);
                }
            },
        }
    }

    /// Records that a bound was hit. Tells whether this was the first time.
    pub fn mark_cutoff(&mut self) -> (first: bool)
        ensures
            first == !old(self).cutoff_reported,
            *final(self) == (ClosingHooks { cutoff_reported: true, ..*old(self) }),
    {
        let first = !self.cutoff_reported;
        self.cutoff_reported = true;
        first
    }

    /// Hands out the hooks that were not yet handed out.
    pub fn take_pending(&mut self) -> (batch: Vec<Arc<K>>)
        requires
            old(self).wf(),
        ensures
            final(self).wf(),
            batch@ == old(self).pending(),
            final(self).waiting().len() == 0,
            forall|id: usize| #[trigger] old(self).handed_out(id) ==> final(self).handed_out(id),
            forall|i: int|
                0 <= i < old(self).hooks@.len() ==> final(self).handed_out(
                    (#[trigger] old(self).hooks@[i]).id,
                ),
            final(self).hooks@ == old(self).hooks@,
            final(self).next_id == old(self).next_id,
            final(self).dispatch == old(self).dispatch,
            final(self).chained == old(self).chained,
            final(self).cutoff_reported == old(self).cutoff_reported,
            final(self).errors@ == old(self).errors@,
    {
        let mut batch: Vec<Arc<K>> = Vec::new();
        let mut upto = self.dispatched_upto;
        let ghost first = self.dispatched_upto;
        let mut i: usize = 0;
        while i < self.hooks.len()
            invariant
                self.wf(),
                i <= self.hooks@.len(),
                first == self.dispatched_upto,
                *self == *old(self),
                batch@ == hooks_of(above(self.hooks@.take(i as int), first)),
                upto is None ==> first is None && i == 0,
                upto matches Some(u) ==> u < self.next_id,
                upto matches Some(u) ==> (first is None || first->0 <= u) && (upto == first || exists|
                    k: int,
                |
                    0 <= k < i && (#[trigger] self.hooks@[k]).id == u),
                forall|k: int|
                    0 <= k < i ==> upto is Some && (#[trigger] self.hooks@[k]).id <= upto->0,
            decreases self.hooks@.len() - i,
        {
            let entry = &self.hooks[i];
            assert(self.hooks@.take(i as int + 1).drop_last() =~= self.hooks@.take(i as int));
            let fresh = match upto {
                None => true,
                Some(u) => entry.id > u,
            };
            assert(fresh == (first is None || self.hooks@[i as int].id > first->0));
            if fresh {
                let ghost before = above(self.hooks@.take(i as int), first);
                batch.push(entry.hook.clone());
                assert(batch@ =~= hooks_of(before.push(self.hooks@[i as int])));
                upto = Some(entry.id);
            }
            i = i + 1;
        }
        assert(self.hooks@.take(i as int) =~= self.hooks@);
        self.dispatched_upto = upto;
        proof {
            lemma_none_above(self.hooks@, upto);
        }
        batch
    }

    /// Hands out what is left and ends the dispatch, in one step: whatever is registered
    /// afterwards is to be run at once.
    pub fn take_final(&mut self) -> (batch: Vec<Arc<K>>)
        requires
            old(self).wf(),
        ensures
            final(self).wf(),
            batch@ == old(self).pending(),
            final(self).waiting().len() == 0,
            forall|id: usize| #[trigger] old(self).handed_out(id) ==> final(self).handed_out(id),
            forall|i: int|
                0 <= i < old(self).hooks@.len() ==> final(self).handed_out(
                    (#[trigger] old(self).hooks@[i]).id,
                ),
            final(self).hooks@ == old(self).hooks@,
            final(self).next_id == old(self).next_id,
            final(self).dispatch == CloseDispatch::Dispatched,
            final(self).chained == old(self).chained,
            final(self).cutoff_reported == old(self).cutoff_reported,
            final(self).errors@ == old(self).errors@,
    {
        self.dispatch = CloseDispatch::Dispatched;
        let ghost ended = *self;
        let batch = self.take_pending();
        assert forall|id: usize| #[trigger] old(self).handed_out(id) implies self.handed_out(id) by {
            assert(ended.handed_out(id));
        }
        batch
    }

    /// Ends the dispatch without handing anything out: the scope was abandoned.
    pub fn settle_dispatch(&mut self)
        ensures
            *final(self) == (ClosingHooks { dispatch: CloseDispatch::Dispatched, ..*old(self) }),
    {
        self.dispatch = CloseDispatch::Dispatched;
    }

    /// Begins the dispatch, unless it has begun before.
    pub fn begin_dispatch(&mut self) -> (run: Option<DispatchRun<C>>)
        requires
            old(self).wf(),
        ensures
            final(self).wf(),
            run is Some <==> old(self).dispatch == CloseDispatch::NotStarted,
            run matches Some(run) ==> run.round == 0 && !run.done && run.errors@.len() == 0,
            *final(self) == (ClosingHooks {
                dispatch: if run is Some {
                    CloseDispatch::Dispatching
                } else {
                    old(self).dispatch
                },
                ..*old(self)
            }),
    {
        if self.dispatch != CloseDispatch::NotStarted {
            return None;
        }
        self.dispatch = CloseDispatch::Dispatching;
        Some(DispatchRun { round: 0, done: false, errors: Vec::new() })
    }

    /// The next batch of hooks to run; `None` when the dispatch is over.
    ///
    /// As long as rounds are left, a batch holds the hooks registered since the one before. The
    /// last batch holds what is left when there is nothing new or no round is left; where it
    /// holds anything, a bound was hit.
    pub fn next_batch(&mut self, run: &mut DispatchRun<C>) -> (batch: Option<Vec<Arc<K>>>)
        requires
            old(self).wf(),
            old(run).round <= MAX_CLOSING_HOOK_ROUNDS,
        ensures
            final(self).wf(),
            final(run).round <= MAX_CLOSING_HOOK_ROUNDS,
            old(self).batched(*old(run), batch, *final(self), *final(run)),
    {
        if run.done {
            return None;
        }
        if run.round < MAX_CLOSING_HOOK_ROUNDS {
            let batch = self.take_pending();
            if batch.len() > 0 {
                run.round = run.round + 1;
                return Some(batch);
            }
            proof {
                assert(self.waiting() =~= Seq::empty());
                assert(old(self).pending().len() == old(self).waiting().len());
            }
        }
        let batch = self.take_final();
        run.done = true;
        if batch.len() > 0 {
            if self.mark_cutoff() {
                run.errors.push(Error::new(Phase::Close, ErrorKind::CloseHookDispatchOverflow));
            }
        }
        assert(batch@ =~= old(self).pending());
        Some(batch)
    }

    /// Keeps the errors of a dispatch until they are collected.
    pub fn finish_dispatch(&mut self, run: DispatchRun<C>)
        requires
            old(self).wf(),
        ensures
            final(self).wf(),
            final(self).errors@ == old(self).errors@ + run.errors@,
            *final(self) == (ClosingHooks { errors: final(self).errors, ..*old(self) }),
    {
        let mut errors = run.errors;
        self.errors.append(&mut errors);
    }

    /// Keeps the error of a hook that was run at once, if there is one.
    pub fn record(&mut self, error: Option<Error<C>>)
        requires
            old(self).wf(),
        ensures
            final(self).wf(),
            final(self).errors@ == match error {
                Some(error) => old(self).errors@.push(error),
                None => old(self).errors@,
            },
            *final(self) == (ClosingHooks { errors: final(self).errors, ..*old(self) }),
    {
        match error {
            Some(error) => {
                self.errors.push(error);
            },
            None => {},
        }
    }

    /// Collects the errors kept so far.
    pub fn take_errors(&mut self) -> (errors: Vec<Error<C>>)
        requires
            old(self).wf(),
        ensures
            final(self).wf(),
            errors@ == old(self).errors@,
            final(self).errors@.len() == 0,
            *final(self) == (ClosingHooks { errors: final(self).errors, ..*old(self) }),
    {
        let mut errors: Vec<Error<C>> = Vec::new();
        errors.append(&mut self.errors);
        assert(errors@ =~= old(self).errors@);
        errors
    }
}

proof fn lemma_without_none<K>(hooks: Seq<ClosingEntry<K>>, id: usize)
    requires
        forall|k: int| 0 <= k < hooks.len() ==> (#[trigger] hooks[k]).id != id,
    ensures
        without(hooks, id) == hooks,
    decreases hooks.len(),
{
    if hooks.len() > 0 {
        assert forall|k: int| 0 <= k < hooks.drop_last().len() implies (
        #[trigger] hooks.drop_last()[k]).id != id by {
            assert(hooks.drop_last()[k] == hooks[k]);
        }
        lemma_without_none(hooks.drop_last(), id);
        assert(hooks.last() == hooks[hooks.len() - 1]);
        assert(hooks.drop_last().push(hooks.last()) =~= hooks);
    } else {
        assert(hooks =~= Seq::empty());
    }
}

proof fn lemma_without_one<K>(hooks: Seq<ClosingEntry<K>>, id: usize, k: int)
    requires
        0 <= k < hooks.len(),
        hooks[k].id == id,
        forall|i: int, j: int|
            0 <= i < j < hooks.len() ==> (#[trigger] hooks[i]).id < (#[trigger] hooks[j]).id,
    ensures
        without(hooks, id) == hooks.remove(k),
    decreases hooks.len(),
{
    let front = hooks.drop_last();
    assert forall|i: int, j: int| 0 <= i < j < front.len() implies (#[trigger] front[i]).id < (
    #[trigger] front[j]).id by {
        assert(front[i] == hooks[i] && front[j] == hooks[j]);
    }
    if k == hooks.len() - 1 {
        assert forall|i: int| 0 <= i < front.len() implies (#[trigger] front[i]).id != id by {
            assert(front[i] == hooks[i]);
        }
        lemma_without_none(front, id);
        assert(hooks.remove(k) =~= front);
    } else {
        assert(hooks[k].id < hooks[hooks.len() - 1].id);
        lemma_without_one(front, id, k);
        assert(hooks.remove(k) =~= front.remove(k).push(hooks.last()));
    }
}

proof fn lemma_none_above<K>(hooks: Seq<ClosingEntry<K>>, upto: Option<usize>)
    requires
        forall|k: int|
            0 <= k < hooks.len() ==> upto is Some && (#[trigger] hooks[k]).id <= upto->0,
    ensures
        above(hooks, upto).len() == 0,
    decreases hooks.len(),
{
    if hooks.len() > 0 {
        let front = hooks.drop_last();
        assert(hooks[hooks.len() - 1].id <= upto->0);
        assert forall|k: int| 0 <= k < front.len() implies upto is Some && (#[trigger] front[k]).id
            <= upto->0 by {
            assert(front[k] == hooks[k]);
            assert(hooks[k].id <= upto->0);
        }
        lemma_none_above(front, upto);
    }
}

/// What is waiting is what is in the table and was not handed out, each once: so no hook is in two
/// batches, and none is left out.
pub proof fn waiting_hooks_are_those_not_handed_out<K, C>(closing: ClosingHooks<K, C>)
    requires
        closing.wf(),
    ensures
        forall|entry: ClosingEntry<K>|
            closing.waiting().contains(entry) <==> #[trigger] closing.hooks@.contains(entry)
                && !closing.handed_out(entry.id),
        forall|i: int, j: int|
            0 <= i < j < closing.waiting().len() ==> (#[trigger] closing.waiting()[i]).id < (
            #[trigger] closing.waiting()[j]).id,
{
    lemma_above_members(closing.hooks@, closing.dispatched_upto);
}

/// Where nothing is waiting, every hook in the table was handed out. So no hook that was registered
/// before the end of a dispatch is left out of it.
pub proof fn nothing_waiting_means_all_handed_out<K, C>(closing: ClosingHooks<K, C>, i: int)
    requires
        closing.wf(),
        closing.waiting().len() == 0,
        0 <= i < closing.hooks@.len(),
    ensures
        closing.handed_out(closing.hooks@[i].id),
{
    waiting_hooks_are_those_not_handed_out(closing);
    assert(closing.hooks@.contains(closing.hooks@[i]));
    assert(!closing.waiting().contains(closing.hooks@[i]));
}

proof fn lemma_above_members<K>(hooks: Seq<ClosingEntry<K>>, upto: Option<usize>)
    requires
        forall|i: int, j: int|
            0 <= i < j < hooks.len() ==> (#[trigger] hooks[i]).id < (#[trigger] hooks[j]).id,
    ensures
        forall|entry: ClosingEntry<K>|
            above(hooks, upto).contains(entry) <==> #[trigger] hooks.contains(entry) && (upto is None
                || entry.id > upto->0),
        forall|i: int, j: int|
            0 <= i < j < above(hooks, upto).len() ==> (#[trigger] above(hooks, upto)[i]).id < (
            #[trigger] above(hooks, upto)[j]).id,
    decreases hooks.len(),
{
    let whole = above(hooks, upto);
    if hooks.len() > 0 {
        let front = hooks.drop_last();
        let before = above(front, upto);
        assert forall|i: int, j: int| 0 <= i < j < front.len() implies (#[trigger] front[i]).id < (
        #[trigger] front[j]).id by {
            assert(front[i] == hooks[i] && front[j] == hooks[j]);
        }
        lemma_above_members(front, upto);
        let last = hooks.last();
        assert forall|entry: ClosingEntry<K>| #[trigger]
            hooks.contains(entry) == (front.contains(entry) || entry == last) by {
            if hooks.contains(entry) {
                let i = choose|i: int| 0 <= i < hooks.len() && hooks[i] == entry;
                assert(i < front.len() ==> front[i] == entry);
            }
            if front.contains(entry) {
                let i = choose|i: int| 0 <= i < front.len() && front[i] == entry;
                assert(hooks[i] == entry);
            }
            assert(hooks[hooks.len() - 1] == last);
        }
        if upto is None || last.id > upto->0 {
            assert forall|entry: ClosingEntry<K>|
                whole.contains(entry) <==> #[trigger] hooks.contains(entry) && (upto is None
                    || entry.id > upto->0) by {
                if whole.contains(entry) {
                    let i = choose|i: int| 0 <= i < whole.len() && whole[i] == entry;
                    assert(i < before.len() ==> before[i] == entry);
                    assert(i < before.len() ==> before.contains(entry));
                    assert(front.contains(entry) || entry == last);
                }
                if front.contains(entry) && (upto is None || entry.id > upto->0) {
                    assert(before.contains(entry));
                    let i = choose|i: int| 0 <= i < before.len() && before[i] == entry;
                    assert(whole[i] == entry);
                }
                assert(whole[whole.len() - 1] == last);
            }
            assert forall|i: int, j: int| 0 <= i < j < whole.len() implies (#[trigger] whole[i]).id
                < (#[trigger] whole[j]).id by {
                assert(whole[i] == before[i]);
                if j < before.len() {
                    assert(whole[j] == before[j]);
                } else {
                    assert(before.contains(before[i]));
                    assert(front.contains(before[i]));
                    let k = choose|k: int| 0 <= k < front.len() && front[k] == before[i];
                    assert(hooks[k] == before[i]);
                    assert(hooks[hooks.len() - 1] == last);
                }
            }
        } else {
            assert(whole == before);
            assert forall|entry: ClosingEntry<K>|
                whole.contains(entry) <==> #[trigger] hooks.contains(entry) && (upto is None
                    || entry.id > upto->0) by {
                assert(hooks.contains(entry) == (front.contains(entry) || entry == last));
            }
        }
    }
}

} // verus!
