//! The core of a scope: its life cycle, the leases of its child scopes, and its two signals.

use vstd::prelude::*;

use crate::id::{Blockers, ScopeId};
use crate::waiters::{Readiness, WaitId, Waiters};

verus! {

/// Where a scope is in its life.
#[derive(Debug, Clone, Copy, PartialEq, Eq, Structural)]
pub enum Lifecycle {
    /// Built; no start was attempted.
    Built,
    /// A start is under way.
    Starting,
    /// The start succeeded.
    Running,
    /// The start failed. What was started is still to be stopped.
    Failed,
    /// The owner has committed to stopping: no new work is taken, and the leases of the child
    /// scopes are waited for. Nothing was cleaned up yet. There is no way back.
    Closing,
    /// No lease is left, and the scope is being cleaned up.
    Stopping,
    /// The end.
    Stopped,
}

impl Lifecycle {
    /// Whether the scope takes no new work any more.
    pub open spec fn shutting_down(self) -> bool {
        self == Lifecycle::Closing || self == Lifecycle::Stopping || self == Lifecycle::Stopped
    }

    /// Whether the scope takes no new work any more.
    pub fn is_shutting_down(self) -> (shutting: bool)
        ensures
            shutting == self.shutting_down(),
    {
        matches!(self, Lifecycle::Closing | Lifecycle::Stopping | Lifecycle::Stopped)
    }

    /// How far the stop has come. Nothing that an owner does takes it back.
    pub open spec fn stop_progress(self) -> nat {
        match self {
            Lifecycle::Closing => 1,
            Lifecycle::Stopping => 2,
            Lifecycle::Stopped => 3,
            _ => 0,
        }
    }
}

/// How a scope came to rest.
#[derive(Debug, Clone, Copy, PartialEq, Eq, Structural)]
pub enum Settlement {
    /// It was stopped, and everything was cleaned up.
    Stopped,
    /// Its owner dropped it before the stop was complete.
    Abandoned,
}

/// Flag of the tag: the scope takes no new work.
pub const SHUTTING: u64 = 1;

/// Flag of the tag: the scope is stopped.
pub const STOPPED: u64 = 2;

/// Flag of the tag: a stop was requested.
pub const REQUESTED: u64 = 4;

/// Flag of the tag: the scope was abandoned.
pub const ABANDONED: u64 = 8;

/// The tag that has the given flags.
pub open spec fn tag_of(shutting: bool, stopped: bool, requested: bool, abandoned: bool) -> u64 {
    (if shutting {
        SHUTTING
    } else {
        0
    }) | (if stopped {
        STOPPED
    } else {
        0
    }) | (if requested {
        REQUESTED
    } else {
        0
    }) | (if abandoned {
        ABANDONED
    } else {
        0
    })
}

/// Each flag can be read back from the tag, whatever the others are.
pub proof fn tag_holds_each_flag(shutting: bool, stopped: bool, requested: bool, abandoned: bool)
    ensures
        tag_of(shutting, stopped, requested, abandoned) & SHUTTING != 0 <==> shutting,
        tag_of(shutting, stopped, requested, abandoned) & STOPPED != 0 <==> stopped,
        tag_of(shutting, stopped, requested, abandoned) & REQUESTED != 0 <==> requested,
        tag_of(shutting, stopped, requested, abandoned) & ABANDONED != 0 <==> abandoned,
        tag_of(shutting, stopped, requested, abandoned) & (STOPPED | ABANDONED) != 0 <==> (stopped
            || abandoned),
{
    let s: u64 = if shutting {
        SHUTTING
    } else {
        0
    };
    let t: u64 = if stopped {
        STOPPED
    } else {
        0
    };
    let r: u64 = if requested {
        REQUESTED
    } else {
        0
    };
    let a: u64 = if abandoned {
        ABANDONED
    } else {
        0
    };
    assert((s | t | r | a) & 1 != 0 <==> s == 1) by (bit_vector)
        requires
            s == 0 || s == 1,
            t == 0 || t == 2,
            r == 0 || r == 4,
            a == 0 || a == 8,
    ;
    assert((s | t | r | a) & 2 != 0 <==> t == 2) by (bit_vector)
        requires
            s == 0 || s == 1,
            t == 0 || t == 2,
            r == 0 || r == 4,
            a == 0 || a == 8,
    ;
    assert((s | t | r | a) & 4 != 0 <==> r == 4) by (bit_vector)
        requires
            s == 0 || s == 1,
            t == 0 || t == 2,
            r == 0 || r == 4,
            a == 0 || a == 8,
    ;
    assert((s | t | r | a) & 8 != 0 <==> a == 8) by (bit_vector)
        requires
            s == 0 || s == 1,
            t == 0 || t == 2,
            r == 0 || r == 4,
            a == 0 || a == 8,
    ;
    assert((s | t | r | a) & (2u64 | 8u64) != 0 <==> (t == 2 || a == 8)) by (bit_vector)
        requires
            s == 0 || s == 1,
            t == 0 || t == 2,
            r == 0 || r == 4,
            a == 0 || a == 8,
    ;
}

/// The state of a scope. `W` is whatever wakes a waiter.
///
/// `lifecycle`, `requested`, `abandoned` and `children` are the truth; `tag` is derived from them
/// and lets one read answer each question about the state.
pub struct ScopeCore<W> {
    pub lifecycle: Lifecycle,
    /// Whether a stop was requested. That alone does not stop the scope.
    pub requested: bool,
    /// Whether the owner dropped the scope before its stop was complete.
    pub abandoned: bool,
    /// The child scopes that hold a lease, in ascending order. A scope holds at most one, so
    /// their number is the number of leases.
    pub children: Vec<ScopeId>,
    pub tag: u64,
    /// Fires when the scope is asked to wind up: its stop was committed or requested, or it was
    /// abandoned.
    pub cancellation: Waiters<W>,
    /// Fires when the scope has come to rest: it is stopped, or was abandoned.
    pub settled: Waiters<W>,
}

/// Whether `ids` is in ascending order, without repetition.
pub open spec fn ascending(ids: Seq<ScopeId>) -> bool {
    forall|i: int, j: int| 0 <= i < j < ids.len() ==> (#[trigger] ids[i]).0 < (#[trigger] ids[j]).0
}

/// The position of the first id that is not below `id`.
fn lower_bound(ids: &Vec<ScopeId>, id: ScopeId) -> (pos: usize)
    requires
        ascending(ids@),
    ensures
        pos <= ids@.len(),
        forall|i: int| 0 <= i < pos ==> (#[trigger] ids@[i]).0 < id.0,
        forall|i: int| pos <= i < ids@.len() ==> (#[trigger] ids@[i]).0 >= id.0,
{
    let mut low: usize = 0;
    let mut high: usize = ids.len();
    while low < high
        invariant
            low <= high <= ids@.len(),
            ascending(ids@),
            forall|i: int| 0 <= i < low ==> (#[trigger] ids@[i]).0 < id.0,
            forall|i: int| high <= i < ids@.len() ==> (#[trigger] ids@[i]).0 >= id.0,
        decreases high - low,
    {
        let mid: usize = low + (high - low) / 2;
        if ids[mid].0 < id.0 {
            low = mid + 1;
        } else {
            high = mid;
        }
    }
    low
}

impl<W> ScopeCore<W> {
    /// The child scopes that hold a lease.
    pub open spec fn leases(self) -> Set<ScopeId> {
        self.children@.to_set()
    }

    /// The tag that fits the state.
    pub open spec fn derived_tag(self) -> u64 {
        tag_of(
            self.lifecycle.shutting_down(),
            self.lifecycle == Lifecycle::Stopped,
            self.requested,
            self.abandoned,
        )
    }

    /// The tag fits the state, the children are in order, and the signals are well-formed.
    pub open spec fn wf(self) -> bool {
        &&& self.tag == self.derived_tag()
        &&& ascending(self.children@)
        &&& self.cancellation.wf()
        &&& self.settled.wf()
    }

    /// Whether the life cycle is as in `before`.
    pub open spec fn same_life(self, before: Self) -> bool {
        &&& self.lifecycle == before.lifecycle
        &&& self.requested == before.requested
        &&& self.abandoned == before.abandoned
    }

    /// Whether the signals are as in `before`.
    pub open spec fn same_signals(self, before: Self) -> bool {
        self.cancellation == before.cancellation && self.settled == before.settled
    }

    /// A scope that has just been built.
    pub fn new() -> (core: Self)
        ensures
            core.wf(),
            core.lifecycle == Lifecycle::Built,
            !core.requested,
            !core.abandoned,
            core.children@.len() == 0,
            !core.cancellation.fired,
            !core.settled.fired,
            core.cancellation.slots@.len() == 0,
            core.settled.slots@.len() == 0,
    {
        let mut core = ScopeCore {
            lifecycle: Lifecycle::Built,
            requested: false,
            abandoned: false,
            children: Vec::new(),
            tag: 0,
            cancellation: Waiters::new(),
            settled: Waiters::new(),
        };
        core.refresh();
        core
    }

    /// Derives the tag anew.
    fn refresh(&mut self)
        ensures
            *final(self) == (ScopeCore { tag: final(self).tag, ..*old(self) }),
            final(self).tag == final(self).derived_tag(),
    {
        let shutting: u64 = if self.lifecycle.is_shutting_down() {
            SHUTTING
        } else {
            0
        };
        let stopped: u64 = if matches!(self.lifecycle, Lifecycle::Stopped) {
            STOPPED
        } else {
            0
        };
        let requested: u64 = if self.requested {
            REQUESTED
        } else {
            0
        };
        let abandoned: u64 = if self.abandoned {
            ABANDONED
        } else {
            0
        };
        self.tag = shutting | stopped | requested | abandoned;
    }

    /// The derived flags, for readers that hold no lock.
    pub fn tag(&self) -> (tag: u64)
        ensures
            tag == self.tag,
    {
        self.tag
    }

    /// Where the scope is in its life.
    pub fn lifecycle(&self) -> (lifecycle: Lifecycle)
        ensures
            lifecycle == self.lifecycle,
    {
        self.lifecycle
    }

    proof fn lemma_tag(&self)
        requires
            self.wf(),
        ensures
            self.tag & SHUTTING != 0 <==> self.lifecycle.shutting_down(),
            self.tag & STOPPED != 0 <==> self.lifecycle == Lifecycle::Stopped,
            self.tag & REQUESTED != 0 <==> self.requested,
            self.tag & ABANDONED != 0 <==> self.abandoned,
            self.tag & (STOPPED | ABANDONED) != 0 <==> (self.lifecycle == Lifecycle::Stopped
                || self.abandoned),
    {
        tag_holds_each_flag(
            self.lifecycle.shutting_down(),
            self.lifecycle == Lifecycle::Stopped,
            self.requested,
            self.abandoned,
        );
    }

    /// Whether the scope takes no new work any more.
    pub fn is_stopping(&self) -> (stopping: bool)
        requires
            self.wf(),
        ensures
            stopping == self.lifecycle.shutting_down(),
    {
        proof {
            self.lemma_tag();
        }
        self.tag & SHUTTING != 0
    }

    /// Whether the scope is stopped.
    pub fn is_stopped(&self) -> (stopped: bool)
        requires
            self.wf(),
        ensures
            stopped == (self.lifecycle == Lifecycle::Stopped),
    {
        proof {
            self.lemma_tag();
        }
        self.tag & STOPPED != 0
    }

    /// Whether a stop was requested.
    pub fn is_stop_requested(&self) -> (requested: bool)
        requires
            self.wf(),
        ensures
            requested == self.requested,
    {
        proof {
            self.lemma_tag();
        }
        self.tag & REQUESTED != 0
    }

    /// Whether the scope was abandoned.
    pub fn is_abandoned(&self) -> (abandoned: bool)
        requires
            self.wf(),
        ensures
            abandoned == self.abandoned,
    {
        proof {
            self.lemma_tag();
        }
        self.tag & ABANDONED != 0
    }

    /// Whether the scope has come to rest: it is stopped, or was abandoned.
    pub fn is_settled(&self) -> (settled: bool)
        requires
            self.wf(),
        ensures
            settled == (self.lifecycle == Lifecycle::Stopped || self.abandoned),
    {
        proof {
            self.lemma_tag();
        }
        self.tag & (STOPPED | ABANDONED) != 0
    }

    /// The child scopes that hold a lease, in ascending order.
    pub fn children(&self) -> (ids: Vec<ScopeId>)
        ensures
            ids@ == self.children@,
    {
        let mut ids: Vec<ScopeId> = Vec::new();
        let mut i: usize = 0;
        while i < self.children.len()
            invariant
                i <= self.children@.len(),
                ids@ =~= self.children@.take(i as int),
            decreases self.children@.len() - i,
        {
            ids.push(self.children[i]);
            i = i + 1;
        }
        assert(self.children@.take(i as int) =~= self.children@);
        ids
    }

    /// How many leases there are.
    pub fn lease_count(&self) -> (n: usize)
        ensures
            n == self.children@.len(),
    {
        self.children.len()
    }

    /// Moves the scope to `next` in its life.
    pub fn set_lifecycle(&mut self, next: Lifecycle)
        requires
            old(self).wf(),
        ensures
            final(self).wf(),
            final(self).lifecycle == next,
            final(self).requested == old(self).requested,
            final(self).abandoned == old(self).abandoned,
            final(self).children == old(self).children,
            final(self).same_signals(*old(self)),
    {
        self.lifecycle = next;
        self.refresh();
    }

    /// Gives a child scope a lease, unless this scope takes no new work any more.
    pub fn acquire_lease(&mut self, child: ScopeId) -> (granted: bool)
        requires
            old(self).wf(),
        ensures
            final(self).wf(),
            final(self).same_life(*old(self)),
            final(self).same_signals(*old(self)),
            granted == !old(self).lifecycle.shutting_down(),
            granted ==> final(self).leases() == old(self).leases().insert(child),
            !granted ==> final(self).children == old(self).children,
    {
        if self.lifecycle.is_shutting_down() {
            return false;
        }
        let ghost before = self.children@;
        let pos = lower_bound(&self.children, child);
        if pos < self.children.len() && self.children[pos].0 == child.0 {
            proof {
                assert(before[pos as int] == child);
                assert(self.leases() =~= old(self).leases().insert(child));
            }
        } else {
            self.children.insert(pos, child);
            proof {
                assert forall|i: int, j: int| 0 <= i < j < self.children@.len() implies (
                #[trigger] self.children@[i]).0 < (#[trigger] self.children@[j]).0 by {
                    let a = if i < pos {
                        i
                    } else {
                        i - 1
                    };
                    let b = if j < pos {
                        j
                    } else {
                        j - 1
                    };
                    if i != pos {
                        assert(self.children@[i] == before[a]);
                    }
                    if j != pos {
                        assert(self.children@[j] == before[b]);
                    }
                }
                assert forall|id: ScopeId| #[trigger] self.children@.contains(id) <==> before.contains(id) || id
                    == child by {
                    if before.contains(id) {
                        let k = choose|k: int| 0 <= k < before.len() && before[k] == id;
                        if k < pos {
                            assert(self.children@[k] == id);
                        } else {
                            assert(self.children@[k + 1] == id);
                        }
                    }
                    if id == child {
                        assert(self.children@[pos as int] == child);
                    }
                    if self.children@.contains(id) && id != child {
                        let k = choose|k: int|
                            0 <= k < self.children@.len() && self.children@[k] == id;
                        if k < pos {
                            assert(before[k] == id);
                        } else {
                            assert(before[k - 1] == id);
                        }
                    }
                }
                assert(self.leases() =~= old(self).leases().insert(child));
            }
        }
        true
    }

    /// Takes back the lease of a child scope, if it holds one.
    pub fn release_lease(&mut self, child: ScopeId)
        requires
            old(self).wf(),
        ensures
            final(self).wf(),
            final(self).same_life(*old(self)),
            final(self).same_signals(*old(self)),
            final(self).leases() == old(self).leases().remove(child),
            final(self).children@.len() <= old(self).children@.len(),
            final(self).children@.len() == 0 <==> old(self).leases().subset_of(
                Set::empty().insert(child),
            ),
    {
        let ghost before = self.children@;
        let pos = lower_bound(&self.children, child);
        if pos < self.children.len() && self.children[pos].0 == child.0 {
            self.children.remove(pos);
            proof {
                assert forall|i: int, j: int| 0 <= i < j < self.children@.len() implies (
                #[trigger] self.children@[i]).0 < (#[trigger] self.children@[j]).0 by {
                    let a = if i < pos {
                        i
                    } else {
                        i + 1
                    };
                    let b = if j < pos {
                        j
                    } else {
                        j + 1
                    };
                    assert(self.children@[i] == before[a]);
                    assert(self.children@[j] == before[b]);
                }
                assert(before[pos as int] == child);
                assert forall|id: ScopeId| #[trigger] self.children@.contains(id) <==> before.contains(id) && id
                    != child by {
                    if before.contains(id) && id != child {
                        let k = choose|k: int| 0 <= k < before.len() && before[k] == id;
                        if k < pos {
                            assert(self.children@[k] == id);
                        } else {
                            assert(self.children@[k - 1] == id);
                        }
                    }
                    if self.children@.contains(id) {
                        let k = choose|k: int|
                            0 <= k < self.children@.len() && self.children@[k] == id;
                        if k < pos {
                            assert(before[k] == id);
                        } else {
                            assert(before[k + 1] == id);
                        }
                    }
                }
            }
        }
        proof {
            assert(self.leases() =~= old(self).leases().remove(child));
            lemma_empty_list(self.children@);
            if self.children@.len() == 0 {
                assert(old(self).leases().subset_of(Set::empty().insert(child))) by {
                    assert forall|id: ScopeId| old(self).leases().contains(id) implies id == child by {
                        if id != child {
                            assert(self.leases().contains(id));
                        }
                    }
                }
            } else {
                assert(self.leases().contains(self.children@[0]));
                assert(old(self).leases().contains(self.children@[0]));
                assert(self.children@[0] != child);
            }
        }
    }

    /// Commits the scope to stopping. From then on it takes no new work; there is no way back.
    /// Tells whether this was the first time.
    pub fn begin_close(&mut self) -> (first: bool)
        requires
            old(self).wf(),
        ensures
            final(self).wf(),
            first == !old(self).lifecycle.shutting_down(),
            final(self).lifecycle == if first {
                Lifecycle::Closing
            } else {
                old(self).lifecycle
            },
            final(self).requested == old(self).requested,
            final(self).abandoned == old(self).abandoned,
            final(self).children == old(self).children,
            final(self).same_signals(*old(self)),
    {
        if self.lifecycle.is_shutting_down() {
            return false;
        }
        self.lifecycle = Lifecycle::Closing;
        self.refresh();
        true
    }

    /// Begins the cleanup, unless a child scope still holds a lease: then nothing changes and
    /// the holders are reported. Where the cleanup has begun already, nothing changes either.
    pub fn enter_cleanup(&mut self) -> (result: Result<(), Blockers>)
        requires
            old(self).wf(),
        ensures
            final(self).wf(),
            final(self).requested == old(self).requested,
            final(self).abandoned == old(self).abandoned,
            final(self).children == old(self).children,
            final(self).same_signals(*old(self)),
            result is Err <==> old(self).children@.len() > 0 && old(self).lifecycle
                != Lifecycle::Stopping && old(self).lifecycle != Lifecycle::Stopped,
            result matches Err(blockers) ==> blockers.ids@ == old(self).children@,
            final(self).lifecycle == if result is Err || old(self).lifecycle == Lifecycle::Stopped {
                old(self).lifecycle
            } else {
                Lifecycle::Stopping
            },
    {
        if matches!(self.lifecycle, Lifecycle::Stopping | Lifecycle::Stopped) {
            return Ok(());
        }
        if self.children.len() > 0 {
            return Err(Blockers::new(self.children()));
        }
        self.lifecycle = Lifecycle::Stopping;
        self.refresh();
        Ok(())
    }

    /// Fires the signal that asks the scope's work to wind up. Hands back the wakers of those who
    /// waited for it.
    pub fn cancel(&mut self) -> (wakers: Vec<W>)
        requires
            old(self).wf(),
        ensures
            final(self).wf(),
            final(self).same_life(*old(self)),
            final(self).children == old(self).children,
            final(self).settled == old(self).settled,
            final(self).cancellation.fired,
            wakers@ == Waiters::wakers(
                old(self).cancellation.slots@,
                old(self).cancellation.slots@.len(),
            ),
    {
        self.cancellation.fire_all()
    }

    /// Records that a stop is requested, and fires the signal to wind up. The scope goes on
    /// taking work until its owner stops it.
    pub fn request_stop(&mut self) -> (wakers: Vec<W>)
        requires
            old(self).wf(),
        ensures
            final(self).wf(),
            final(self).lifecycle == old(self).lifecycle,
            final(self).requested,
            final(self).abandoned == old(self).abandoned,
            final(self).children == old(self).children,
            final(self).settled == old(self).settled,
            final(self).cancellation.fired,
            wakers@ == Waiters::wakers(
                old(self).cancellation.slots@,
                old(self).cancellation.slots@.len(),
            ),
    {
        self.requested = true;
        self.refresh();
        self.cancellation.fire_all()
    }

    /// Records that the owner dropped the scope before its stop was complete, and fires the signal
    /// that the scope has come to rest.
    pub fn abandon(&mut self) -> (wakers: Vec<W>)
        requires
            old(self).wf(),
        ensures
            final(self).wf(),
            final(self).lifecycle == old(self).lifecycle,
            final(self).requested == old(self).requested,
            final(self).abandoned,
            final(self).children == old(self).children,
            final(self).cancellation == old(self).cancellation,
            final(self).settled.fired,
            wakers@ == Waiters::wakers(old(self).settled.slots@, old(self).settled.slots@.len()),
    {
        self.abandoned = true;
        self.refresh();
        self.settled.fire_all()
    }

    /// Fires the signal that the scope has come to rest.
    pub fn settle(&mut self) -> (wakers: Vec<W>)
        requires
            old(self).wf(),
        ensures
            final(self).wf(),
            final(self).same_life(*old(self)),
            final(self).children == old(self).children,
            final(self).cancellation == old(self).cancellation,
            final(self).settled.fired,
            wakers@ == Waiters::wakers(old(self).settled.slots@, old(self).settled.slots@.len()),
    {
        self.settled.fire_all()
    }

    /// How the scope has come to rest, once it has.
    pub open spec fn settlement_is(self) -> Settlement {
        if self.abandoned {
            Settlement::Abandoned
        } else {
            Settlement::Stopped
        }
    }

    /// How the scope has come to rest, once it has.
    pub fn settlement(&self) -> (settlement: Settlement)
        requires
            self.wf(),
        ensures
            settlement == self.settlement_is(),
    {
        if self.is_abandoned() {
            Settlement::Abandoned
        } else {
            Settlement::Stopped
        }
    }

    /// One poll of a waiter for the signal to wind up. It is ready once the scope takes no new
    /// work or the signal has fired; else the waiter is registered under `wait`.
    pub fn poll_cancelled(&mut self, wait: &mut Option<WaitId>, waker: W) -> (readiness: Readiness)
        requires
            old(self).wf(),
        ensures
            final(self).wf(),
            final(self).same_life(*old(self)),
            final(self).children == old(self).children,
            final(self).settled == old(self).settled,
            final(self).cancellation.fired == old(self).cancellation.fired,
            readiness == Readiness::Ready <==> old(self).lifecycle.shutting_down() || old(self).cancellation.fired,
            readiness == Readiness::Ready ==> *final(wait) == *old(wait)
                && final(self).cancellation.slots@ == old(self).cancellation.slots@,
            readiness == Readiness::Pending ==> *final(wait) is Some,
            readiness == Readiness::Pending && *old(wait) is Some ==> {
                &&& *final(wait) == *old(wait)
                &&& final(self).cancellation.waiting() == if old(self).cancellation.registered(
                    (*old(wait))->0,
                ) {
                    old(self).cancellation.waiting().insert((*old(wait))->0, waker)
                } else {
                    old(self).cancellation.waiting()
                }
            },
            readiness == Readiness::Pending && *old(wait) is None ==> {
                &&& !old(self).cancellation.registered((*final(wait))->0)
                &&& final(self).cancellation.waiting() == old(self).cancellation.waiting().insert(
                    (*final(wait))->0,
                    waker,
                )
            },
    {
        if self.is_stopping() {
            return Readiness::Ready;
        }
        self.cancellation.poll(wait, waker)
    }

    /// One poll of a waiter for the scope to come to rest: how it did, once it has; else the
    /// waiter is registered under `wait`.
    pub fn poll_settled(&mut self, wait: &mut Option<WaitId>, waker: W) -> (settlement: Option<
        Settlement,
    >)
        requires
            old(self).wf(),
        ensures
            final(self).wf(),
            final(self).same_life(*old(self)),
            final(self).children == old(self).children,
            final(self).cancellation == old(self).cancellation,
            final(self).settled.fired == old(self).settled.fired,
            settlement is Some <==> old(self).lifecycle == Lifecycle::Stopped || old(self).abandoned
                || (old(self).settled.fired && *old(wait) is None),
            settlement matches Some(s) ==> s == old(self).settlement_is(),
            settlement is Some ==> *final(wait) == *old(wait) && final(self).settled.slots@ == old(self).settled.slots@,
            settlement is None && *old(wait) is Some ==> {
                &&& *final(wait) == *old(wait)
                &&& final(self).settled.waiting() == if old(self).settled.registered(
                    (*old(wait))->0,
                ) {
                    old(self).settled.waiting().insert((*old(wait))->0, waker)
                } else {
                    old(self).settled.waiting()
                }
            },
            settlement is None && *old(wait) is None ==> {
                &&& *final(wait) is Some
                &&& !old(self).settled.registered((*final(wait))->0)
                &&& final(self).settled.waiting() == old(self).settled.waiting().insert(
                    (*final(wait))->0,
                    waker,
                )
            },
    {
        if self.is_settled() {
            return Some(self.settlement());
        }
        match *wait {
            Some(id) => {
                self.settled.update(id, waker);
            },
            None => {
                let registered = self.settled.register(waker);
                if registered.is_none() {
                    return Some(self.settlement());
                }
                *wait = registered;
            },
        }
        None
    }
}

proof fn lemma_empty_list(ids: Seq<ScopeId>)
    ensures
        ids.len() == 0 <==> ids.to_set() == Set::<ScopeId>::empty(),
{
    if ids.len() == 0 {
        assert(ids.to_set() =~= Set::empty());
    } else {
        assert(ids.to_set().contains(ids[0]));
    }
}

/// The list of children is the report of the leases: it holds each holder once, in one order only.
pub proof fn children_are_determined(one: Seq<ScopeId>, other: Seq<ScopeId>)
    requires
        ascending(one),
        ascending(other),
        one.to_set() == other.to_set(),
    ensures
        one == other,
    decreases one.len(),
{
    if one.len() == 0 {
        lemma_empty_list(one);
        lemma_empty_list(other);
    } else {
        lemma_empty_list(one);
        lemma_empty_list(other);
        let a = one.last();
        let b = other.last();
        assert(one.to_set().contains(a) && other.to_set().contains(b));
        let i = choose|i: int| 0 <= i < other.len() && other[i] == a;
        let j = choose|j: int| 0 <= j < one.len() && one[j] == b;
        assert(a == b) by {
            if i < other.len() - 1 {
                assert(other[i].0 < other[other.len() - 1].0);
            }
            if j < one.len() - 1 {
                assert(one[j].0 < one[one.len() - 1].0);
            }
        }
        assert(one.drop_last().to_set() =~= one.to_set().remove(a)) by {
            lemma_drop_last_set(one);
        }
        assert(other.drop_last().to_set() =~= other.to_set().remove(b)) by {
            lemma_drop_last_set(other);
        }
        children_are_determined(one.drop_last(), other.drop_last());
        assert(one =~= one.drop_last().push(a));
        assert(other =~= other.drop_last().push(b));
    }
}

/// A lease that was given and taken back leaves no trace: the list of children is as before.
pub proof fn a_returned_lease_leaves_no_trace<W>(
    before: ScopeCore<W>,
    given: ScopeCore<W>,
    returned: ScopeCore<W>,
    child: ScopeId,
)
    requires
        before.wf(),
        returned.wf(),
        !before.leases().contains(child),
        given.leases() == before.leases().insert(child),
        returned.leases() == given.leases().remove(child),
    ensures
        returned.children@ == before.children@,
{
    assert(returned.leases() =~= before.leases());
    children_are_determined(returned.children@, before.children@);
}

proof fn lemma_drop_last_set(ids: Seq<ScopeId>)
    requires
        ascending(ids),
        ids.len() > 0,
    ensures
        ids.drop_last().to_set() =~= ids.to_set().remove(ids.last()),
{
    assert forall|id: ScopeId| ids.drop_last().to_set().contains(id) <==> ids.to_set().remove(
        ids.last(),
    ).contains(id) by {
        if ids.drop_last().contains(id) {
            let k = choose|k: int| 0 <= k < ids.drop_last().len() && ids.drop_last()[k] == id;
            assert(ids[k] == id);
            assert(ids[k].0 < ids[ids.len() - 1].0);
        }
        if ids.contains(id) && id != ids.last() {
            let k = choose|k: int| 0 <= k < ids.len() && ids[k] == id;
            assert(ids.drop_last()[k] == id);
        }
    }
}

} // verus!
