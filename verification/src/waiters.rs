//! A one-shot, level-triggered signal with a registry of those who wait for it.
//!
//! Once fired it stays fired: whoever comes later is told at once and never waits. A waiter is
//! identified by a slot and the slot's generation, so that registering and leaving take constant
//! time, slots are reused, and an identity that has gone stale never reaches the slot's next
//! owner. `W` is whatever wakes a waiter; firing hands the wakers back, and the caller wakes them
//! outside any lock.

use vstd::prelude::*;

verus! {

/// The identity of a waiter: a slot, and the generation of the slot's owner.
#[derive(Debug, Clone, Copy, PartialEq, Eq, Structural)]
pub struct WaitId {
    pub index: usize,
    pub generation: u32,
}

/// A place for one waiter. It is vacant while `waker` is `None`.
pub struct Slot<W> {
    pub generation: u32,
    pub waker: Option<W>,
}

/// The signal and its waiters.
pub struct Waiters<W> {
    pub fired: bool,
    pub slots: Vec<Slot<W>>,
    /// The vacant slots, while the signal has not fired.
    pub free: Vec<usize>,
}

impl<W> Waiters<W> {
    /// Whether `id` is the identity of a registered waiter.
    pub open spec fn registered(self, id: WaitId) -> bool {
        &&& id.index < self.slots@.len()
        &&& self.slots@[id.index as int].generation == id.generation
        &&& self.slots@[id.index as int].waker is Some
    }

    /// The registered waiters, and what wakes each.
    pub open spec fn waiting(self) -> Map<WaitId, W> {
        Map::new(
            |id: WaitId| self.registered(id),
            |id: WaitId| self.slots@[id.index as int].waker->0,
        )
    }

    /// The list of vacant slots is right: it names vacant slots, each once, and while the
    /// signal has not fired it names them all.
    pub open spec fn wf(self) -> bool {
        &&& self.free@.no_duplicates()
        &&& forall|k: int|
            0 <= k < self.free@.len() ==> (#[trigger] self.free@[k]) < self.slots@.len()
                && self.slots@[self.free@[k] as int].waker is None
        &&& !self.fired ==> forall|i: int|
            0 <= i < self.slots@.len() && (#[trigger] self.slots@[i]).waker is None
                ==> self.free@.contains(i as usize)
        &&& self.fired ==> forall|i: int|
            0 <= i < self.slots@.len() ==> (#[trigger] self.slots@[i]).waker is None
    }

    /// The wakers in the first `k` slots, in slot order.
    pub open spec fn wakers(slots: Seq<Slot<W>>, k: nat) -> Seq<W>
        decreases k,
    {
        if k == 0 {
            Seq::empty()
        } else {
            match slots[k - 1].waker {
                Some(waker) => Self::wakers(slots, (k - 1) as nat).push(waker),
                None => Self::wakers(slots, (k - 1) as nat),
            }
        }
    }

    /// A signal that has not fired, and for which nobody waits.
    pub fn new() -> (waiters: Self)
        ensures
            waiters.wf(),
            !waiters.fired,
            waiters.slots@.len() == 0,
            waiters.waiting() == Map::<WaitId, W>::empty(),
    {
        let waiters = Waiters { fired: false, slots: Vec::new(), free: Vec::new() };
        assert(waiters.waiting() =~= Map::empty());
        waiters
    }

    /// Whether the signal has fired.
    pub fn is_fired(&self) -> (fired: bool)
        ensures
            fired == self.fired,
    {
        self.fired
    }

    /// Registers a waiter, unless the signal has fired: then there is nothing to wait for.
    ///
    /// A vacant slot is reused where there is one.
    pub fn register(&mut self, waker: W) -> (id: Option<WaitId>)
        requires
            old(self).wf(),
        ensures
            final(self).wf(),
            final(self).fired == old(self).fired,
            id is None <==> old(self).fired,
            match id {
                None => final(self).slots@ == old(self).slots@ && final(self).waiting() == old(self).waiting(),
                Some(id) => {
                    &&& !old(self).registered(id)
                    &&& final(self).waiting() == old(self).waiting().insert(id, waker)
                    &&& forall|other: WaitId| #[trigger] final(self).registered(other) <==> old(self).registered(other) || other == id
                    &&& old(self).free@.len() > 0 ==> final(self).slots@.len() == old(self).slots@.len() && id.generation == old(self).slots@[id.index as int].generation && old(self).free@.contains(id.index)
                    &&& old(self).free@.len() == 0 ==> final(self).slots@.len() == old(self).slots@.len() + 1 && id == (WaitId {
                        index: old(self).slots@.len() as usize,
                        generation: 0,
                    })
                    &&& final(self).keeps_generations(*old(self))
                },
            },
    {
        if self.fired {
            return None;
        }
        let ghost before = *self;
        match self.free.pop() {
            Some(index) => {
                assert(before.free@[before.free@.len() - 1] == index);
                let generation = self.slots[index].generation;
                self.slots.set(index, Slot { generation, waker: Some(waker) });
                let id = WaitId { index, generation };
                proof {
                    assert(self.slots.len() == self.slots@.len());
                    assert forall|i: int|
                        0 <= i < self.slots@.len() && (
                        #[trigger] self.slots@[i]).waker is None implies self.free@.contains(
                        i as usize,
                    ) by {
                        assert(before.slots@[i].waker is None);
                        assert(before.free@.contains(i as usize));
                        let k = choose|k: int|
                            0 <= k < before.free@.len() && before.free@[k] == i as usize;
                        assert(i != index);
                        assert(self.free@[k] == i as usize);
                    }
                    assert(self.waiting() =~= before.waiting().insert(id, waker));
                }
                Some(id)
            },
            None => {
                let index = self.slots.len();
                self.slots.push(Slot { generation: 0, waker: Some(waker) });
                let id = WaitId { index, generation: 0 };
                proof {
                    assert(self.waiting() =~= before.waiting().insert(id, waker));
                }
                Some(id)
            },
        }
    }

    /// Whether every slot of `before` is still there, with the same generation.
    pub open spec fn keeps_generations(self, before: Self) -> bool {
        &&& self.slots@.len() >= before.slots@.len()
        &&& forall|i: int|
            0 <= i < before.slots@.len() ==> (#[trigger] self.slots@[i]).generation
                == before.slots@[i].generation
    }

    /// Replaces the waker of a registered waiter. An identity that has gone stale changes
    /// nothing.
    pub fn update(&mut self, id: WaitId, waker: W)
        requires
            old(self).wf(),
        ensures
            final(self).wf(),
            final(self).fired == old(self).fired,
            final(self).slots@.len() == old(self).slots@.len(),
            final(self).keeps_generations(*old(self)),
            final(self).waiting() == if old(self).registered(id) {
                old(self).waiting().insert(id, waker)
            } else {
                old(self).waiting()
            },
    {
        let ghost before = *self;
        if id.index < self.slots.len() && self.slots[id.index].generation == id.generation
            && self.slots[id.index].waker.is_some() {
            self.slots.set(id.index, Slot { generation: id.generation, waker: Some(waker) });
            proof {
                assert forall|i: int|
                    0 <= i < self.slots@.len() && (
                    #[trigger] self.slots@[i]).waker is None implies before.slots@[i].waker is None by {}
                assert(self.waiting() =~= before.waiting().insert(id, waker));
            }
        }
    }

    /// Takes a waiter out of the registry. Its slot becomes vacant under the next generation.
    ///
    /// Nothing happens once the signal has fired, or where the identity has gone stale.
    pub fn release(&mut self, id: WaitId)
        requires
            old(self).wf(),
        ensures
            final(self).wf(),
            final(self).fired == old(self).fired,
            final(self).slots@.len() == old(self).slots@.len(),
            !old(self).fired && old(self).registered(id) ==> {
                &&& final(self).waiting() == old(self).waiting().remove(id)
                &&& forall|other: WaitId| #[trigger] final(self).registered(other) <==> old(self).registered(other) && other != id
                &&& final(self).slots@[id.index as int].generation == next_generation(id.generation)
                &&& final(self).slots@[id.index as int].waker is None
                &&& final(self).free@ == old(self).free@.push(id.index)
                &&& forall|i: int|
                    0 <= i < old(self).slots@.len() && i != id.index ==> #[trigger] final(self).slots@[i] == old(self).slots@[i]
            },
            old(self).fired || !old(self).registered(id) ==> *final(self) == *old(self),
    {
        if self.fired {
            return ;
        }
        let ghost before = *self;
        if id.index < self.slots.len() && self.slots[id.index].generation == id.generation
            && self.slots[id.index].waker.is_some() {
            let generation = if id.generation == u32::MAX {
                0
            } else {
                id.generation + 1
            };
            self.slots.set(id.index, Slot { generation, waker: None });
            self.free.push(id.index);
            proof {
                assert forall|a: int, b: int|
                    0 <= a < self.free@.len() && 0 <= b < self.free@.len() && a
                        != b implies self.free@[a] != self.free@[b] by {
                    if a < before.free@.len() {
                        assert(self.free@[a] == before.free@[a]);
                        assert(before.slots@[before.free@[a] as int].waker is None);
                    }
                    if b < before.free@.len() {
                        assert(self.free@[b] == before.free@[b]);
                        assert(before.slots@[before.free@[b] as int].waker is None);
                    }
                }
                assert forall|i: int|
                    0 <= i < self.slots@.len() && (
                    #[trigger] self.slots@[i]).waker is None implies self.free@.contains(
                    i as usize,
                ) by {
                    if i == id.index {
                        assert(self.free@[self.free@.len() - 1] == i as usize);
                    } else {
                        assert(before.slots@[i].waker is None);
                        let k = choose|k: int|
                            0 <= k < before.free@.len() && before.free@[k] == i as usize;
                        assert(self.free@[k] == i as usize);
                    }
                }
                assert(self.waiting() =~= before.waiting().remove(id));
            }
        }
    }

    /// Fires the signal, for good, and hands back the wakers of all who waited, in slot order.
    ///
    /// Firing again hands back nothing.
    pub fn fire_all(&mut self) -> (wakers: Vec<W>)
        requires
            old(self).wf(),
        ensures
            final(self).wf(),
            final(self).fired,
            final(self).waiting() == Map::<WaitId, W>::empty(),
            final(self).slots@.len() == old(self).slots@.len(),
            final(self).keeps_generations(*old(self)),
            final(self).free@ == old(self).free@,
            wakers@ == Self::wakers(old(self).slots@, old(self).slots@.len()),
            old(self).fired ==> wakers@.len() == 0,
    {
        let ghost before = *self;
        self.fired = true;
        let mut wakers: Vec<W> = Vec::new();
        let mut i: usize = 0;
        while i < self.slots.len()
            invariant
                i <= self.slots@.len(),
                self.slots@.len() == before.slots@.len(),
                self.fired,
                self.free@ == before.free@,
                before.wf(),
                wakers@ == Self::wakers(before.slots@, i as nat),
                before.fired ==> wakers@.len() == 0,
                forall|k: int|
                    0 <= k < i ==> (#[trigger] self.slots@[k]).waker is None
                        && self.slots@[k].generation == before.slots@[k].generation,
                forall|k: int| i <= k < self.slots@.len() ==> self.slots@[k] == before.slots@[k],
            decreases self.slots@.len() - i,
        {
            let taken = self.slots[i].waker.take();
            match taken {
                Some(waker) => {
                    wakers.push(waker);
                },
                None => {},
            }
            i = i + 1;
        }
        proof {
            assert(self.waiting() =~= Map::empty());
        }
        wakers
    }

    /// How many waiters are registered.
    pub fn waiter_count(&self) -> (n: usize)
        ensures
            n == Self::wakers(self.slots@, self.slots@.len()).len(),
    {
        let mut n: usize = 0;
        let mut i: usize = 0;
        while i < self.slots.len()
            invariant
                i <= self.slots@.len(),
                n <= i,
                n == Self::wakers(self.slots@, i as nat).len(),
            decreases self.slots@.len() - i,
        {
            if self.slots[i].waker.is_some() {
                n = n + 1;
            }
            i = i + 1;
        }
        n
    }

    /// How many slots there are.
    pub fn slot_count(&self) -> (n: usize)
        ensures
            n == self.slots@.len(),
    {
        self.slots.len()
    }
}

/// The generation after `g`. It wraps around at the end of the number range.
pub open spec fn next_generation(g: u32) -> u32 {
    if g == u32::MAX {
        0
    } else {
        (g + 1) as u32
    }
}

/// What [`Waiters::poll`] tells a waiter.
#[derive(Debug, Clone, Copy, PartialEq, Eq, Structural)]
pub enum Readiness {
    /// The signal has fired.
    Ready,
    /// The waiter is registered and will be woken.
    Pending,
}

impl<W> Waiters<W> {
    /// One poll of a waiter: ready where the signal has fired; else the waiter is registered
    /// under `wait`, once, and later polls only replace its waker.
    pub fn poll(&mut self, wait: &mut Option<WaitId>, waker: W) -> (readiness: Readiness)
        requires
            old(self).wf(),
        ensures
            final(self).wf(),
            final(self).fired == old(self).fired,
            readiness == Readiness::Ready <==> old(self).fired,
            old(self).fired ==> *final(wait) == *old(wait) && final(self).slots@ == old(self).slots@,
            !old(self).fired ==> *final(wait) is Some,
            !old(self).fired && *old(wait) is Some ==> {
                &&& *final(wait) == *old(wait)
                &&& final(self).waiting() == if old(self).registered((*old(wait))->0) {
                    old(self).waiting().insert((*old(wait))->0, waker)
                } else {
                    old(self).waiting()
                }
            },
            !old(self).fired && *old(wait) is None ==> {
                &&& !old(self).registered((*final(wait))->0)
                &&& final(self).waiting() == old(self).waiting().insert((*final(wait))->0, waker)
            },
    {
        if self.fired {
            return Readiness::Ready;
        }
        match *wait {
            Some(id) => {
                self.update(id, waker);
            },
            None => {
                *wait = self.register(waker);
            },
        }
        Readiness::Pending
    }
}

/// A slot that was given back and taken again bears another identity: the old one is stale, and
/// whatever is done under it leaves the new owner alone.
pub proof fn reuse_makes_the_old_identity_stale<W>(
    after_release: Waiters<W>,
    after_reuse: Waiters<W>,
    released: WaitId,
    reused: WaitId,
)
    requires
        released.index < after_release.slots@.len(),
        after_release.slots@[released.index as int].generation == next_generation(
            released.generation,
        ),
        after_reuse.keeps_generations(after_release),
        after_reuse.registered(reused),
    ensures
        released != reused,
        !after_reuse.registered(released),
{
    assert(after_reuse.slots@[released.index as int].generation
        == after_release.slots@[released.index as int].generation);
}

/// Firing reaches everybody: what wakes a registered waiter is among the wakers that firing hands
/// back.
pub proof fn everyone_registered_is_woken<W>(waiters: Waiters<W>, id: WaitId)
    requires
        waiters.registered(id),
    ensures
        Waiters::wakers(waiters.slots@, waiters.slots@.len()).contains(waiters.waiting()[id]),
{
    lemma_wakers_hold(waiters.slots@, waiters.slots@.len(), id.index as int);
}

proof fn lemma_wakers_hold<W>(slots: Seq<Slot<W>>, k: nat, i: int)
    requires
        0 <= i < k <= slots.len(),
        slots[i].waker is Some,
    ensures
        Waiters::wakers(slots, k).contains(slots[i].waker->0),
    decreases k,
{
    let whole = Waiters::wakers(slots, k);
    if i == k - 1 {
        assert(whole.last() == slots[i].waker->0);
    } else {
        lemma_wakers_hold(slots, (k - 1) as nat, i);
        let before = Waiters::wakers(slots, (k - 1) as nat);
        let j = choose|j: int| 0 <= j < before.len() && before[j] == slots[i].waker->0;
        assert(whole[j] == slots[i].waker->0);
    }
}

/// While the signal has not fired, there are never more slots than registered waiters and vacant
/// slots together: slots are reused before new ones are made.
pub proof fn slots_are_reused<W>(waiters: Waiters<W>)
    requires
        waiters.wf(),
        !waiters.fired,
    ensures
        waiters.slots@.len() == Waiters::wakers(waiters.slots@, waiters.slots@.len()).len()
            + waiters.free@.len(),
{
    let n = waiters.slots@.len();
    assert(waiters.slots.len() == n);
    lemma_vacant_count(waiters.slots@, n);
    let vacant = Set::new(|i: int| 0 <= i < n && waiters.slots@[i].waker is None);
    let ints = waiters.free@.map_values(|x: usize| x as int);
    assert(ints.no_duplicates());
    ints.unique_seq_to_set();
    assert(ints.to_set() =~= vacant) by {
        assert forall|i: int| vacant.contains(i) implies ints.to_set().contains(i) by {
            assert(waiters.slots@[i].waker is None);
            assert(waiters.free@.contains(i as usize));
            let k = choose|k: int| 0 <= k < waiters.free@.len() && waiters.free@[k] == i as usize;
            assert(ints[k] == i);
        }
        assert forall|i: int| ints.to_set().contains(i) implies vacant.contains(i) by {
            let k = choose|k: int| 0 <= k < ints.len() && ints[k] == i;
            assert(waiters.free@[k] < n);
        }
    }
}

proof fn lemma_vacant_count<W>(slots: Seq<Slot<W>>, k: nat)
    requires
        k <= slots.len(),
    ensures
        ({
            let vacant = Set::new(|i: int| 0 <= i < k && slots[i].waker is None);
            vacant.finite() && vacant.len() + Waiters::wakers(slots, k).len() == k
        }),
    decreases k,
{
    let vacant = Set::new(|i: int| 0 <= i < k && slots[i].waker is None);
    if k == 0 {
        assert(vacant =~= Set::empty());
    } else {
        lemma_vacant_count(slots, (k - 1) as nat);
        let before = Set::new(|i: int| 0 <= i < k - 1 && slots[i].waker is None);
        if slots[k - 1].waker is None {
            assert(vacant =~= before.insert(k - 1));
        } else {
            assert(vacant =~= before);
        }
    }
}

} // verus!
