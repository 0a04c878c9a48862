//! Who is woken.

use vstd::prelude::*;

use crate::waiters::{Slot, WaitId, Waiters};

verus! {

/// Whoever waits is woken: the wakers that firing hands back are those that the slots hold, each
/// once, in the order of the slots.
pub proof fn firing_wakes_all_that_wait<W>(slots: Seq<Slot<W>>)
    ensures
        Waiters::wakers(slots, slots.len()) == slots.filter(
            |slot: Slot<W>| slot.waker is Some,
        ).map_values(|slot: Slot<W>| slot.waker->0),
{
    lemma_wakers(slots, slots.len());
    assert(slots.take(slots.len() as int) =~= slots);
}

proof fn lemma_wakers<W>(slots: Seq<Slot<W>>, k: nat)
    requires
        k <= slots.len(),
    ensures
        Waiters::wakers(slots, k) == slots.take(k as int).filter(
            |slot: Slot<W>| slot.waker is Some,
        ).map_values(|slot: Slot<W>| slot.waker->0),
    decreases k,
{
    let waits = |slot: Slot<W>| slot.waker is Some;
    let waker = |slot: Slot<W>| slot.waker->0;
    let seen = slots.take(k as int);
    crate::laws::numbers::lemma_filter_step(seen, waits);
    if k == 0 {
        assert(seen.filter(waits).map_values(waker) =~= Seq::empty());
    } else {
        lemma_wakers(slots, (k - 1) as nat);
        assert(seen.drop_last() =~= slots.take(k - 1));
        if waits(slots[k - 1]) {
            assert(seen.filter(waits).map_values(waker) =~= seen.drop_last().filter(
                waits,
            ).map_values(waker).push(waker(slots[k - 1])));
        }
    }
}

/// A waiter is registered exactly where its slot is there, bears the generation that it was given,
/// and holds a waker; that is what wakes it. So each slot has at most one waiter.
pub proof fn a_slot_has_one_waiter<W>(waiters: Waiters<W>, one: WaitId, other: WaitId)
    ensures
        waiters.waiting().contains_key(one) <==> one.index < waiters.slots@.len()
            && waiters.slots@[one.index as int].generation == one.generation
            && waiters.slots@[one.index as int].waker is Some,
        waiters.waiting().contains_key(one) ==> waiters.slots@[one.index as int].waker == Some(
            waiters.waiting()[one],
        ),
        waiters.waiting().contains_key(one) && waiters.waiting().contains_key(other) && one.index
            == other.index ==> one == other,
{
}

/// A slot that is given back never bears the same generation right after.
pub proof fn a_generation_is_not_its_own_successor(g: u32, h: u32)
    ensures
        crate::waiters::next_generation(g) != g,
        crate::waiters::next_generation(g) == crate::waiters::next_generation(h) ==> g == h,
        g < u32::MAX ==> crate::waiters::next_generation(g) == g + 1,
{
}

/// Where the generations are kept, every slot that was there still is, under the same generation, so
/// that no identity has gone stale.
pub proof fn kept_generations_let_nobody_go_stale<W>(
    before: Waiters<W>,
    after: Waiters<W>,
    id: WaitId,
)
    requires
        after.keeps_generations(before),
        id.index < before.slots@.len(),
    ensures
        id.index < after.slots@.len(),
        after.slots@[id.index as int].generation == before.slots@[id.index as int].generation,
{
}

} // verus!
