//! Waiting places: registering, releasing, firing.

use cordis::waiters::{Readiness, WaitId, Waiters};
use futures::task::noop_waker;

#[test]
fn register_then_release_returns_slot() {
    let mut waiters = Waiters::new();

    let id = waiters.register(noop_waker()).unwrap();
    assert_eq!(waiters.waiter_count(), 1);

    waiters.release(id);
    assert_eq!(waiters.waiter_count(), 0);
}

#[test]
fn slots_are_reused_not_accumulated() {
    let mut waiters = Waiters::new();

    for _ in 0..1000 {
        let id = waiters.register(noop_waker()).unwrap();
        waiters.release(id);
    }

    assert_eq!(waiters.slot_count(), 1);
}

#[test]
fn register_after_fire_returns_none() {
    let mut waiters = Waiters::new();
    waiters.fire_all();

    assert!(waiters.is_fired());
    assert!(waiters.register(noop_waker()).is_none());
}

#[test]
fn release_after_fire_is_noop() {
    let mut waiters = Waiters::new();
    let id = waiters.register(noop_waker()).unwrap();

    waiters.fire_all();
    waiters.release(id);

    assert_eq!(waiters.waiter_count(), 0);
}

#[test]
fn stale_release_does_not_clear_reused_slot() {
    let mut waiters = Waiters::new();

    let first = waiters.register(noop_waker()).unwrap();
    waiters.release(first);
    let second = waiters.register(noop_waker()).unwrap();
    assert_eq!(waiters.waiter_count(), 1);

    waiters.release(first);
    assert_eq!(waiters.waiter_count(), 1);

    waiters.release(second);
    assert_eq!(waiters.waiter_count(), 0);
}

#[test]
fn same_slot_update_keeps_single_entry() {
    let mut waiters = Waiters::new();

    let id = waiters.register(noop_waker()).unwrap();
    waiters.update(id, noop_waker());
    waiters.update(id, noop_waker());

    assert_eq!(waiters.waiter_count(), 1);
    assert_eq!(waiters.slot_count(), 1);
}

#[test]
fn firing_hands_back_everyone_in_slot_order() {
    let mut waiters: Waiters<u32> = Waiters::new();
    let first = waiters.register(10).unwrap();
    waiters.register(20).unwrap();
    waiters.register(30).unwrap();
    waiters.release(first);
    waiters.register(40).unwrap();
    assert_eq!(waiters.fire_all(), vec![40, 20, 30]);
    assert_eq!(waiters.fire_all(), Vec::<u32>::new());
}

#[test]
fn a_stale_update_changes_nothing() {
    let mut waiters: Waiters<u32> = Waiters::new();
    let first = waiters.register(1).unwrap();
    waiters.release(first);
    waiters.register(2).unwrap();
    waiters.update(first, 3);
    assert_eq!(waiters.fire_all(), vec![2]);
}

#[test]
fn polling_keeps_one_place_until_it_fires() {
    let mut waiters: Waiters<u32> = Waiters::new();
    let mut wait: Option<WaitId> = None;
    assert!(matches!(waiters.poll(&mut wait, 1), Readiness::Pending));
    assert!(wait.is_some());
    assert!(matches!(waiters.poll(&mut wait, 2), Readiness::Pending));
    assert_eq!(waiters.waiter_count(), 1);
    assert_eq!(waiters.fire_all(), vec![2]);
    assert!(matches!(waiters.poll(&mut wait, 3), Readiness::Ready));
    waiters.release(wait.unwrap());
    assert_eq!(waiters.waiter_count(), 0);
}
