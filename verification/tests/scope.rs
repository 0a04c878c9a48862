//! The state of a scope: its life cycle, leases and waiters.

use cordis::id::ScopeId;
use cordis::scope::{
    Lifecycle, ScopeCore, Settlement, ABANDONED, REQUESTED, SHUTTING, STOPPED,
};
use cordis::waiters::{Readiness, WaitId};

#[test]
fn tag_tracks_each_transition() {
    let mut core: ScopeCore<u32> = ScopeCore::new();
    assert!(!core.is_stopping() && !core.is_stopped() && !core.is_settled());
    assert!(!core.is_stop_requested() && !core.is_abandoned());

    core.request_stop();
    assert!(core.is_stop_requested());
    assert!(!core.is_stopping());
    assert!(!core.is_settled());

    assert!(core.begin_close());
    assert!(!core.begin_close());
    assert!(core.is_stopping());
    assert!(!core.is_stopped());
    assert!(!core.is_settled());

    core.set_lifecycle(Lifecycle::Stopping);
    core.set_lifecycle(Lifecycle::Stopped);
    assert!(core.is_stopped());
    assert!(core.is_settled());
    assert_eq!(core.lifecycle(), Lifecycle::Stopped);
}

#[test]
fn abandon_is_a_settled_outcome() {
    let mut core: ScopeCore<u32> = ScopeCore::new();
    core.abandon();

    assert!(core.is_abandoned());
    assert!(core.is_settled());
    assert!(!core.is_stopped());
}

#[test]
fn leases_block_cleanup_and_are_reported() {
    let mut core: ScopeCore<u32> = ScopeCore::new();
    let child = ScopeId::new(7);
    assert!(core.acquire_lease(child));

    assert!(core.begin_close());
    let blockers = core.enter_cleanup().unwrap_err();
    assert_eq!(blockers.ids(), &[child]);

    core.release_lease(child);
    assert!(core.enter_cleanup().is_ok());
    assert_eq!(core.lifecycle(), Lifecycle::Stopping);
    assert!(core.children().is_empty());
}

#[test]
fn lease_is_refused_after_close_commit() {
    let mut core: ScopeCore<u32> = ScopeCore::new();
    assert!(core.begin_close());
    assert!(!core.acquire_lease(ScopeId::new(1)));
}

#[test]
fn the_tag_is_the_sum_of_its_flags() {
    let mut core: ScopeCore<u32> = ScopeCore::new();
    assert_eq!(core.tag(), 0);
    core.request_stop();
    assert_eq!(core.tag(), REQUESTED);
    core.begin_close();
    assert_eq!(core.tag(), REQUESTED | SHUTTING);
    core.enter_cleanup().unwrap();
    core.set_lifecycle(Lifecycle::Stopped);
    assert_eq!(core.tag(), REQUESTED | SHUTTING | STOPPED);

    let mut core: ScopeCore<u32> = ScopeCore::new();
    core.abandon();
    assert_eq!(core.tag() & ABANDONED, ABANDONED);
    assert_eq!(core.tag() & STOPPED, 0);
}

#[test]
fn a_lease_that_is_given_back_leaves_no_trace() {
    let mut core: ScopeCore<u32> = ScopeCore::new();
    for id in [5, 2, 9] {
        assert!(core.acquire_lease(ScopeId::new(id)));
    }
    assert_eq!(core.children(), vec![ScopeId::new(2), ScopeId::new(5), ScopeId::new(9)]);
    assert_eq!(core.lease_count(), 3);
    assert!(core.acquire_lease(ScopeId::new(3)));
    core.release_lease(ScopeId::new(3));
    assert_eq!(core.children(), vec![ScopeId::new(2), ScopeId::new(5), ScopeId::new(9)]);
    core.release_lease(ScopeId::new(4));
    assert_eq!(core.lease_count(), 3);
}

#[test]
fn waiters_for_the_end_learn_how_it_ended() {
    let mut core: ScopeCore<u32> = ScopeCore::new();
    let mut wait: Option<WaitId> = None;
    assert!(core.poll_settled(&mut wait, 1).is_none());
    let mut other: Option<WaitId> = None;
    assert!(matches!(core.poll_cancelled(&mut other, 2), Readiness::Pending));
    assert_eq!(core.request_stop(), vec![2]);
    assert!(matches!(core.poll_cancelled(&mut other, 2), Readiness::Ready));
    assert_eq!(core.abandon(), vec![1]);
    assert_eq!(core.poll_settled(&mut wait, 1), Some(Settlement::Abandoned));

    let mut core: ScopeCore<u32> = ScopeCore::new();
    core.begin_close();
    core.enter_cleanup().unwrap();
    core.set_lifecycle(Lifecycle::Stopped);
    assert_eq!(core.settlement(), Settlement::Stopped);
    let mut wait: Option<WaitId> = None;
    assert_eq!(core.poll_settled(&mut wait, 1), Some(Settlement::Stopped));
}
