//! Queued notifications.

use std::sync::Arc;

use cordis::event::HandlerEntry;
use cordis::notify::{
    NotifyHub, Receipt, WorkerAction, WorkerEvent, WorkerMode, DEFAULT_LANE_CAPACITY,
};
use cordis::outlet::{queued_with, Outlet, SendOutcome, Signal};

type Hub = NotifyHub<u32, &'static str>;

fn entry(id: usize, event: u64, handler: &'static str) -> HandlerEntry<&'static str> {
    HandlerEntry { id, event, handler: Arc::new(handler) }
}

fn receipt(delivered: usize, dropped: usize, rejected: usize) -> Receipt {
    Receipt { delivered, dropped, rejected }
}

#[test]
fn an_event_reaches_the_lanes_of_its_type() {
    let mut hub = Hub::build(&vec![entry(0, 7, "a"), entry(3, 8, "b"), entry(4, 7, "c")]);
    let inputs = hub.take_inputs();
    assert!(hub.take_inputs().is_empty());
    let names: Vec<&str> = inputs.iter().map(|input| *input.handler).collect();
    assert_eq!(names, vec!["a", "b", "c"]);
    let mut receivers: Vec<_> =
        inputs.into_iter().map(|input| input.rx.into_receiver()).collect();

    assert_eq!(hub.enqueue(7, &Arc::new(70)), receipt(2, 0, 0));
    assert_eq!(hub.enqueue(8, &Arc::new(80)), receipt(1, 0, 0));
    assert_eq!(hub.enqueue(9, &Arc::new(90)), receipt(0, 0, 0));
    let queued: Vec<(usize, usize)> =
        hub.backlog().iter().map(|lane| (lane.handler_id, lane.queued)).collect();
    assert_eq!(queued, vec![(0, 1), (3, 1), (4, 1)]);

    assert_eq!(receivers[0].try_recv().map(|event| *event), Ok(70));
    assert_eq!(receivers[1].try_recv().map(|event| *event), Ok(80));
    assert_eq!(receivers[2].try_recv().map(|event| *event), Ok(70));
    assert!(receivers[0].try_recv().is_err());
    assert!(hub.backlog().iter().all(|lane| lane.queued == 0));
}

#[test]
fn a_full_lane_drops_and_counts() {
    let mut hub = Hub::build(&vec![entry(5, 1, "slow")]);
    let inputs = hub.take_inputs();
    for _ in 0..DEFAULT_LANE_CAPACITY {
        assert_eq!(hub.enqueue(1, &Arc::new(0)), receipt(1, 0, 0));
    }
    assert_eq!(hub.enqueue(1, &Arc::new(0)), receipt(0, 1, 0));
    assert_eq!(hub.enqueue(1, &Arc::new(0)), receipt(0, 1, 0));
    let backlog = hub.backlog();
    assert_eq!(backlog[0].queued, DEFAULT_LANE_CAPACITY);
    assert_eq!((backlog[0].dropped, backlog[0].rejected), (2, 0));
    drop(inputs);
    assert_eq!(hub.enqueue(1, &Arc::new(0)), receipt(0, 0, 1));
    let backlog = hub.backlog();
    assert_eq!((backlog[0].dropped, backlog[0].rejected), (2, 1));
}

#[test]
fn a_hub_that_drains_rejects_and_signals() {
    let mut hub = Hub::build(&vec![entry(0, 1, "a"), entry(1, 1, "b"), entry(2, 3, "c")]);
    let _inputs = hub.take_inputs();
    let signal = hub.shutdown_signal();
    assert!(!*signal.borrow());
    hub.begin_drain();
    assert!(*signal.borrow());
    assert_eq!(hub.enqueue(1, &Arc::new(0)), receipt(0, 0, 1));
    assert_eq!(hub.enqueue(3, &Arc::new(0)), receipt(0, 0, 1));
    assert_eq!(hub.enqueue(1, &Arc::new(0)), receipt(0, 0, 1));
    assert_eq!(hub.enqueue(9, &Arc::new(0)), receipt(0, 0, 1));
    let counts: Vec<(usize, u64, u64)> =
        hub.backlog().iter().map(|lane| (lane.queued, lane.dropped, lane.rejected)).collect();
    assert_eq!(counts, vec![(0, 0, 2), (0, 0, 2), (0, 0, 1)]);
}

#[test]
fn receipts_add_up() {
    let mut total = Receipt::default();
    total.merge(receipt(1, 2, 3));
    total.merge(receipt(10, 20, 30));
    assert_eq!(total, receipt(11, 22, 33));

    assert_eq!(Receipt::sum(&Vec::new()), Some(receipt(0, 0, 0)));
    let receipts = vec![receipt(1, 2, 3), receipt(10, 20, 30), receipt(0, 0, 1)];
    assert_eq!(Receipt::sum(&receipts), Some(receipt(11, 22, 34)));
    assert_eq!(Receipt::sum(&vec![receipt(0, usize::MAX, 0), receipt(0, 1, 0)]), None);
}

#[test]
fn a_worker_finishes_what_is_queued() {
    let mut mode = WorkerMode::Serving;
    assert_eq!(mode.step(WorkerEvent::Took { alive: true }), WorkerAction::Handle);
    assert_eq!(mode.step(WorkerEvent::Shutdown), WorkerAction::Wait);
    assert_eq!(mode, WorkerMode::Draining);
    assert_eq!(mode.step(WorkerEvent::Took { alive: true }), WorkerAction::Handle);
    assert_eq!(mode.step(WorkerEvent::Empty), WorkerAction::End);
    assert_eq!(mode, WorkerMode::Ended);
    assert_eq!(mode.step(WorkerEvent::Took { alive: true }), WorkerAction::End);

    let mut mode = WorkerMode::Serving;
    assert_eq!(mode.step(WorkerEvent::Disconnected), WorkerAction::End);
    let mut mode = WorkerMode::Serving;
    assert_eq!(mode.step(WorkerEvent::Took { alive: false }), WorkerAction::End);
}

#[test]
fn an_outlet_offers_until_its_queue_is_full_or_closed() {
    let (mut outlet, inlet) = Outlet::new(2);
    let mut receiver = inlet.into_receiver();
    assert_eq!(outlet.queued(), 0);
    assert_eq!(outlet.offer("a"), SendOutcome::Sent);
    assert_eq!(outlet.offer("b"), SendOutcome::Sent);
    assert_eq!(outlet.offer("c"), SendOutcome::Full);
    assert_eq!(outlet.queued(), 2);
    assert_eq!(receiver.try_recv(), Ok("a"));
    assert_eq!(outlet.queued(), 1);
    receiver.close();
    assert_eq!(outlet.offer("d"), SendOutcome::Closed);
    assert_eq!(queued_with(5, 2), 3);
    assert_eq!(queued_with(2, 5), 0);
}

#[test]
fn a_signal_reaches_those_who_wait() {
    let mut signal = Signal::new();
    let mut early = signal.watch();
    assert_eq!(early.has_changed().ok(), Some(false));
    assert!(!signal.raise());
    assert!(signal.raise());
    assert_eq!(early.has_changed().ok(), Some(true));
    assert!(*early.borrow_and_update());
    let late = signal.watch();
    assert!(*late.borrow());
    assert_eq!(late.has_changed().ok(), Some(false));
    signal.raise();
    assert_eq!(late.has_changed().ok(), Some(true));
}
