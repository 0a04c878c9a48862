//! How tasks end, and what a stop reports of them.

use cordis::error::{Error, ErrorKind, Phase};
use cordis::id::TaskId;
use cordis::tasks::{
    panic_message, AbortReason, BodyEnd, TaskCell, TaskOutcome, TaskOutcomeKind, TaskRegistry,
};
use cordis::waiters::WaitId;

type Cell = TaskCell<u32, u32>;

fn cell(number: u64) -> Cell {
    TaskCell::new(TaskId::new(number))
}

fn failure() -> Error<u32> {
    Error::new(Phase::Start, ErrorKind::Other)
}

fn drained(cell: &mut Cell, timed_out: bool) -> Vec<String> {
    let mut errors = Vec::new();
    cell.drain(timed_out, &mut errors);
    errors.iter().map(Error::to_text).collect()
}

#[test]
fn a_task_that_is_done_is_nothing_to_report() {
    let mut cell = cell(3);
    let mut wait: Option<WaitId> = None;
    cell.finished.poll(&mut wait, 9);
    let (event, wakers) = cell.body_ended(BodyEnd::Done);
    assert!(event.is_none());
    assert_eq!(wakers, vec![9]);
    assert!(cell.is_finished());
    assert!(cell.outcome_kind() == Some(TaskOutcomeKind::Completed));
    assert!(!cell.must_stay());
    assert!(cell.outcome().is_success());
    assert!(drained(&mut cell, false).is_empty());
}

#[test]
fn a_failure_that_was_told_is_not_reported_again() {
    let mut cell = cell(4);
    let (event, wakers) = cell.body_ended(BodyEnd::Failed(failure()));
    let event = event.unwrap();
    assert_eq!(event.task_id, TaskId::new(4));
    assert_eq!(event.error.to_text(), "Start: other error");
    assert!(wakers.is_empty());
    assert!(!cell.is_finished());
    cell.report_ended(true);
    assert!(cell.is_finished());
    assert!(!cell.must_stay());
    assert!(drained(&mut cell, false).is_empty());
    assert!(cell.outcome().into_result(TaskId::new(4)).is_err());
}

#[test]
fn a_failure_that_was_not_told_is_reported() {
    let mut cell = cell(5);
    cell.body_ended(BodyEnd::Failed(failure()));
    cell.report_ended(false);
    assert!(cell.must_stay());
    assert_eq!(drained(&mut cell, false), vec!["Stop: background task#5 panicked"]);
}

#[test]
fn draining_a_table_reports_each_task_once_the_last_one_first() {
    let mut table: TaskRegistry<Cell> = TaskRegistry::new();
    let mut panicked = cell(1);
    panicked.body_ended(BodyEnd::Panicked(None));
    let mut completed = cell(2);
    completed.body_ended(BodyEnd::Done);
    for task in [panicked, completed, cell(3)] {
        table.publish(task);
    }
    let mut errors = vec![failure()];
    let mut drained: Vec<TaskId> = Vec::new();
    while table.tail().is_some() {
        let mut task = table.pop().unwrap();
        let timed_out = !task.is_finished();
        task.drain(timed_out, &mut errors);
        assert!(task.is_finished());
        drained.push(task.id);
    }
    assert_eq!(drained, vec![TaskId::new(3), TaskId::new(2), TaskId::new(1)]);
    let texts: Vec<String> = errors.iter().map(Error::to_text).collect();
    assert_eq!(
        texts,
        vec![
            "Start: other error",
            "Stop: background task#3 aborted after drain timeout",
            "Stop: background task#1 panicked",
        ]
    );
}

#[test]
fn what_is_to_be_reported_is_known_before_the_task_has_ended() {
    let mut cell = cell(8);
    cell.body_ended(BodyEnd::Failed(failure()));
    assert!(!cell.is_finished());
    assert!(cell.needs_drain_report());
    let error = cell.drain_report_error().unwrap();
    assert_eq!(error.phase, Phase::Stop);
    assert!(matches!(error.kind, ErrorKind::TaskFailed { task_id } if task_id == TaskId::new(8)));
    cell.report_ended(true);
    assert!(cell.drain_report_error().is_none());
}

#[test]
fn a_panic_is_reported_and_an_abort_does_not_hide_it() {
    let mut cell = cell(6);
    cell.body_ended(BodyEnd::Panicked(Some("boom".to_string())));
    let (initiated, _) = cell.abort(true);
    assert!(!initiated);
    assert!(
        matches!(cell.outcome(), TaskOutcome::Panicked(info) if info.message.as_deref() == Some("boom"))
    );
    assert_eq!(drained(&mut cell, false), vec!["Stop: background task#6 panicked"]);
}

#[test]
fn only_running_out_of_time_makes_a_cancelled_task_an_error() {
    let mut by_owner = cell(1);
    let (initiated, _) = by_owner.abort(true);
    assert!(initiated);
    assert!(matches!(by_owner.outcome(), TaskOutcome::Aborted(AbortReason::Owner)));
    assert!(drained(&mut by_owner, false).is_empty());
    assert!(by_owner.outcome().into_result(TaskId::new(1)).is_ok());

    let mut late = cell(2);
    assert_eq!(
        drained(&mut late, true),
        vec!["Stop: background task#2 aborted after drain timeout"]
    );
    assert!(matches!(late.outcome(), TaskOutcome::Aborted(AbortReason::Timeout)));

    let mut gone = cell(3);
    gone.dropped(false);
    assert!(matches!(gone.outcome(), TaskOutcome::Aborted(AbortReason::HostShutdown)));
    assert!(drained(&mut gone, false).is_empty());

    let mut unwound = cell(4);
    unwound.dropped(true);
    assert_eq!(drained(&mut unwound, false), vec!["Stop: background task#4 panicked"]);
}

#[test]
fn the_first_outcome_stays() {
    let mut cell = cell(7);
    assert!(cell.set_outcome(TaskOutcome::Completed));
    assert!(!cell.set_outcome(TaskOutcome::Aborted(AbortReason::Timeout)));
    cell.finish(TaskOutcome::Aborted(AbortReason::Owner));
    assert!(matches!(cell.peek_outcome(), Some(TaskOutcome::Completed)));
}

#[test]
fn a_panic_says_what_its_payload_holds() {
    let owned = "owned".to_string();
    assert_eq!(panic_message(Some("literal"), None), Some("literal".to_string()));
    assert_eq!(panic_message(None, Some(&owned)), Some("owned".to_string()));
    assert_eq!(panic_message(None, None), None);
}

#[test]
fn an_attached_task_is_cancelled_by_an_abort() {
    let runtime = tokio::runtime::Builder::new_current_thread().build().unwrap();
    runtime.block_on(async {
        let task = tokio::spawn(futures::future::pending::<()>());
        let mut cell = cell(0);
        cell.attach(task.abort_handle());
        cell.abort(true);
        assert!(task.await.unwrap_err().is_cancelled());
    });
}

#[test]
fn a_table_needs_a_task_runtime() {
    let mut table: TaskRegistry<u64> = TaskRegistry::new();
    let error: Error<u32> = table.begin_spawn(false, |_| true).err().unwrap();
    assert_eq!(error.to_text(), "Build: no tokio runtime context for spawn");
    let error: Error<u32> = table.begin_spawn(true, |_| true).err().unwrap();
    assert!(matches!(error.kind, ErrorKind::NoTaskRuntime));

    let runtime = tokio::runtime::Builder::new_current_thread().build().unwrap();
    runtime.block_on(async {
        let (handle, id) =
            table.begin_spawn::<u32, _>(false, |_| true).map_err(|error| error.to_text()).unwrap();
        assert_eq!(id, TaskId::new(0));
        let spawned = handle.spawn(async { 5 });
        assert_eq!(spawned.await.unwrap(), 5);
        let (_, id) =
            table.begin_spawn::<u32, _>(false, |_| true).map_err(|error| error.to_text()).unwrap();
        assert_eq!(id, TaskId::new(1));
        assert!(matches!(
            table.begin_spawn::<u32, _>(true, |_| true).err().unwrap().kind,
            ErrorKind::Stopping
        ));
    });
}

#[test]
fn a_full_table_is_thinned_out() {
    let runtime = tokio::runtime::Builder::new_current_thread().build().unwrap();
    runtime.block_on(async {
        let mut table: TaskRegistry<u64> = TaskRegistry::new();
        for number in 0..4 {
            assert!(table.begin_spawn::<u32, _>(false, |_| false).is_ok());
            table.publish(number);
        }
        assert_eq!(table.len(), 4);
        assert_eq!(table.task_count(|&number| number != 1), 3);
        assert!(table.begin_spawn::<u32, _>(false, |&number| number == 2).is_ok());
        assert_eq!(table.len(), 1);
        table.publish(4);
        assert_eq!(table.tail(), Some(&4));
        assert_eq!(table.pop(), Some(4));
        assert_eq!(table.pop(), Some(2));
        assert_eq!(table.pop(), None);
    });
}
