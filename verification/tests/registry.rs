//! The table of named child scopes, step by step.

use cordis::error::{Error, ErrorKind, Phase};
use cordis::id::{Blockers, ScopeId, TaskId};
use cordis::registry::{
    CloseAllReport, CloseReport, CloseStatus, RegistryError, ScopeRegistry,
};
use cordis::runtime::StopOutcome;

type Table = ScopeRegistry<&'static str, u32>;
type Failed = RegistryError<u32>;

fn bound() -> Table {
    let mut table = Table::new();
    table.bind::<u32>("parent").unwrap();
    table
}

fn opened(name: &str, owner: u32) -> Table {
    let mut table = bound();
    table.claim::<u32>(name).unwrap();
    assert!(table.publish(name, owner).is_none());
    table
}

fn stopped() -> StopOutcome<u32> {
    StopOutcome::Stopped { errors: Vec::new() }
}

fn blocked() -> StopOutcome<u32> {
    StopOutcome::Blocked(Blockers::new(vec![ScopeId::new(1)]))
}

#[test]
fn a_registry_has_one_parent() {
    let mut table = Table::new();
    assert!(matches!(table.parent::<u32>(), Err(Failed::Unbound)));
    assert!(matches!(table.claim::<u32>("s"), Err(Failed::Unbound)));
    table.bind::<u32>("parent").unwrap();
    assert_eq!(*table.parent::<u32>().unwrap(), "parent");
    assert!(matches!(table.bind::<u32>("other"), Err(Failed::Unbound)));
}

#[test]
fn a_name_is_claimed_once() {
    let mut table = bound();
    table.claim::<u32>("s").unwrap();
    assert!(matches!(table.claim::<u32>("s"), Err(Failed::AlreadyExists(name)) if name == "s"));
    assert!(matches!(table.begin_close::<u32>("s"), Err(Failed::Busy(name)) if name == "s"));
    assert!(table.get("s").is_none());
    assert!(table.is_claimed("s"));
    assert!(!table.is_claimed("x"));
    table.unclaim("s");
    assert!(!table.is_claimed("s"));
    assert!(table.names().is_empty());
    table.claim::<u32>("s").unwrap();
    assert!(table.publish("s", 5).is_none());
    assert!(!table.is_claimed("s"));
    assert_eq!(table.get("s"), Some(&5));
    assert_eq!(table.names(), vec!["s"]);
}

#[test]
fn a_scope_is_closed_by_one_caller() {
    let mut table = opened("s", 5);
    assert!(matches!(table.begin_close::<u32>("x"), Err(Failed::NotFound(name)) if name == "x"));
    assert_eq!(table.begin_close::<u32>("s").unwrap(), 5);
    assert!(matches!(table.begin_close::<u32>("s"), Err(Failed::Busy(_))));
    assert!(table.get("s").is_none());
    let (report, owner) = table.end_close("s", 5, stopped());
    assert_eq!(report.status, CloseStatus::Clean);
    assert_eq!(owner, Some(5));
    assert!(table.names().is_empty());
}

#[test]
fn a_blocked_scope_keeps_its_name_and_owner() {
    let mut table = opened("s", 5);
    table.begin_close::<u32>("s").unwrap();
    let (report, owner) = table.end_close("s", 5, blocked());
    assert_eq!(report.status, CloseStatus::Blocked);
    assert_eq!(owner, None);
    assert_eq!(table.names(), vec!["s"]);
    assert!(table.get("s").is_none());
    assert_eq!(table.begin_close::<u32>("s").unwrap(), 5);
}

#[test]
fn an_interrupted_close_can_be_taken_up_again() {
    let mut table = opened("s", 5);
    let owner = table.begin_close::<u32>("s").unwrap();
    table.restore("s", owner);
    assert!(table.get("s").is_none());
    assert_eq!(table.begin_close::<u32>("s").unwrap(), 5);
}

#[test]
fn a_failed_start_frees_the_name() {
    let mut table = bound();
    table.claim::<u32>("s").unwrap();
    let error = Error::new(Phase::Start, ErrorKind::Other);
    let (failure, owner) = table.start_failed("s", 5, stopped(), error);
    assert_eq!(failure.to_text(), "scope error: Start: other error");
    assert_eq!(owner, Some(5));
    assert!(table.names().is_empty());

    table.claim::<u32>("s").unwrap();
    let error = Error::new(Phase::Start, ErrorKind::Other);
    let (_, owner) = table.start_failed("s", 6, blocked(), error);
    assert_eq!(owner, None);
    assert_eq!(table.begin_close::<u32>("s").unwrap(), 6);
}

#[test]
fn nothing_is_published_after_the_shutdown_began() {
    let mut table = opened("s", 5);
    table.claim::<u32>("late").unwrap();
    assert!(!table.is_shutting_down());
    let mut names = table.begin_close_all();
    names.sort();
    assert_eq!(names, vec!["late", "s"]);
    assert!(table.is_shutting_down());
    assert!(matches!(table.claim::<u32>("t"), Err(Failed::ShuttingDown)));
    assert_eq!(table.publish("late", 6), Some(6));
    let (failure, owner) = table.publish_rejected("late", 6, stopped());
    assert!(matches!(failure, Failed::ShuttingDown));
    assert_eq!(owner, Some(6));
    assert_eq!(table.names(), vec!["s"]);
}

#[test]
fn a_report_tells_the_worst_of_a_stop() {
    let aborted = Error::new(Phase::Stop, ErrorKind::TaskAborted { task_id: TaskId::new(3) });
    let other = || Error::<u32>::new(Phase::Stop, ErrorKind::Other);
    let report = CloseReport::derive(StopOutcome::Stopped { errors: vec![other(), aborted] });
    assert_eq!(report.status, CloseStatus::Aborted);
    assert_eq!(report.aborted_tasks(), vec![TaskId::new(3)]);
    assert!(!report.is_clean());
    let report = CloseReport::derive(StopOutcome::Stopped { errors: vec![other()] });
    assert_eq!(report.status, CloseStatus::Failed);
    assert!(report.aborted_tasks().is_empty());
    assert!(CloseReport::derive(stopped()).is_clean());
    assert_eq!(CloseReport::status_of(&blocked()), CloseStatus::Blocked);
}

#[test]
fn closing_all_is_clean_where_every_close_was() {
    let mut all: CloseAllReport<u32> = CloseAllReport::default();
    assert!(all.is_clean());
    all.record("a".to_string(), Ok(CloseReport::derive(stopped())));
    assert!(all.is_clean());
    all.record("b".to_string(), Err(RegistryError::Busy("b".to_string())));
    assert!(!all.is_clean());
    assert_eq!(all.closed.len(), 1);
}

#[test]
fn of_several_claims_the_first_one_counts() {
    let mut table = opened("other", 1);
    assert!(table.claim::<u32>("s").is_ok());
    for _ in 0..3 {
        let refused = table.claim::<u32>("s");
        assert!(matches!(refused, Err(Failed::AlreadyExists(name)) if name == "s"));
    }
    assert!(table.is_claimed("s"));
}
