//! What comes of the results of event handlers.

use cordis::error::{Error, ErrorKind, Phase};
use cordis::event::{join_layer, Emission, ErrorPolicy, EventControl, LayerRun, Scheduling};

type Outcome = Result<EventControl, Error<u32>>;

fn go_on() -> Outcome {
    Ok(EventControl::Continue)
}

fn bail() -> Outcome {
    Ok(EventControl::Bail)
}

fn fail() -> Outcome {
    Err(Error::new(Phase::Event, ErrorKind::Other))
}

/// The handlers that an ordered layer calls, and what it has come to.
fn ordered(results: Vec<Outcome>, policy: ErrorPolicy) -> (usize, LayerRun<u32>) {
    let mut run = LayerRun::new(Scheduling::Ordered, policy);
    let mut calls = 0;
    for result in results {
        if !run.wants_more() {
            break;
        }
        calls += 1;
        run.handled(result, Scheduling::Ordered, policy);
    }
    (calls, run)
}

#[test]
fn an_ordered_layer_ends_at_a_bail() {
    let (calls, run) = ordered(vec![go_on(), bail(), go_on()], ErrorPolicy::Abort);
    assert_eq!(calls, 2);
    let mut emission = Emission::new(Scheduling::Ordered, ErrorPolicy::Abort);
    assert!(!emission.layer_done(run));
    assert!(emission.first_error().is_ok());
}

#[test]
fn a_strict_ordered_layer_ends_at_an_error() {
    let (calls, run) = ordered(vec![go_on(), fail(), fail()], ErrorPolicy::Abort);
    assert_eq!(calls, 2);
    let mut emission = Emission::new(Scheduling::Ordered, ErrorPolicy::Abort);
    assert!(!emission.layer_done(run));
    assert_eq!(emission.errors.len(), 1);
    assert_eq!(emission.first_error().unwrap_err().to_text(), "Event: other error");
}

#[test]
fn a_collecting_emission_goes_on_after_errors() {
    let mut emission = Emission::new(Scheduling::Ordered, ErrorPolicy::Collect);
    let (calls, run) = ordered(vec![fail(), go_on(), fail()], ErrorPolicy::Collect);
    assert_eq!(calls, 3);
    assert!(emission.layer_done(run));
    let (_, run) = ordered(vec![fail()], ErrorPolicy::Collect);
    assert!(emission.layer_done(run));
    assert_eq!(emission.errors.len(), 3);
}

#[test]
fn a_concurrent_layer_hears_everybody() {
    let run = join_layer(vec![bail(), fail(), fail()], ErrorPolicy::Abort);
    let mut emission = Emission::new(Scheduling::Concurrent, ErrorPolicy::Abort);
    assert!(!emission.layer_done(run));
    let error = emission.all_errors().unwrap_err();
    assert_eq!(
        error.to_text(),
        "Event: multiple errors:\n  1. Event: other error\n  2. Event: other error"
    );

    let run = join_layer(vec![go_on(), bail()], ErrorPolicy::Collect);
    let mut emission: Emission<u32> = Emission::new(Scheduling::Concurrent, ErrorPolicy::Collect);
    assert!(!emission.layer_done(run));
    assert!(emission.all_errors().is_ok());

    let run = join_layer(vec![go_on(), go_on()], ErrorPolicy::Abort);
    let mut emission: Emission<u32> = Emission::new(Scheduling::Concurrent, ErrorPolicy::Abort);
    assert!(emission.layer_done(run));
}
