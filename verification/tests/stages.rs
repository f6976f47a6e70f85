use hwcli::error::Error;
use hwcli::stage::{Report, Stage, Step};

#[test]
fn a_run_takes_the_four_steps_in_order() {
    let mut stage = Stage::Empty;
    assert_eq!(stage.next(false), Some(Step::Allocate));
    assert_eq!(stage.record(Step::Allocate, Report::Done), Ok(()));
    assert_eq!(stage, Stage::Allocated);
    assert_eq!(stage.next(false), Some(Step::Link));
    assert_eq!(stage.record(Step::Link, Report::Done), Ok(()));
    assert_eq!(stage, Stage::Linked);
    assert_eq!(stage.next(false), Some(Step::Archive));
    assert_eq!(stage.record(Step::Archive, Report::Exited(0)), Ok(()));
    assert_eq!(stage, Stage::Archived);
    assert_eq!(stage.next(false), Some(Step::Submit));
    assert_eq!(stage.record(Step::Submit, Report::Exited(0)), Ok(()));
    assert_eq!(stage, Stage::Submitted);
    assert_eq!(stage.next(false), None);
}

#[test]
fn a_run_that_only_prepares_stops_at_the_archive() {
    assert_eq!(Stage::Empty.next(true), Some(Step::Allocate));
    assert_eq!(Stage::Allocated.next(true), Some(Step::Link));
    assert_eq!(Stage::Linked.next(true), Some(Step::Archive));
    assert_eq!(Stage::Archived.next(true), None);
    assert_eq!(Stage::Submitted.next(true), None);
}

#[test]
fn a_step_that_is_not_due_is_a_state_error() {
    let mut stage = Stage::Empty;
    assert_eq!(stage.record(Step::Submit, Report::Done), Err(Error::State));
    assert_eq!(stage, Stage::Empty);
    assert_eq!(stage.record(Step::Archive, Report::Exited(0)), Err(Error::State));
    assert_eq!(stage.record(Step::Link, Report::Done), Err(Error::State));
    assert_eq!(stage, Stage::Empty);
    let mut linked = Stage::Linked;
    assert_eq!(linked.record(Step::Submit, Report::Done), Err(Error::State));
    assert_eq!(linked.record(Step::Allocate, Report::Done), Err(Error::State));
    assert_eq!(linked, Stage::Linked);
    let mut done = Stage::Submitted;
    assert_eq!(done.record(Step::Submit, Report::Done), Err(Error::State));
    assert_eq!(done, Stage::Submitted);
}

#[test]
fn a_state_error_is_reported_before_the_failure_of_the_step() {
    let mut stage = Stage::Allocated;
    assert_eq!(stage.record(Step::Archive, Report::Failed), Err(Error::State));
    assert_eq!(stage, Stage::Allocated);
}

#[test]
fn a_failed_step_pins_the_stage_and_names_its_error() {
    let mut empty = Stage::Empty;
    assert_eq!(empty.record(Step::Allocate, Report::Failed), Err(Error::Io));
    assert_eq!(empty, Stage::Empty);
    let mut allocated = Stage::Allocated;
    assert_eq!(allocated.record(Step::Link, Report::Failed), Err(Error::Io));
    assert_eq!(allocated, Stage::Allocated);
    let mut linked = Stage::Linked;
    assert_eq!(linked.record(Step::Archive, Report::Failed), Err(Error::Archive));
    assert_eq!(linked, Stage::Linked);
    let mut archived = Stage::Archived;
    assert_eq!(archived.record(Step::Submit, Report::Failed), Err(Error::Submission));
    assert_eq!(archived, Stage::Archived);
}

#[test]
fn a_nonzero_exit_status_is_a_failure() {
    let mut linked = Stage::Linked;
    assert_eq!(linked.record(Step::Archive, Report::Exited(2)), Err(Error::Archive));
    assert_eq!(linked.record(Step::Archive, Report::Exited(-1)), Err(Error::Archive));
    assert_eq!(linked, Stage::Linked);
    let mut archived = Stage::Archived;
    assert_eq!(archived.record(Step::Submit, Report::Exited(22)), Err(Error::Submission));
    assert_eq!(archived, Stage::Archived);
}

#[test]
fn a_failed_step_can_be_tried_again() {
    let mut stage = Stage::Linked;
    assert_eq!(stage.record(Step::Archive, Report::Exited(1)), Err(Error::Archive));
    assert_eq!(stage.next(false), Some(Step::Archive));
    assert_eq!(stage.record(Step::Archive, Report::Exited(0)), Ok(()));
    assert_eq!(stage, Stage::Archived);
}
