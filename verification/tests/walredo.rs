use pageserver_core::walredo::{
    after_attempt, redo_batches, should_quiesce, AfterAttempt, Error, RedoBatch,
    MAX_RETRY_ATTEMPTS,
};

fn batch(neon: bool, start: usize, end: usize) -> RedoBatch {
    RedoBatch { neon, start, end }
}

#[test]
fn a_request_without_records_is_invalid() {
    match redo_batches(&vec![]) {
        Err(Error::Other(message)) => {
            assert_eq!(message, "invalid WAL redo request with no records")
        }
        _ => panic!("expected an error"),
    }
}

#[test]
fn records_of_one_kind_are_one_batch() {
    assert_eq!(redo_batches(&vec![true]).unwrap(), vec![batch(true, 0, 1)]);
    assert_eq!(redo_batches(&vec![false, false, false]).unwrap(), vec![batch(false, 0, 3)]);
}

#[test]
fn batches_change_with_the_kind() {
    let kinds = vec![false, false, true, false, true, true, true];
    assert_eq!(
        redo_batches(&kinds).unwrap(),
        vec![batch(false, 0, 2), batch(true, 2, 3), batch(false, 3, 4), batch(true, 4, 7)]
    );
    let alternating = vec![true, false, true];
    assert_eq!(
        redo_batches(&alternating).unwrap(),
        vec![batch(true, 0, 1), batch(false, 1, 2), batch(true, 2, 3)]
    );
}

#[test]
fn a_failure_is_retried_once() {
    assert_eq!(MAX_RETRY_ATTEMPTS, 1);
    assert_eq!(after_attempt(0, true, false), AfterAttempt::Return);
    assert_eq!(after_attempt(0, false, false), AfterAttempt::Retry);
    assert_eq!(after_attempt(1, false, false), AfterAttempt::Return);
    assert_eq!(after_attempt(1, true, false), AfterAttempt::Return);
    assert_eq!(after_attempt(u32::MAX, false, false), AfterAttempt::Return);
}

#[test]
fn a_failure_during_shutdown_is_a_cancellation() {
    assert_eq!(after_attempt(0, false, true), AfterAttempt::Cancelled);
    assert_eq!(after_attempt(1, false, true), AfterAttempt::Cancelled);
    // a success is a success
    assert_eq!(after_attempt(0, true, true), AfterAttempt::Return);
}

#[test]
fn an_idle_process_is_quiesced() {
    assert!(!should_quiesce(None, 1_000, 0));
    assert!(should_quiesce(Some(100), 1_000, 900));
    assert!(!should_quiesce(Some(100), 1_000, 901));
    assert!(should_quiesce(Some(100), 1_000, 0));
    // a clock that did not advance
    assert!(!should_quiesce(Some(1_000), 100, 1));
    assert!(should_quiesce(Some(1_000), 100, 0));
}

#[test]
fn errors_in_words() {
    assert_eq!(Error::Cancelled.message(), "cancelled");
    assert_eq!(Error::Other("launch walredo process".to_string()).message(), "launch walredo process");
}
