use opencuboids::net::{connect_step, keep_reading, ConnectStep, ReadOutcome, CONNECT_TRIES};

#[test]
fn connect_retries_count_down_to_failure() {
    let mut tries = CONNECT_TRIES;
    let mut attempts = 1; // the initial attempt
    loop {
        match connect_step(tries) {
            ConnectStep::RetryAfterDelay(left) => {
                assert_eq!(left, tries - 1);
                tries = left;
                attempts += 1;
            }
            ConnectStep::GiveUp => break,
        }
    }
    assert_eq!(attempts, CONNECT_TRIES as usize + 1);
}

#[test]
fn exhausted_retries_give_up() {
    assert_eq!(connect_step(0), ConnectStep::GiveUp);
    assert_eq!(connect_step(1), ConnectStep::RetryAfterDelay(0));
}

#[test]
fn timeouts_are_not_errors() {
    assert!(keep_reading(ReadOutcome::Data));
    assert!(keep_reading(ReadOutcome::TimedOut));
    assert!(!keep_reading(ReadOutcome::Failed));
}
