use hooch::spawner::JoinHandleError;
use hooch::time::timeout::TimeoutError;

#[test]
fn timeout_error_text() {
    assert_eq!(TimeoutError.to_string(), "TimeoutError");
}

#[test]
fn join_handle_error_text() {
    let err = JoinHandleError::new("Error occurred while awaiting task".to_string());
    assert_eq!(err.to_string(), "Error occurred while awaiting task");
}

use hooch::time::timeout::{timeout_outcome, TimeoutPoll};

#[test]
fn fired_timer_wins_over_output() {
    assert!(matches!(timeout_outcome(true, Some(3)), TimeoutPoll::Ready(Err(TimeoutError))));
    assert!(matches!(timeout_outcome::<i32>(true, None), TimeoutPoll::Ready(Err(_))));
}

#[test]
fn output_before_timer_is_ok() {
    assert!(matches!(timeout_outcome(false, Some(7)), TimeoutPoll::Ready(Ok(7))));
    assert!(matches!(timeout_outcome::<i32>(false, None), TimeoutPoll::Pending));
}
