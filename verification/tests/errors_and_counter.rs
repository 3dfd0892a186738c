use video_scheduler::counter::{decrement_thread_local_counter, increment_thread_local_counter};
use video_scheduler::errors::ServerError;

#[test]
fn critical_message_has_prefix() {
    let e = ServerError::Critical("Failed to set up TCP Listener".to_string());
    assert_eq!(e.message(), "Critical Error: Failed to set up TCP Listener");
}

#[test]
fn custom_message_has_prefix() {
    let e = ServerError::CustomError("Invalid range format.".to_string());
    assert_eq!(e.message(), "Custom error: Invalid range format.");
}

#[test]
fn errors_have_no_source() {
    assert!(ServerError::Critical(String::new()).source().is_none());
    assert!(ServerError::CustomError("x".to_string()).source().is_none());
}

#[test]
fn increment_counts_up() {
    let mut c: usize = 0;
    increment_thread_local_counter(&mut c);
    increment_thread_local_counter(&mut c);
    assert_eq!(c, 2);
}

#[test]
fn decrement_counts_down() {
    let mut c: usize = 5;
    decrement_thread_local_counter(&mut c);
    assert_eq!(c, 4);
}

#[test]
fn decrement_stays_at_zero() {
    let mut c: usize = 0;
    decrement_thread_local_counter(&mut c);
    assert_eq!(c, 0);
}

#[test]
fn decrement_undoes_increment() {
    for start in [0usize, 1, 17, usize::MAX - 1] {
        let mut c = start;
        increment_thread_local_counter(&mut c);
        decrement_thread_local_counter(&mut c);
        assert_eq!(c, start);
    }
}
