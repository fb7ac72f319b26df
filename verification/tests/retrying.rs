use kick::error::ApiError;
use kick::plugin::PluginManager;
use kick::retry::{run_with_retries, RetryEngine, RetryPolicy, RetryStep};

fn policy(max_retries: u32) -> RetryPolicy {
    RetryPolicy { max_retries, retry_delay_ms: 5 }
}

#[test]
fn test_retry_bound_exhausts_budget() {
    // A transport that always fails with a retryable error: exactly
    // max_retries + 1 attempts, the retry hooks see 1, 2, 3, and the error
    // of the last attempt comes back.
    let manager = PluginManager::new();
    let outcomes: Vec<Result<String, ApiError>> = vec![
        Err(ApiError::Http("boom 0".to_string())),
        Err(ApiError::Http("boom 1".to_string())),
        Err(ApiError::Http("boom 2".to_string())),
        Err(ApiError::Http("boom 3".to_string())),
    ];
    let report = run_with_retries(&policy(3), &manager, outcomes);
    assert_eq!(report.attempts, 4);
    assert_eq!(report.retry_hook_attempts, vec![1, 2, 3]);
    assert!(matches!(report.result, Err(ApiError::Http(m)) if m == "boom 3"));
}

#[test]
fn test_client_error_is_not_retried() {
    // A 404-equivalent status ends the run after one attempt, whatever the
    // budget.
    let manager = PluginManager::new();
    let outcomes: Vec<Result<String, ApiError>> = vec![
        Err(ApiError::HttpStatus { status: 404 }),
        Err(ApiError::Http("unreached".to_string())),
        Err(ApiError::Http("unreached".to_string())),
        Err(ApiError::Http("unreached".to_string())),
    ];
    let report = run_with_retries(&policy(3), &manager, outcomes);
    assert_eq!(report.attempts, 1);
    assert!(report.retry_hook_attempts.is_empty());
    assert!(matches!(report.result, Err(ApiError::HttpStatus { status: 404 })));
}

#[test]
fn test_server_error_is_retried_until_success() {
    let manager = PluginManager::new();
    let outcomes: Vec<Result<String, ApiError>> = vec![
        Err(ApiError::HttpStatus { status: 503 }),
        Err(ApiError::Timeout),
        Ok("finally".to_string()),
        Ok("unreached".to_string()),
    ];
    let report = run_with_retries(&policy(3), &manager, outcomes);
    assert_eq!(report.attempts, 3);
    assert_eq!(report.retry_hook_attempts, vec![1, 2]);
    assert!(matches!(report.result, Ok(body) if body == "finally"));
}

#[test]
fn test_first_attempt_success_needs_no_retry() {
    let manager = PluginManager::new();
    let outcomes: Vec<Result<String, ApiError>> = vec![
        Ok("at once".to_string()),
        Ok("unreached".to_string()),
        Ok("unreached".to_string()),
        Ok("unreached".to_string()),
    ];
    let report = run_with_retries(&policy(3), &manager, outcomes);
    assert_eq!(report.attempts, 1);
    assert!(report.retry_hook_attempts.is_empty());
    assert!(matches!(report.result, Ok(body) if body == "at once"));
}

#[test]
fn test_retry_engine_steps() {
    let mut engine = RetryEngine::new(policy(2));
    // A retryable failure asks for a backoff with the configured delay.
    match engine.record_outcome(Err(ApiError::Timeout)) {
        RetryStep::Backoff { next_attempt, delay_ms } => {
            assert_eq!(next_attempt, 1);
            assert_eq!(delay_ms, 5);
        }
        RetryStep::Done(_) => panic!("expected a backoff"),
    }
    // Success ends the run.
    match engine.record_outcome(Ok("done".to_string())) {
        RetryStep::Done(Ok(body)) => assert_eq!(body, "done"),
        _ => panic!("expected the final result"),
    }
}

#[test]
fn test_retry_engine_stops_at_budget() {
    let mut engine = RetryEngine::new(policy(1));
    assert!(matches!(
        engine.record_outcome(Err(ApiError::Timeout)),
        RetryStep::Backoff { next_attempt: 1, .. }
    ));
    // The budget is spent: the next failure is final.
    match engine.record_outcome(Err(ApiError::Http("last".to_string()))) {
        RetryStep::Done(Err(ApiError::Http(m))) => assert_eq!(m, "last"),
        _ => panic!("expected the final error"),
    }
}

#[test]
fn test_error_classification() {
    assert!(ApiError::Http("x".to_string()).is_retryable());
    assert!(ApiError::Timeout.is_retryable());
    assert!(ApiError::HttpStatus { status: 500 }.is_retryable());
    assert!(ApiError::HttpStatus { status: 599 }.is_retryable());
    assert!(!ApiError::HttpStatus { status: 404 }.is_retryable());
    assert!(!ApiError::HttpStatus { status: 302 }.is_retryable());
    assert!(!ApiError::RateLimit.is_retryable());
    assert!(!ApiError::Serialization("x".to_string()).is_retryable());

    assert!(ApiError::HttpStatus { status: 404 }.is_client_error());
    assert!(!ApiError::HttpStatus { status: 500 }.is_client_error());
    assert!(!ApiError::Timeout.is_client_error());
}

#[test]
fn test_error_constructors() {
    assert!(matches!(ApiError::config("c".to_string()), ApiError::Config(m) if m == "c"));
    assert!(matches!(ApiError::plugin("p".to_string()), ApiError::Plugin(m) if m == "p"));
    assert!(matches!(ApiError::storage("s".to_string()), ApiError::Storage(m) if m == "s"));
    assert!(matches!(ApiError::stream("t".to_string()), ApiError::Stream(m) if m == "t"));
    assert!(matches!(ApiError::other("o".to_string()), ApiError::Other(m) if m == "o"));
}
