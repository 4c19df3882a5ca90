//! Tests of the failure envelope: retry bookkeeping with jittered
//! backoff, the circuit breaker state machine, and the error taxonomy.

use task_mesh::breaker::{CircuitBreaker, CircuitBreakerState};
use task_mesh::errors::{
    with_context, ErrorCategory, ErrorContext, ErrorKind, ErrorSeverity, OrchestratorError,
};
use task_mesh::retry::{RetryInfo, RetryPolicy};
use task_mesh::types::BackoffStrategy;

#[test]
fn test_error_properties() {
    let error = OrchestratorError::TaskNotFound(12345);

    assert!(!error.is_recoverable());
    assert_eq!(error.error_code(), "TASK_NOT_FOUND");
    assert_eq!(error.category(), ErrorCategory::NotFound);
}

#[test]
fn test_error_kind_classification() {
    let kind = ErrorKind::Runtime {
        component: "executor".to_string(),
        operation: "dispatch".to_string(),
        cause: "overload".to_string(),
    };
    assert!(kind.is_recoverable());
    assert_eq!(kind.severity(), ErrorSeverity::Error);
    assert_eq!(kind.telemetry_category(), "symbiotic.runtime");

    let kind = ErrorKind::Validation {
        field: "name".to_string(),
        rule: "nonempty".to_string(),
        value: String::new(),
    };
    assert!(!kind.is_recoverable());
    assert_eq!(kind.severity(), ErrorSeverity::Warning);
}

#[test]
fn test_error_context() {
    let context = ErrorContext::new("test_operation", "test_component")
        .with_metadata("key", "value");

    assert_eq!(context.operation, "test_operation");
    assert_eq!(context.component, "test_component");
    assert!(context.has_metadata_key("key"));
}

#[test]
fn test_with_context() {
    let result: Result<i32, OrchestratorError> =
        Err(OrchestratorError::InternalError("test".to_string()));
    let context = ErrorContext::new("test", "test");

    let (context_result, _ctx) = with_context(result, context);
    assert!(context_result.is_err());
}

#[test]
fn test_retry_info() {
    let mut retry_info = RetryInfo::new(3);

    assert_eq!(retry_info.attempt, 0);
    assert!(retry_info.should_retry(retry_info.next_retry_at_ms));

    retry_info.record_attempt(1_000);
    assert_eq!(retry_info.attempt, 1);
    assert!(retry_info.should_retry(u64::MAX));

    retry_info.record_attempt(2_000);
    retry_info.record_attempt(3_000);
    assert_eq!(retry_info.attempt, 3);
    assert!(!retry_info.should_retry(u64::MAX));
}

#[test]
fn test_retry_backoff_within_jitter_envelope() {
    // The first delay is around 100 ms, the second around 200 ms, both
    // within the ten percent jitter envelope.
    let mut info = RetryInfo::new(5);
    info.record_attempt(10_000);
    assert!(info.backoff_ms >= 95 && info.backoff_ms <= 105);
    assert_eq!(info.next_retry_at_ms, 10_000 + info.backoff_ms);

    info.record_attempt(20_000);
    assert!(info.backoff_ms >= 190 && info.backoff_ms <= 210);
    assert_eq!(info.next_retry_at_ms, 20_000 + info.backoff_ms);

    info.record_attempt(30_000);
    assert!(info.backoff_ms >= 380 && info.backoff_ms <= 420);
}

#[test]
fn test_retry_policy_delays() {
    let policy = RetryPolicy::standard();
    assert_eq!(policy.max_attempts, 3);
    // Exponential from one second, doubling, capped at five minutes.
    assert_eq!(policy.delay_for_attempt(1), 1_000);
    assert_eq!(policy.delay_for_attempt(2), 2_000);
    assert_eq!(policy.delay_for_attempt(3), 4_000);
    assert_eq!(policy.delay_for_attempt(20), 300_000);

    let fixed = RetryPolicy {
        max_attempts: 2,
        backoff_strategy: BackoffStrategy::Fixed { delay_ms: 50 },
        retry_conditions: Vec::new(),
    };
    assert_eq!(fixed.delay_for_attempt(1), 50);
    assert_eq!(fixed.delay_for_attempt(9), 50);

    let linear = RetryPolicy {
        max_attempts: 4,
        backoff_strategy: BackoffStrategy::Linear {
            initial_delay_ms: 100,
            increment_ms: 30,
            max_delay_ms: 150,
        },
        retry_conditions: Vec::new(),
    };
    assert_eq!(linear.delay_for_attempt(1), 100);
    assert_eq!(linear.delay_for_attempt(2), 130);
    assert_eq!(linear.delay_for_attempt(3), 150);
}

#[test]
fn test_breaker_opens_after_threshold() {
    let mut b = CircuitBreaker::new("backend".to_string(), 2, 60_000);
    assert!(matches!(b.get_state(), CircuitBreakerState::Closed));

    assert!(b.try_acquire(0));
    b.record_failure(10);
    assert!(matches!(b.get_state(), CircuitBreakerState::Closed));

    assert!(b.try_acquire(20));
    b.record_failure(30);
    assert!(matches!(b.get_state(), CircuitBreakerState::Open { .. }));
}

#[test]
fn test_breaker_rejects_while_open() {
    // Threshold 2 and a one-minute open timeout: after two failures the
    // next three calls are rejected without reaching the backend.
    let mut b = CircuitBreaker::new("backend".to_string(), 2, 60_000);
    assert!(b.try_acquire(0));
    b.record_failure(1);
    assert!(b.try_acquire(2));
    b.record_failure(3);

    assert!(!b.try_acquire(10_000));
    assert!(!b.try_acquire(20_000));
    assert!(!b.try_acquire(60_000));
    assert!(matches!(b.get_state(), CircuitBreakerState::Open { .. }));
    assert_eq!(b.metrics.failed_calls, 2);
}

#[test]
fn test_breaker_half_open_admits_single_probe() {
    let mut b = CircuitBreaker::new("backend".to_string(), 1, 1_000);
    assert!(b.try_acquire(0));
    b.record_failure(0);
    assert!(matches!(b.get_state(), CircuitBreakerState::Open { .. }));

    // After the timeout the next call is the probe; a second concurrent
    // call is rejected.
    assert!(b.try_acquire(2_000));
    assert!(matches!(
        b.get_state(),
        CircuitBreakerState::HalfOpen { test_in_flight: true, .. }
    ));
    assert!(!b.try_acquire(2_001));

    // A successful probe closes the breaker.
    b.record_success(2_500);
    assert!(matches!(b.get_state(), CircuitBreakerState::Closed));
    assert_eq!(b.consecutive_failures, 0);
}

#[test]
fn test_breaker_probe_failure_reopens() {
    let mut b = CircuitBreaker::new("backend".to_string(), 1, 1_000);
    assert!(b.try_acquire(0));
    b.record_failure(0);
    assert!(b.try_acquire(2_000));
    b.record_failure(2_100);
    assert!(matches!(
        b.get_state(),
        CircuitBreakerState::Open { opened_at_ms: 2_100, failure_count: 2 }
    ));
}
