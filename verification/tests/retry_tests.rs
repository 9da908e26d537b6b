use vecstore::error::{ErrorClass, StoreError};
use vecstore::retry::{run_script, RetryDecision, RetryOutcome, RetryPolicy, StepOutcome};

fn retryable() -> StoreError {
    StoreError::TransportError { timeout: true, connect: false }
}

fn fatal() -> StoreError {
    StoreError::ApiError { status: 404 }
}

#[test]
fn classification_follows_the_rules() {
    assert_eq!(
        StoreError::TransportError { timeout: true, connect: false }.classify(),
        ErrorClass::Retryable
    );
    assert_eq!(
        StoreError::TransportError { timeout: false, connect: true }.classify(),
        ErrorClass::Retryable
    );
    assert_eq!(
        StoreError::TransportError { timeout: false, connect: false }.classify(),
        ErrorClass::Fatal
    );
    for status in [500u16, 502, 503, 504] {
        assert_eq!(
            StoreError::ApiError { status }.classify(),
            ErrorClass::Retryable
        );
    }
    for status in [400u16, 401, 404, 418, 501] {
        assert_eq!(StoreError::ApiError { status }.classify(), ErrorClass::Fatal);
    }
    assert_eq!(
        StoreError::DimensionMismatch { expected: 3, found: 4 }.classify(),
        ErrorClass::Fatal
    );
    assert_eq!(
        StoreError::ConfigError { fault: vecstore::error::ConfigFault::ZeroDimension }.classify(),
        ErrorClass::Fatal
    );
}

#[test]
fn succeeds_after_r_retryable_failures() {
    // Two retryable failures, then success: the value comes back and the
    // action ran exactly three times.
    let p = RetryPolicy { max_retries: 3, base_delay_ms: 10 };
    let script = vec![
        StepOutcome::Failure { error: retryable() },
        StepOutcome::Failure { error: retryable() },
        StepOutcome::Success { value: 42 },
        StepOutcome::Success { value: 999 },
    ];
    assert_eq!(
        run_script(&p, &script),
        RetryOutcome::Success { value: 42, attempts: 3 }
    );
}

#[test]
fn immediate_success_takes_one_attempt() {
    let p = RetryPolicy { max_retries: 3, base_delay_ms: 10 };
    let script = vec![
        StepOutcome::Success { value: 7 },
        StepOutcome::Success { value: 8 },
        StepOutcome::Success { value: 9 },
        StepOutcome::Success { value: 10 },
    ];
    assert_eq!(
        run_script(&p, &script),
        RetryOutcome::Success { value: 7, attempts: 1 }
    );
}

#[test]
fn fatal_failure_is_never_retried() {
    // A fatal classification on the first attempt ends the execution at once
    // with that error.
    let p = RetryPolicy { max_retries: 5, base_delay_ms: 10 };
    let mut script = vec![StepOutcome::Failure { error: fatal() }];
    for _ in 0..5 {
        script.push(StepOutcome::Success { value: 1 });
    }
    assert_eq!(
        run_script(&p, &script),
        RetryOutcome::Fatal { error: fatal(), attempts: 1 }
    );
}

#[test]
fn retryable_failures_exhaust_the_budget() {
    let p = RetryPolicy { max_retries: 2, base_delay_ms: 10 };
    let script = vec![
        StepOutcome::Failure { error: retryable() },
        StepOutcome::Failure { error: retryable() },
        StepOutcome::Failure { error: StoreError::ApiError { status: 503 } },
    ];
    assert_eq!(
        run_script(&p, &script),
        RetryOutcome::Exhausted {
            last: StoreError::ApiError { status: 503 },
            attempts: 3
        }
    );
}

#[test]
fn backoff_is_linear_in_the_attempt() {
    let p = RetryPolicy { max_retries: 10, base_delay_ms: 250 };
    assert_eq!(p.backoff_ms(1), 250);
    assert_eq!(p.backoff_ms(2), 500);
    assert_eq!(p.backoff_ms(3), 750);
}

#[test]
fn backoff_saturates_instead_of_overflowing() {
    let p = RetryPolicy { max_retries: 10, base_delay_ms: u64::MAX };
    assert_eq!(p.backoff_ms(2), u64::MAX);
}

#[test]
fn next_decision_retries_within_budget_only() {
    let p = RetryPolicy { max_retries: 2, base_delay_ms: 100 };
    assert_eq!(
        p.next_decision(0, &retryable()),
        RetryDecision::RetryAfterMs { delay_ms: 100 }
    );
    assert_eq!(
        p.next_decision(1, &retryable()),
        RetryDecision::RetryAfterMs { delay_ms: 200 }
    );
    assert_eq!(p.next_decision(2, &retryable()), RetryDecision::GiveUp);
    assert_eq!(p.next_decision(0, &fatal()), RetryDecision::GiveUp);
}
