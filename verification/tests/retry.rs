use std::collections::VecDeque;

use mcp_cli::policy::retry::{
    classify_errno, classify_http_status, classify_io_error, diagnostic_error_class,
    retry_diagnostic, Attempt, ClassifyError, ErrorClass, IoErrorKind, RetryAction, RetryError,
    RetryEvent, RetryPolicy, RetryRun,
};
use mcp_cli::runtime::{Deadline, Platform};
use mcp_cli::time::{Duration, Instant};

#[test]
fn diagnostic_error_classes_have_stable_names() {
    assert_eq!(diagnostic_error_class(ErrorClass::Transient), "transient");
    assert_eq!(
        diagnostic_error_class(ErrorClass::NonTransient),
        "non_transient"
    );
    assert_eq!(diagnostic_error_class(ErrorClass::Auth), "auth");
    assert_eq!(diagnostic_error_class(ErrorClass::Business), "business");
    assert_eq!(diagnostic_error_class(ErrorClass::Cancelled), "cancelled");
}

#[test]
fn classifies_every_required_errno_and_no_similar_names() {
    for errno in [
        "ECONNREFUSED",
        "ECONNRESET",
        "ETIMEDOUT",
        "EPIPE",
        "ENETUNREACH",
        "EHOSTUNREACH",
        "EAI_AGAIN",
    ] {
        assert_eq!(classify_errno(errno), ErrorClass::Transient, "{errno}");
    }

    for errno in ["ECONNREFUSED_EXTRA", "EAI_AGAINLY", "EINVAL", ""] {
        assert_eq!(classify_errno(errno), ErrorClass::NonTransient, "{errno}");
    }
}

#[test]
fn classifies_structured_io_error_kinds() {
    for kind in [
        IoErrorKind::ConnectionRefused,
        IoErrorKind::ConnectionReset,
        IoErrorKind::TimedOut,
        IoErrorKind::BrokenPipe,
        IoErrorKind::NetworkUnreachable,
        IoErrorKind::HostUnreachable,
    ] {
        assert_eq!(
            classify_io_error(kind, None, Platform::Linux),
            ErrorClass::Transient,
            "{kind:?}"
        );
    }
    assert_eq!(
        classify_io_error(IoErrorKind::Other, None, Platform::Linux),
        ErrorClass::NonTransient
    );
}

#[test]
fn temporary_name_resolution_failures_have_a_platform_code() {
    for (platform, code) in [
        (Platform::Linux, -3),
        (Platform::Android, -3),
        (Platform::MacOs, 2),
        (Platform::Ios, 2),
        (Platform::Windows, 11_002),
    ] {
        assert_eq!(
            classify_io_error(IoErrorKind::Other, Some(code), platform),
            ErrorClass::Transient
        );
        assert_eq!(
            classify_io_error(IoErrorKind::Other, Some(code + 1), platform),
            ErrorClass::NonTransient
        );
    }
    assert_eq!(
        classify_io_error(IoErrorKind::Other, Some(-3), Platform::Other),
        ErrorClass::NonTransient
    );
}

#[test]
fn classifies_http_statuses_without_numeric_substring_fallback() {
    for status in [429, 502, 503, 504] {
        assert_eq!(classify_http_status(status), ErrorClass::Transient);
    }
    for status in [401, 403] {
        assert_eq!(classify_http_status(status), ErrorClass::Auth);
    }
    for status in [200, 400, 404, 500, 501, 505, 5029] {
        assert_eq!(classify_http_status(status), ErrorClass::NonTransient);
    }
}

#[test]
fn backoff_saturates_multiplication_and_caps_before_jitter() {
    let policy = RetryPolicy::new(100, Duration::from_nanos(1));
    assert_eq!(policy.backoff_delay(0), Duration::from_nanos(1));
    assert_eq!(
        policy.backoff_delay(33),
        Duration::from_nanos(8_589_934_592)
    );
    assert_eq!(policy.backoff_delay(34), Duration::from_secs(10));
    assert_eq!(policy.backoff_delay(u32::MAX), Duration::from_secs(10));

    let huge = RetryPolicy::new(1, Duration::max());
    assert_eq!(huge.backoff_delay(0), Duration::from_secs(10));
    assert_eq!(huge.backoff_delay(1), Duration::from_secs(10));
}

#[test]
fn jitter_uses_integer_basis_points_and_enforces_boundaries() {
    let policy = RetryPolicy::new(1, Duration::from_secs(4));
    assert_eq!(policy.jittered_delay(0, 7_500), Duration::from_secs(3));
    assert_eq!(policy.jittered_delay(0, 10_000), Duration::from_secs(4));
    assert_eq!(policy.jittered_delay(0, 12_500), Duration::from_secs(5));
    assert_eq!(policy.jittered_delay(0, 0), Duration::from_secs(3));
    assert_eq!(policy.jittered_delay(0, u16::MAX), Duration::from_secs(5));
}

#[test]
fn zero_base_delay_never_waits_and_uncapped_jitter_saturates() {
    let policy = RetryPolicy::new(5, Duration::zero());
    assert_eq!(policy.jittered_delay(u32::MAX, 12_500), Duration::zero());

    let mut uncapped = RetryPolicy::default();
    uncapped.max_delay = Duration::max();
    assert_eq!(uncapped.backoff_delay(u32::MAX), Duration::max());
    assert_eq!(uncapped.jittered_delay(u32::MAX, 12_500), Duration::max());
}

/// Executes a run against a virtual clock.
struct Executor {
    now: Instant,
    cancelled: bool,
    factor: u16,
    cost: Duration,
    attempts: Vec<Attempt>,
    sleeps: Vec<Instant>,
}

impl Executor {
    fn new(factor: u16) -> Self {
        Executor {
            now: Instant::at(Duration::from_secs(1_000)),
            cancelled: false,
            factor,
            cost: Duration::zero(),
            attempts: Vec::new(),
            sleeps: Vec::new(),
        }
    }

    fn deadline(&self, budget: Duration) -> Deadline {
        Deadline::after_now(self.now, budget)
    }

    fn run<T>(
        &mut self,
        policy: RetryPolicy,
        deadline: Deadline,
        mut results: VecDeque<Result<T, ErrorClass>>,
    ) -> Result<T, RetryError<ErrorClass>> {
        let mut run = RetryRun::begin(policy, deadline);
        let mut action = RetryAction::Observe;
        let mut value = None;
        let mut error = None;
        loop {
            let event = match action {
                RetryAction::Observe => RetryEvent::Observed {
                    cancelled: self.cancelled,
                    now: self.now,
                },
                RetryAction::Invoke(attempt) => {
                    self.attempts.push(attempt);
                    self.now = self.now.saturating_add(self.cost);
                    match results.pop_front().expect("one result per attempt") {
                        Ok(result) => {
                            value = Some(result);
                            RetryEvent::Succeeded
                        }
                        Err(class) => {
                            error = Some(class);
                            RetryEvent::Failed {
                                class: class.class(),
                            }
                        }
                    }
                }
                RetryAction::Draw => RetryEvent::Drawn {
                    cancelled: self.cancelled,
                    factor_basis_points: self.factor,
                    now: self.now,
                },
                RetryAction::Wait { wake_at, .. } => {
                    self.sleeps.push(wake_at);
                    self.now = wake_at;
                    RetryEvent::Woke
                }
                RetryAction::Succeed => return Ok(value.expect("a value")),
                RetryAction::GiveUp => return Err(RetryError::Operation(error.expect("an error"))),
                RetryAction::Timeout => return Err(RetryError::Timeout),
                RetryAction::Cancelled => return Err(RetryError::Cancelled),
            };
            action = run.step(event);
        }
    }
}

fn transient<T>(count: usize) -> VecDeque<Result<T, ErrorClass>> {
    (0..count).map(|_| Err(ErrorClass::Transient)).collect()
}

#[test]
fn retries_transient_failures_once_per_attempt_then_succeeds() {
    let mut executor = Executor::new(10_000);
    let start = executor.now;
    let deadline = executor.deadline(Duration::from_secs(30));
    let mut results = transient(2);
    results.push_back(Ok(42));

    let value = executor
        .run(
            RetryPolicy::new(3, Duration::from_secs(1)),
            deadline,
            results,
        )
        .expect("third attempt succeeds");

    assert_eq!(value, 42);
    assert_eq!(
        executor.attempts,
        [
            Attempt {
                index: 0,
                retry_index: None
            },
            Attempt {
                index: 1,
                retry_index: Some(0)
            },
            Attempt {
                index: 2,
                retry_index: Some(1)
            },
        ]
    );
    assert_eq!(
        executor.sleeps,
        [
            start.saturating_add(Duration::from_secs(1)),
            start.saturating_add(Duration::from_secs(3))
        ]
    );
}

#[test]
fn non_retryable_classes_return_after_the_first_attempt() {
    for class in [
        ErrorClass::NonTransient,
        ErrorClass::Auth,
        ErrorClass::Business,
        ErrorClass::Cancelled,
    ] {
        let mut executor = Executor::new(10_000);
        let deadline = executor.deadline(Duration::from_secs(30));
        let result: Result<(), _> = executor.run(
            RetryPolicy::new(10, Duration::from_secs(1)),
            deadline,
            VecDeque::from([Err(class)]),
        );

        assert_eq!(result, Err(RetryError::Operation(class)));
        assert_eq!(executor.attempts.len(), 1);
        assert!(executor.sleeps.is_empty());
    }
}

#[test]
fn zero_retry_limit_never_starts_a_second_attempt() {
    let mut executor = Executor::new(10_000);
    let deadline = executor.deadline(Duration::from_secs(30));
    let result: Result<(), _> = executor.run(
        RetryPolicy::new(0, Duration::from_secs(1)),
        deadline,
        transient(1),
    );

    assert_eq!(result, Err(RetryError::Operation(ErrorClass::Transient)));
    assert_eq!(executor.attempts.len(), 1);
    assert!(executor.sleeps.is_empty());
}

#[test]
fn insufficient_budget_neither_sleeps_nor_starts_another_attempt() {
    let mut executor = Executor::new(12_500);
    let deadline = executor.deadline(Duration::from_secs(5));
    let result: Result<(), _> = executor.run(
        RetryPolicy::new(3, Duration::from_secs(4)),
        deadline,
        transient(1),
    );

    assert_eq!(result, Err(RetryError::Timeout));
    assert_eq!(executor.attempts.len(), 1);
    assert!(executor.sleeps.is_empty());
}

#[test]
fn operation_time_consumes_the_same_absolute_retry_budget() {
    let mut executor = Executor::new(10_000);
    executor.cost = Duration::from_secs(3);
    let deadline = executor.deadline(Duration::from_secs(5));
    let result: Result<(), _> = executor.run(
        RetryPolicy::new(3, Duration::from_secs(2)),
        deadline,
        transient(1),
    );

    assert_eq!(result, Err(RetryError::Timeout));
    assert_eq!(executor.attempts.len(), 1);
    assert!(executor.sleeps.is_empty());
}

#[test]
fn expired_or_cancelled_context_does_not_start_an_attempt() {
    let mut executor = Executor::new(10_000);
    let expired = executor.deadline(Duration::zero());
    let result: Result<(), _> =
        executor.run(RetryPolicy::default(), expired, VecDeque::new());
    assert_eq!(result, Err(RetryError::Timeout));
    assert!(executor.attempts.is_empty());

    let live = executor.deadline(Duration::from_secs(10));
    executor.cancelled = true;
    let result: Result<(), _> = executor.run(RetryPolicy::default(), live, VecDeque::new());
    assert_eq!(result, Err(RetryError::Cancelled));
    assert!(executor.attempts.is_empty());
}

#[test]
fn interrupted_waits_and_executor_outcomes_have_stable_texts() {
    let now = Instant::at(Duration::from_secs(7));
    let mut run = RetryRun::begin(
        RetryPolicy::default(),
        Deadline::after_now(now, Duration::from_secs(60)),
    );
    assert_eq!(
        run.step(RetryEvent::Observed {
            cancelled: false,
            now
        }),
        RetryAction::Invoke(Attempt::initial())
    );
    assert_eq!(
        run.step(RetryEvent::Failed {
            class: ErrorClass::Transient
        }),
        RetryAction::Draw
    );
    assert_eq!(
        run.step(RetryEvent::Drawn {
            cancelled: false,
            factor_basis_points: 10_000,
            now
        }),
        RetryAction::Wait {
            wake_at: now.saturating_add(Duration::from_secs(1)),
            delay: Duration::from_secs(1),
            next_attempt: 1,
            class: ErrorClass::Transient,
        }
    );
    assert_eq!(run.step(RetryEvent::Interrupted), RetryAction::Cancelled);

    assert_eq!(
        RetryError::<ErrorClass>::Timeout.executor_text(),
        Some("total timeout budget exhausted")
    );
    assert_eq!(
        RetryError::<ErrorClass>::Cancelled.executor_text(),
        Some("operation cancelled")
    );
    assert_eq!(
        retry_diagnostic(3, ErrorClass::Transient, Duration::from_millis(2)),
        "retry scheduled next_attempt=3 error_class=transient delay_ns=2000000"
    );
}

#[test]
fn a_run_ends_with_the_result_of_its_last_attempt() {
    let policy = RetryPolicy::new(2, Duration::from_secs(1));

    let mut executor = Executor::new(10_000);
    let deadline = executor.deadline(Duration::from_secs(30));
    let result: Result<(), _> = executor.run(policy, deadline, transient(3));
    assert_eq!(result, Err(RetryError::Operation(ErrorClass::Transient)));
    assert_eq!(executor.attempts.len(), 3);

    let mut executor = Executor::new(10_000);
    let deadline = executor.deadline(Duration::from_secs(30));
    let mut results = transient::<u8>(1);
    results.push_back(Err(ErrorClass::Auth));
    assert_eq!(
        executor.run(policy, deadline, results),
        Err(RetryError::Operation(ErrorClass::Auth))
    );
    assert_eq!(executor.attempts.len(), 2);

    let mut executor = Executor::new(10_000);
    let deadline = executor.deadline(Duration::from_secs(2));
    let result: Result<(), _> = executor.run(policy, deadline, transient(2));
    assert_eq!(result, Err(RetryError::Timeout));
    assert_eq!(executor.attempts.len(), 2);
}
