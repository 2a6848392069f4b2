use std::cell::Cell;

use mcp_cli::error::{ErrorKind, ExitCode};
use mcp_cli::runtime::{
    non_utf8_variable, CancellationFlag, CancellationToken, CleanupTimeout, Clock, CommandContext,
    Deadline, Platform, RuntimeConfig,
};
use mcp_cli::time::{Duration, Instant};

struct FixedClock(Cell<Instant>);

impl FixedClock {
    fn new(now: Instant) -> Self {
        Self(Cell::new(now))
    }

    fn set(&self, now: Instant) {
        self.0.set(now);
    }
}

impl Clock for FixedClock {
    fn now(&self) -> Instant {
        self.0.get()
    }
}

fn start_instant() -> Instant {
    Instant::at(Duration::from_secs(123_456))
}

fn after(start: Instant, seconds: u64) -> Instant {
    start.saturating_add(Duration::from_secs(seconds))
}

#[test]
fn defaults_match_the_runtime_contract() {
    let config = RuntimeConfig::parse(&[], Platform::Linux).expect("defaults");

    assert_eq!(config.timeout, Duration::from_secs(1_800));
    assert_eq!(config.concurrency, 5);
    assert_eq!(config.max_retries, 3);
    assert_eq!(config.retry_base_delay, Duration::from_millis(1_000));
    assert!(config.strict_env);
    assert_eq!(config.daemon_enabled, true);
    assert_eq!(config.daemon_idle_timeout, Duration::from_secs(60));
    assert!(!config.debug);
}

#[test]
fn parses_all_supported_overrides_with_documented_units() {
    let config = RuntimeConfig::parse(&[
        ("MCP_TIMEOUT", "42"),
        ("MCP_CONCURRENCY", "7"),
        ("MCP_MAX_RETRIES", "0"),
        ("MCP_RETRY_DELAY", "125"),
        ("MCP_STRICT_ENV", "FALSE"),
        ("MCP_NO_DAEMON", "1"),
        ("MCP_DAEMON_TIMEOUT", "9"),
        ("MCP_DEBUG", "1"),
    ], Platform::Linux)
    .expect("valid overrides");

    assert_eq!(config.timeout, Duration::from_secs(42));
    assert_eq!(config.concurrency, 7);
    assert_eq!(config.max_retries, 0);
    assert_eq!(config.retry_base_delay, Duration::from_millis(125));
    assert!(!config.strict_env);
    assert!(!config.daemon_enabled);
    assert_eq!(config.daemon_idle_timeout, Duration::from_secs(9));
    assert!(config.debug);
}

#[test]
fn rejects_invalid_numeric_values_without_falling_back() {
    for (name, value) in [
        ("MCP_TIMEOUT", "0"),
        ("MCP_CONCURRENCY", "-1"),
        ("MCP_MAX_RETRIES", "1x"),
        ("MCP_RETRY_DELAY", " 1"),
        ("MCP_DAEMON_TIMEOUT", "18446744073709551616"),
    ] {
        let error = RuntimeConfig::parse(&[(name, value)], Platform::Linux).expect_err("must reject value");
        assert_eq!(error.kind, ErrorKind::InvalidRuntimeConfig);
        assert_eq!(error.exit_code, ExitCode::Client);
        assert!(
            error
                .details
                .as_deref()
                .is_some_and(|details| details.contains(name)),
            "details should identify {name}"
        );
    }
}

#[test]
fn boolean_flags_follow_their_asymmetric_contracts() {
    let config = RuntimeConfig::parse(&[
        ("MCP_STRICT_ENV", "anything"),
        ("MCP_NO_DAEMON", "true"),
        ("MCP_DEBUG", ""),
    ], Platform::Linux)
    .expect("flags are not numeric settings");

    assert!(config.strict_env);
    assert_eq!(config.daemon_enabled, true);
    assert!(!config.debug);
}

#[test]
fn deadline_uses_one_absolute_budget_and_caps_local_waits() {
    let start = start_instant();
    let clock = FixedClock::new(start);
    let deadline = Deadline::after(&clock, Duration::from_secs(10));

    assert_eq!(deadline.expires_at(), after(start, 10));
    assert_eq!(deadline.remaining(&clock), Duration::from_secs(10));
    assert_eq!(
        deadline.remaining_capped(&clock, Duration::from_secs(3)),
        Duration::from_secs(3)
    );
    assert_eq!(
        deadline.local_deadline(&clock, Duration::from_secs(3)),
        after(start, 3)
    );

    clock.set(after(start, 8));
    assert_eq!(deadline.remaining(&clock), Duration::from_secs(2));
    assert_eq!(
        deadline.local_deadline(&clock, Duration::from_secs(5)),
        deadline.expires_at()
    );
    assert!(!deadline.is_expired(&clock));

    clock.set(after(start, 10));
    assert!(deadline.is_expired(&clock));
    assert_eq!(deadline.remaining(&clock), Duration::zero());
}

#[test]
fn deadline_construction_saturates_instead_of_panicking() {
    let start = start_instant();
    let clock = FixedClock::new(start);
    let deadline = Deadline::after(&clock, Duration::max());

    assert!(deadline.expires_at() >= start);
}

#[test]
fn command_context_observes_injected_cancellation_and_clock() {
    let start = start_instant();
    let clock = FixedClock::new(start);
    let mut context = CommandContext {
        deadline: Deadline::after(&clock, Duration::from_secs(5)),
        cancellation: CancellationFlag::default(),
    };

    assert!(!context.is_cancelled());
    assert_eq!(context.remaining(&clock), Duration::from_secs(5));
    assert_eq!(
        context.remaining_capped(&clock, Duration::from_secs(2)),
        Duration::from_secs(2)
    );

    context.cancellation.cancel();
    assert!(context.is_cancelled());
}

#[test]
fn later_entries_replace_earlier_ones_and_other_platforms_have_no_daemon() {
    let config = RuntimeConfig::parse(
        &[("MCP_TIMEOUT", "x"), ("MCP_TIMEOUT", "007")],
        Platform::Windows,
    )
    .expect("the last value counts");
    assert_eq!(config.timeout, Duration::from_secs(7));
    assert!(!config.daemon_enabled);
    assert_eq!(RuntimeConfig::default_for(Platform::Other).concurrency, 5);
    let zero = RuntimeConfig::parse(&[("MCP_STRICT_ENV", "0")], Platform::Linux).expect("flag");
    assert!(!zero.strict_env);
}

#[test]
fn rejected_values_name_the_first_variable_in_order() {
    let error = RuntimeConfig::parse(
        &[("MCP_RETRY_DELAY", ""), ("MCP_MAX_RETRIES", "4294967296")],
        Platform::Linux,
    )
    .expect_err("both values are rejected");
    assert_eq!(
        error.details.as_deref(),
        Some("MCP_MAX_RETRIES must be a non-negative decimal integer")
    );
    assert_eq!(
        non_utf8_variable("MCP_DEBUG").details.as_deref(),
        Some("MCP_DEBUG must be valid UTF-8 containing the documented value type")
    );
}

#[test]
fn cleanup_gets_its_own_grace_period() {
    let start = start_instant();
    let mut cancellation = CancellationFlag::default();
    cancellation.cancel();
    assert!(cancellation.is_cancelled());
    let context = CommandContext {
        deadline: Deadline::new(start),
        cancellation,
    };
    assert_eq!(
        context.cleanup_deadline(start, Duration::from_secs(1)),
        after(start, 1)
    );
    assert_eq!(CleanupTimeout.display_text(), "resource cleanup timed out");
}

#[test]
fn the_command_deadline_comes_from_the_configured_timeout() {
    let clock = FixedClock::new(start_instant());
    let config = RuntimeConfig::default_for(Platform::Linux);
    assert_eq!(
        config.deadline(&clock).expires_at(),
        after(start_instant(), 1_800)
    );
}
