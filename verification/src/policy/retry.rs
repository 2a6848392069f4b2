//! Retry classification, backoff, jitter, and total-budget execution.

use vstd::prelude::*;

use crate::runtime::{Deadline, Platform, RuntimeConfig};
use crate::text;
use crate::text::{decimal_text, str_equal};
use crate::time::{Duration, Instant};

verus! {

/// Stable retry categories derived from structured adapter errors.
#[derive(Clone, Copy, Debug, PartialEq, Eq, Hash, Structural)]
pub enum ErrorClass {
    Transient,
    NonTransient,
    Auth,
    Business,
    Cancelled,
}

impl ErrorClass {
    /// Only transient failures are worth another attempt.
    pub fn is_retryable(self) -> (r: bool)
        ensures
            r == (self == ErrorClass::Transient),
    {
        matches!(self, ErrorClass::Transient)
    }
}

/// Error types used with a [`RetryRun`] expose their structured retry category.
pub trait ClassifyError {
    fn class(&self) -> ErrorClass;
}

impl ClassifyError for ErrorClass {
    fn class(&self) -> (r: ErrorClass)
        ensures
            r == *self,
    {
        *self
    }
}

/// The symbolic errno names that announce a passing condition.
pub open spec fn transient_errnos() -> Seq<Seq<char>> {
    seq![
        "ECONNREFUSED"@,
        "ECONNRESET"@,
        "ETIMEDOUT"@,
        "EPIPE"@,
        "ENETUNREACH"@,
        "EHOSTUNREACH"@,
        "EAI_AGAIN"@,
    ]
}

/// Classifies an errno symbolic name without substring matching.
///
/// Exact matching prevents unrelated text such as a port number from being
/// interpreted as a retryable status or errno.
pub fn classify_errno(errno: &str) -> (r: ErrorClass)
    ensures
        r == (if transient_errnos().contains(errno@) {
            ErrorClass::Transient
        } else {
            ErrorClass::NonTransient
        }),
{
    proof {
        let names = transient_errnos();
        assert(names[0] == "ECONNREFUSED"@);
        assert(names[1] == "ECONNRESET"@);
        assert(names[2] == "ETIMEDOUT"@);
        assert(names[3] == "EPIPE"@);
        assert(names[4] == "ENETUNREACH"@);
        assert(names[5] == "EHOSTUNREACH"@);
        assert(names[6] == "EAI_AGAIN"@);
    }
    if str_equal(errno, "ECONNREFUSED") || str_equal(errno, "ECONNRESET") || str_equal(
        errno,
        "ETIMEDOUT",
    ) || str_equal(errno, "EPIPE") || str_equal(errno, "ENETUNREACH") || str_equal(
        errno,
        "EHOSTUNREACH",
    ) || str_equal(errno, "EAI_AGAIN") {
        ErrorClass::Transient
    } else {
        ErrorClass::NonTransient
    }
}

/// The kinds of I/O error that the retry policy tells apart.
#[derive(Clone, Copy, Debug, PartialEq, Eq, Structural)]
pub enum IoErrorKind {
    ConnectionRefused,
    ConnectionReset,
    TimedOut,
    BrokenPipe,
    NetworkUnreachable,
    HostUnreachable,
    Other,
}

/// Whether a raw error code is the platform's "temporary name resolution
/// failure".
pub open spec fn name_resolution_retry(platform: Platform, code: i32) -> bool {
    match platform {
        Platform::Linux | Platform::Android => code == -3,
        Platform::MacOs | Platform::Ios => code == 2,
        Platform::Windows => code == 11_002,
        Platform::OtherUnix | Platform::Other => false,
    }
}

fn is_eai_again(platform: Platform, code: i32) -> (r: bool)
    ensures
        r == name_resolution_retry(platform, code),
{
    match platform {
        Platform::Linux | Platform::Android => code == -3,
        Platform::MacOs | Platform::Ios => code == 2,
        Platform::Windows => code == 11_002,
        Platform::OtherUnix | Platform::Other => false,
    }
}

/// Classifies a structured I/O error by its kind and its raw operating system
/// code.
pub fn classify_io_error(kind: IoErrorKind, raw_os_error: Option<i32>, platform: Platform) -> (r:
    ErrorClass)
    ensures
        r == (if kind != IoErrorKind::Other || (raw_os_error matches Some(code)
            && name_resolution_retry(platform, code)) {
            ErrorClass::Transient
        } else {
            ErrorClass::NonTransient
        }),
{
    if kind != IoErrorKind::Other {
        return ErrorClass::Transient;
    }
    match raw_os_error {
        Some(code) => if is_eai_again(platform, code) {
            ErrorClass::Transient
        } else {
            ErrorClass::NonTransient
        },
        None => ErrorClass::NonTransient,
    }
}

/// The retry category of an HTTP response status.
pub open spec fn http_class(status: u16) -> ErrorClass {
    if status == 401 || status == 403 {
        ErrorClass::Auth
    } else if status == 429 || status == 502 || status == 503 || status == 504 {
        ErrorClass::Transient
    } else {
        ErrorClass::NonTransient
    }
}

/// Classifies an HTTP response status according to the retry contract.
pub fn classify_http_status(status: u16) -> (r: ErrorClass)
    ensures
        r == http_class(status),
{
    match status {
        401 | 403 => ErrorClass::Auth,
        429 | 502 | 503 | 504 => ErrorClass::Transient,
        _ => ErrorClass::NonTransient,
    }
}

/// Retry limits and delay parameters for one logical operation.
#[derive(Clone, Copy, Debug, PartialEq, Eq, Structural)]
pub struct RetryPolicy {
    /// Maximum retries after the initial attempt.
    pub retry_limit: u32,
    pub base_delay: Duration,
    /// Backoff cap before jitter. The runtime policy fixes this at ten seconds.
    pub max_delay: Duration,
}

/// The wait before a retry: the base delay doubled once per earlier retry, up
/// to the cap.
pub open spec fn backoff(policy: RetryPolicy, retry_index: nat) -> nat {
    crate::time::least(
        policy.base_delay@ * vstd::arithmetic::power2::pow2(retry_index),
        policy.max_delay@,
    )
}

/// A jitter factor held to the range from 75% to 125%, in basis points.
pub open spec fn clamped_factor(factor_basis_points: nat) -> nat {
    if factor_basis_points < 7_500 {
        7_500
    } else if factor_basis_points > 12_500 {
        12_500
    } else {
        factor_basis_points
    }
}

/// The wait before a retry after jitter.
pub open spec fn jittered(policy: RetryPolicy, retry_index: nat, factor_basis_points: nat) -> nat {
    crate::time::least(
        backoff(policy, retry_index) * clamped_factor(factor_basis_points) / 10_000,
        crate::time::MAX_NANOS as nat,
    )
}

impl RetryPolicy {
    /// The cap of the runtime policy: ten seconds.
    pub fn default_max_delay() -> (r: Duration)
        ensures
            r@ == 10_000_000_000,
    {
        Duration::from_secs(10)
    }

    pub fn new(retry_limit: u32, base_delay: Duration) -> (r: Self)
        ensures
            r.retry_limit == retry_limit,
            r.base_delay == base_delay,
            r.max_delay@ == 10_000_000_000,
    {
        RetryPolicy { retry_limit, base_delay, max_delay: RetryPolicy::default_max_delay() }
    }

    pub fn from_runtime_config(config: &RuntimeConfig) -> (r: Self)
        ensures
            r.retry_limit == config.max_retries,
            r.base_delay == config.retry_base_delay,
            r.max_delay@ == 10_000_000_000,
    {
        RetryPolicy::new(config.max_retries, config.retry_base_delay)
    }

    /// Returns `min(base_delay * 2^retry_index, max_delay)` for every input.
    pub fn backoff_delay(&self, retry_index: u32) -> (r: Duration)
        ensures
            r@ == backoff(*self, retry_index as nat),
    {
        let cap = self.max_delay.as_nanos();
        let base = self.base_delay.as_nanos();
        let mut nanos: u128 = if base <= cap {
            base
        } else {
            cap
        };
        let mut doublings: u32 = 0;
        proof {
            vstd::arithmetic::power2::lemma2_to64();
            assert(base * vstd::arithmetic::power2::pow2(0) == base);
        }
        while doublings < retry_index && 0 < nanos && nanos < cap
            invariant
                base == self.base_delay@,
                cap == self.max_delay@,
                cap <= crate::time::MAX_NANOS,
                doublings <= retry_index,
                nanos == backoff(*self, doublings as nat),
            decreases retry_index - doublings,
        {
            proof {
                vstd::arithmetic::power2::lemma_pow2_unfold((doublings + 1) as nat);
                let before = vstd::arithmetic::power2::pow2(doublings as nat);
                let after = vstd::arithmetic::power2::pow2((doublings + 1) as nat);
                assert(base * after == 2 * (base * before)) by (nonlinear_arith)
                    requires
                        after == 2 * before,
                ;
            }
            nanos = if nanos * 2 <= cap {
                nanos * 2
            } else {
                cap
            };
            doublings += 1;
        }
        proof {
            let here = vstd::arithmetic::power2::pow2(doublings as nat);
            let there = vstd::arithmetic::power2::pow2(retry_index as nat);
            vstd::arithmetic::power2::lemma_pow2_pos(doublings as nat);
            if doublings < retry_index {
                vstd::arithmetic::power2::lemma_pow2_strictly_increases(doublings as nat, retry_index as nat);
                assert(base * here <= base * there) by (nonlinear_arith)
                    requires
                        here <= there,
                        base >= 0,
                ;
                if base == 0 {
                    assert(base * there == 0) by (nonlinear_arith)
                        requires
                            base == 0,
                    ;
                }
                assert(base > 0 ==> base * here > 0) by (nonlinear_arith)
                    requires
                        here > 0,
                ;
            }
        }
        Duration::from_nanos_saturating(nanos)
    }

    /// Applies integer basis-point jitter. Out-of-contract sources are clamped
    /// so the executor itself always preserves the required 75%..=125% range.
    pub fn jittered_delay(&self, retry_index: u32, factor_basis_points: u16) -> (r: Duration)
        ensures
            r@ == jittered(*self, retry_index as nat, factor_basis_points as nat),
    {
        let factor: u128 = if factor_basis_points < 7_500 {
            7_500
        } else if factor_basis_points > 12_500 {
            12_500
        } else {
            factor_basis_points as u128
        };
        let delay = self.backoff_delay(retry_index).as_nanos();
        assert(delay * factor <= crate::time::MAX_NANOS * 12_500) by (nonlinear_arith)
            requires
                delay <= crate::time::MAX_NANOS,
                factor <= 12_500,
        ;
        Duration::from_nanos_saturating(delay * factor / 10_000)
    }
}

impl Default for RetryPolicy {
    fn default() -> (r: Self)
        ensures
            r.retry_limit == 3,
            r.base_delay@ == 1_000_000_000,
            r.max_delay@ == 10_000_000_000,
    {
        RetryPolicy::new(3, Duration::from_secs(1))
    }
}


/// Attempt metadata passed to the operation exactly once per invocation.
#[derive(Clone, Copy, Debug, PartialEq, Eq, Hash, Structural)]
pub struct Attempt {
    /// Initial attempt is zero; each retry increments this value by one.
    pub index: u32,
    /// `None` for the initial attempt and `Some(index - 1)` for retries.
    pub retry_index: Option<u32>,
}

/// The attempt with the given number.
pub open spec fn attempt_number(index: u32) -> Attempt {
    Attempt {
        index,
        retry_index: if index == 0 {
            None
        } else {
            Some((index - 1) as u32)
        },
    }
}

impl Attempt {
    pub fn initial() -> (r: Self)
        ensures
            r == attempt_number(0),
    {
        Attempt { index: 0, retry_index: None }
    }

    fn retry(retry_index: u32) -> (r: Self)
        requires
            retry_index < u32::MAX,
        ensures
            r == attempt_number((retry_index + 1) as u32),
    {
        Attempt { index: retry_index + 1, retry_index: Some(retry_index) }
    }
}

/// Executor-level outcomes that are independent of adapter error types.
#[derive(Clone, Copy, Debug, PartialEq, Eq, Structural)]
pub enum RetryError<E> {
    Operation(E),
    Timeout,
    Cancelled,
}

impl<E> RetryError<E> {
    /// The text of an outcome that no operation produced.
    pub fn executor_text(&self) -> (r: Option<&'static str>)
        ensures
            match self {
                RetryError::Operation(_) => r is None,
                RetryError::Timeout => r matches Some(text) && text@
                    == "total timeout budget exhausted"@,
                RetryError::Cancelled => r matches Some(text) && text@ == "operation cancelled"@,
            },
    {
        match self {
            RetryError::Operation(_) => None,
            RetryError::Timeout => Some("total timeout budget exhausted"),
            RetryError::Cancelled => Some("operation cancelled"),
        }
    }
}

/// Where a retried operation stands.
#[derive(Clone, Copy, Debug, PartialEq, Eq, Structural)]
pub enum RetryPhase {
    /// An attempt is due once the context has been observed.
    Due,
    /// The operation is running.
    Running,
    /// A transient failure may be retried once jitter has been drawn.
    Failed { class: ErrorClass },
    /// The wait before the next attempt is running.
    Waiting,
    /// The wait has ended and the context has to be observed.
    Woken,
    /// The outcome is decided.
    Finished,
}

/// What the executor has seen.
#[derive(Clone, Copy, Debug, PartialEq, Eq, Structural)]
pub enum RetryEvent {
    /// The cancellation state and the time were observed.
    Observed { cancelled: bool, now: Instant },
    /// The operation succeeded.
    Succeeded,
    /// The operation failed with an error of this class.
    Failed { class: ErrorClass },
    /// The cancellation state was observed, jitter was drawn and the time was read.
    Drawn { cancelled: bool, factor_basis_points: u16, now: Instant },
    /// The wait ran to its end.
    Woke,
    /// The wait was interrupted by cancellation.
    Interrupted,
}

/// What the executor has to do next.
#[derive(Clone, Copy, Debug, PartialEq, Eq, Structural)]
pub enum RetryAction {
    /// Observe the cancellation state and the time.
    Observe,
    /// Invoke the operation once.
    Invoke(Attempt),
    /// Observe the cancellation state, draw jitter and read the time.
    Draw,
    /// Wait until the given point or until cancellation.
    Wait { wake_at: Instant, delay: Duration, next_attempt: u32, class: ErrorClass },
    /// Return the value of the operation.
    Succeed,
    /// Return the error of the operation.
    GiveUp,
    /// Report that the total budget is exhausted.
    Timeout,
    /// Report the cancellation.
    Cancelled,
}

/// One logical operation executed under a shared absolute command deadline.
///
/// The operation is invoked once for each [`Attempt`]. Only transient errors
/// are retried. If the jittered wait is greater than or equal to the remaining
/// budget, no sleep occurs and no next attempt is started.
#[derive(Clone, Copy, Debug, PartialEq, Eq, Structural)]
pub struct RetryRun {
    pub policy: RetryPolicy,
    pub deadline: Deadline,
    pub attempt: u32,
    pub phase: RetryPhase,
}

/// The run with another phase.
pub open spec fn in_phase(run: RetryRun, phase: RetryPhase) -> RetryRun {
    RetryRun { phase, ..run }
}

/// The event answers the action that the phase has asked for.
pub open spec fn answers(phase: RetryPhase, event: RetryEvent) -> bool {
    match phase {
        RetryPhase::Due | RetryPhase::Woken => event is Observed,
        RetryPhase::Running => event is Succeeded || event is Failed,
        RetryPhase::Failed { .. } => event is Drawn,
        RetryPhase::Waiting => event is Woke || event is Interrupted,
        RetryPhase::Finished => false,
    }
}

/// What a run does on an event.
pub open spec fn retry_step(run: RetryRun, event: RetryEvent) -> (RetryRun, RetryAction) {
    let finished = in_phase(run, RetryPhase::Finished);
    match event {
        RetryEvent::Observed { cancelled, now } => if cancelled {
            (finished, RetryAction::Cancelled)
        } else if now@ >= run.deadline@ {
            (finished, RetryAction::Timeout)
        } else if run.phase == RetryPhase::Woken {
            (
                RetryRun {
                    attempt: (run.attempt + 1) as u32,
                    phase: RetryPhase::Due,
                    ..run
                },
                RetryAction::Observe,
            )
        } else {
            (
                in_phase(run, RetryPhase::Running),
                RetryAction::Invoke(attempt_number(run.attempt)),
            )
        },
        RetryEvent::Succeeded => (finished, RetryAction::Succeed),
        RetryEvent::Failed { class } => if class != ErrorClass::Transient || run.attempt
            >= run.policy.retry_limit {
            (finished, RetryAction::GiveUp)
        } else {
            (in_phase(run, RetryPhase::Failed { class }), RetryAction::Draw)
        },
        RetryEvent::Drawn { cancelled, factor_basis_points, now } => {
            let delay = jittered(run.policy, run.attempt as nat, factor_basis_points as nat);
            if cancelled {
                (finished, RetryAction::Cancelled)
            } else if delay >= crate::time::remainder(run.deadline@, now@) {
                (finished, RetryAction::Timeout)
            } else {
                (
                    in_phase(run, RetryPhase::Waiting),
                    RetryAction::Wait {
                        wake_at: instant_at((now@ + delay) as nat),
                        delay: span_of(delay),
                        next_attempt: (run.attempt + 1) as u32,
                        class: match run.phase {
                            RetryPhase::Failed { class } => class,
                            _ => ErrorClass::Transient,
                        },
                    },
                )
            }
        },
        RetryEvent::Woke => (in_phase(run, RetryPhase::Woken), RetryAction::Observe),
        RetryEvent::Interrupted => (finished, RetryAction::Cancelled),
    }
}

/// The point with the given offset.
pub open spec fn instant_at(offset: nat) -> Instant {
    choose|instant: Instant| instant@ == offset
}

/// The span of the given length.
pub open spec fn span_of(nanos: nat) -> Duration {
    choose|span: Duration| span@ == nanos
}

/// What a wait is in numbers.
proof fn lemma_wait(run: RetryRun, event: RetryEvent)
    requires
        retry_step(run, event).1 is Wait,
    ensures
        retry_step(run, event).1 matches RetryAction::Wait { wake_at, delay, next_attempt, class }
            && (event matches RetryEvent::Drawn { cancelled, factor_basis_points, now } && {
            &&& delay@ == jittered(run.policy, run.attempt as nat, factor_basis_points as nat)
            &&& wake_at@ == now@ + delay@
        }),
{
    if let RetryEvent::Drawn { cancelled, factor_basis_points, now } = event {
        let delay = jittered(run.policy, run.attempt as nat, factor_basis_points as nat);
        crate::time::lemma_every_span(delay);
        run.deadline.lemma_point_before((now@ + delay) as nat);
    }
}

impl RetryRun {
    /// A run never starts more attempts than the policy allows.
    pub open spec fn wf(&self) -> bool {
        &&& self.attempt <= self.policy.retry_limit
        &&& (self.phase is Failed || self.phase is Waiting || self.phase is Woken) ==> self.attempt
            < self.policy.retry_limit
        &&& self.phase matches RetryPhase::Failed { class } ==> class == ErrorClass::Transient
    }

    /// The run before its first attempt. The context has to be observed first.
    pub fn begin(policy: RetryPolicy, deadline: Deadline) -> (r: Self)
        ensures
            r.wf(),
            r == (RetryRun { policy, deadline, attempt: 0, phase: RetryPhase::Due }),
    {
        RetryRun { policy, deadline, attempt: 0, phase: RetryPhase::Due }
    }

    /// Takes in what the executor has seen and decides what it does next.
    pub fn step(&mut self, event: RetryEvent) -> (r: RetryAction)
        requires
            old(self).wf(),
            answers(old(self).phase, event),
        ensures
            final(self).wf(),
            (*final(self), r) == retry_step(*old(self), event),
            r matches RetryAction::Wait { wake_at, delay, next_attempt, class } ==> {
                &&& event matches RetryEvent::Drawn { cancelled, factor_basis_points, now }
                &&& delay@ == jittered(
                    old(self).policy,
                    old(self).attempt as nat,
                    factor_basis_points as nat,
                )
                &&& wake_at@ == now@ + delay@
            },
    {
        match event {
            RetryEvent::Observed { cancelled, now } => {
                if cancelled {
                    self.phase = RetryPhase::Finished;
                    return RetryAction::Cancelled;
                }
                if self.deadline.is_expired_at(now) {
                    self.phase = RetryPhase::Finished;
                    return RetryAction::Timeout;
                }
                if self.phase == RetryPhase::Woken {
                    self.attempt = self.attempt + 1;
                    self.phase = RetryPhase::Due;
                    return RetryAction::Observe;
                }
                let attempt = if self.attempt == 0 {
                    Attempt::initial()
                } else {
                    Attempt::retry(self.attempt - 1)
                };
                self.phase = RetryPhase::Running;
                RetryAction::Invoke(attempt)
            },
            RetryEvent::Succeeded => {
                self.phase = RetryPhase::Finished;
                RetryAction::Succeed
            },
            RetryEvent::Failed { class } => {
                if !class.is_retryable() || self.attempt >= self.policy.retry_limit {
                    self.phase = RetryPhase::Finished;
                    return RetryAction::GiveUp;
                }
                self.phase = RetryPhase::Failed { class };
                RetryAction::Draw
            },
            RetryEvent::Drawn { cancelled, factor_basis_points, now } => {
                if cancelled {
                    self.phase = RetryPhase::Finished;
                    return RetryAction::Cancelled;
                }
                let class = match self.phase {
                    RetryPhase::Failed { class } => class,
                    _ => ErrorClass::Transient,
                };
                let delay = self.policy.jittered_delay(self.attempt, factor_basis_points);
                let remaining = self.deadline.remaining_at(now);
                if !delay.is_shorter(&remaining) {
                    self.phase = RetryPhase::Finished;
                    return RetryAction::Timeout;
                }
                let wake_at = now.saturating_add(delay);
                proof {
                    crate::time::lemma_instant_ext(wake_at, instant_at((now@ + delay@) as nat));
                    crate::time::lemma_duration_ext(delay, span_of(delay@));
                }
                self.phase = RetryPhase::Waiting;
                RetryAction::Wait { wake_at, delay, next_attempt: self.attempt + 1, class }
            },
            RetryEvent::Woke => {
                self.phase = RetryPhase::Woken;
                RetryAction::Observe
            },
            RetryEvent::Interrupted => {
                self.phase = RetryPhase::Finished;
                RetryAction::Cancelled
            },
        }
    }
}


/// The name of an error class in diagnostics.
pub open spec fn class_text(class: ErrorClass) -> Seq<char> {
    match class {
        ErrorClass::Transient => "transient"@,
        ErrorClass::NonTransient => "non_transient"@,
        ErrorClass::Auth => "auth"@,
        ErrorClass::Business => "business"@,
        ErrorClass::Cancelled => "cancelled"@,
    }
}

pub fn diagnostic_error_class(class: ErrorClass) -> (r: &'static str)
    ensures
        r@ == class_text(class),
{
    match class {
        ErrorClass::Transient => "transient",
        ErrorClass::NonTransient => "non_transient",
        ErrorClass::Auth => "auth",
        ErrorClass::Business => "business",
        ErrorClass::Cancelled => "cancelled",
    }
}

/// The diagnostic line for a scheduled retry.
pub fn retry_diagnostic(next_attempt: u32, class: ErrorClass, delay: Duration) -> (r: String)
    ensures
        r@ == "retry scheduled next_attempt="@ + text::decimal(next_attempt as nat)
            + " error_class="@ + class_text(class) + " delay_ns="@ + text::decimal(delay@),
{
    let mut line = "retry scheduled next_attempt=".to_owned();
    line.append(decimal_text(next_attempt as u128).as_str());
    line.append(" error_class=");
    line.append(diagnostic_error_class(class));
    line.append(" delay_ns=");
    line.append(decimal_text(delay.as_nanos()).as_str());
    line
}

/// The backoff never exceeds its cap and never shrinks from one retry to a
/// later one.
pub proof fn backoff_is_capped_and_grows(policy: RetryPolicy, earlier: nat, later: nat)
    requires
        earlier <= later,
    ensures
        backoff(policy, later) <= policy.max_delay@,
        backoff(policy, earlier) <= backoff(policy, later),
{
    let base = policy.base_delay@;
    let low = vstd::arithmetic::power2::pow2(earlier);
    let high = vstd::arithmetic::power2::pow2(later);
    if earlier < later {
        vstd::arithmetic::power2::lemma_pow2_strictly_increases(earlier, later);
    }
    assert(base * low <= base * high) by (nonlinear_arith)
        requires
            low <= high,
    ;
}

/// Jitter moves a wait by at most a quarter in either direction. No span is longer
/// than `MAX_NANOS`, so this holds of every policy.
pub proof fn jitter_stays_within_a_quarter(policy: RetryPolicy, retry_index: nat, factor: nat)
    requires
        policy.max_delay@ <= crate::time::MAX_NANOS,
    ensures
        backoff(policy, retry_index) * 7_500 / 10_000 <= jittered(policy, retry_index, factor),
        jittered(policy, retry_index, factor) <= backoff(policy, retry_index) * 12_500 / 10_000,
{
    let wait = backoff(policy, retry_index);
    let clamped = clamped_factor(factor);
    assert(wait * 7_500 <= wait * clamped <= wait * 12_500) by (nonlinear_arith)
        requires
            7_500 <= clamped <= 12_500,
    ;
}

/// The runtime policy waits at most twelve and a half seconds before a retry.
pub proof fn runtime_waits_are_bounded(policy: RetryPolicy, retry_index: nat, factor: nat)
    requires
        policy.max_delay@ == 10_000_000_000,
    ensures
        jittered(policy, retry_index, factor) <= 12_500_000_000,
{
    jitter_stays_within_a_quarter(policy, retry_index, factor);
}

/// Every event of the history answers the phase that the run is in.
pub open spec fn accepted(run: RetryRun, history: Seq<RetryEvent>) -> bool
    decreases history.len(),
{
    history.len() == 0 || {
        &&& answers(run.phase, history[0])
        &&& accepted(retry_step(run, history[0]).0, history.skip(1))
    }
}

/// The actions of a run on a history.
pub open spec fn retry_actions(run: RetryRun, history: Seq<RetryEvent>) -> Seq<RetryAction>
    decreases history.len(),
{
    if history.len() == 0 {
        Seq::empty()
    } else {
        let (next, action) = retry_step(run, history[0]);
        seq![action] + retry_actions(next, history.skip(1))
    }
}

/// The attempts among a sequence of actions.
pub open spec fn invocations(actions: Seq<RetryAction>) -> Seq<Attempt>
    decreases actions.len(),
{
    if actions.len() == 0 {
        Seq::empty()
    } else {
        let rest = invocations(actions.skip(1));
        match actions[0] {
            RetryAction::Invoke(attempt) => seq![attempt] + rest,
            _ => rest,
        }
    }
}

/// The number of the next attempt that a run can start.
spec fn next_number(run: RetryRun) -> int {
    if run.phase == RetryPhase::Due {
        run.attempt as int
    } else {
        run.attempt + 1
    }
}

proof fn lemma_invocations(run: RetryRun, history: Seq<RetryEvent>)
    requires
        run.wf(),
        accepted(run, history),
    ensures
        ({
            let started = invocations(retry_actions(run, history));
            &&& next_number(run) + started.len() <= run.policy.retry_limit + 1
            &&& forall|k: int|
                0 <= k < started.len() ==> #[trigger] started[k] == attempt_number(
                    (next_number(run) + k) as u32,
                )
        }),
    decreases history.len(),
{
    reveal_with_fuel(accepted, 2);
    if history.len() > 0 {
        let (next, action) = retry_step(run, history[0]);
        lemma_invocations(next, history.skip(1));
        let actions = retry_actions(run, history);
        assert(actions.skip(1) =~= retry_actions(next, history.skip(1)));
        let rest = invocations(retry_actions(next, history.skip(1)));
        if next.phase == RetryPhase::Finished {
            assert(history.skip(1).len() == 0);
            assert(rest.len() == 0);
        }
        let started = invocations(actions);
        assert forall|k: int| 0 <= k < started.len() implies #[trigger] started[k]
            == attempt_number((next_number(run) + k) as u32) by {
            if action is Invoke {
                if k > 0 {
                    assert(started[k] == rest[k - 1]);
                }
            } else {
                assert(started[k] == rest[k]);
            }
        }
    }
}

/// Whatever happens, the attempts of a run are numbered from zero without a
/// gap, each is started once, and there is at most one more attempt than
/// retries are allowed.
pub proof fn attempts_are_numbered_and_limited(
    policy: RetryPolicy,
    deadline: Deadline,
    history: Seq<RetryEvent>,
)
    requires
        accepted(RetryRun { policy, deadline, attempt: 0, phase: RetryPhase::Due }, history),
    ensures
        ({
            let run = RetryRun { policy, deadline, attempt: 0, phase: RetryPhase::Due };
            let started = invocations(retry_actions(run, history));
            &&& started.len() <= policy.retry_limit + 1
            &&& forall|k: int|
                0 <= k < started.len() ==> #[trigger] started[k] == attempt_number(k as u32)
        }),
{
    lemma_invocations(
        RetryRun { policy, deadline, attempt: 0, phase: RetryPhase::Due },
        history,
    );
}

/// The attempts and waits among a sequence of actions.
pub open spec fn milestones(actions: Seq<RetryAction>) -> Seq<RetryAction>
    decreases actions.len(),
{
    if actions.len() == 0 {
        Seq::empty()
    } else {
        let rest = milestones(actions.skip(1));
        if actions[0] is Invoke || actions[0] is Wait {
            seq![actions[0]] + rest
        } else {
            rest
        }
    }
}

/// The action is the wait between an attempt and the next one: some jitter was
/// drawn and some time was read, the wait is the jittered backoff from that time
/// on, and it ends before the deadline.
pub open spec fn waits_behind(
    policy: RetryPolicy,
    deadline: Deadline,
    attempt: nat,
    action: RetryAction,
) -> bool {
    exists|factor: u16, now: Instant|
        #![trigger jittered(policy, attempt, factor as nat), now@]
        {
            &&& action matches RetryAction::Wait { wake_at, delay, next_attempt, class }
            &&& delay@ == jittered(policy, attempt, factor as nat)
            &&& wake_at@ == now@ + delay@
            &&& wake_at@ < deadline@
            &&& next_attempt == attempt + 1
            &&& class == ErrorClass::Transient
        }
}

/// Attempts and waits take turns: an attempt of the given number, then the wait
/// behind it, then the attempt of the next number, and so on.
pub open spec fn take_turns(
    policy: RetryPolicy,
    deadline: Deadline,
    attempt: nat,
    waiting: bool,
    steps: Seq<RetryAction>,
) -> bool
    decreases steps.len(),
{
    steps.len() == 0 || if waiting {
        &&& waits_behind(policy, deadline, attempt, steps[0])
        &&& take_turns(policy, deadline, attempt + 1, false, steps.skip(1))
    } else {
        &&& steps[0] == RetryAction::Invoke(attempt_number(attempt as u32))
        &&& take_turns(policy, deadline, attempt, true, steps.skip(1))
    }
}

proof fn lemma_turns(run: RetryRun, history: Seq<RetryEvent>)
    requires
        run.wf(),
        accepted(run, history),
    ensures
        take_turns(
            run.policy,
            run.deadline,
            if run.phase is Waiting || run.phase is Woken {
                (run.attempt + 1) as nat
            } else {
                run.attempt as nat
            },
            run.phase is Running || run.phase is Failed,
            milestones(retry_actions(run, history)),
        ),
    decreases history.len(),
{
    reveal_with_fuel(accepted, 2);
    if history.len() > 0 {
        let (next, action) = retry_step(run, history[0]);
        lemma_turns(next, history.skip(1));
        let actions = retry_actions(run, history);
        let rest = milestones(retry_actions(next, history.skip(1)));
        assert(actions.skip(1) =~= retry_actions(next, history.skip(1)));
        let steps = milestones(actions);
        if next.phase == RetryPhase::Finished {
            assert(history.skip(1).len() == 0);
            assert(rest.len() == 0);
        }
        if action is Invoke || action is Wait {
            assert(steps.skip(1) =~= rest);
            if let RetryEvent::Drawn { cancelled, factor_basis_points, now } = history[0] {
                let delay = jittered(
                    run.policy,
                    run.attempt as nat,
                    factor_basis_points as nat,
                );
                lemma_wait(run, history[0]);
                assert(now@ + delay < run.deadline@);
                assert(waits_behind(run.policy, run.deadline, run.attempt as nat, action));
            }
        } else {
            assert(steps == rest);
        }
    }
}

/// Between an attempt and the next one lies exactly one wait, which is the
/// jittered backoff of that attempt and ends before the deadline.
pub proof fn attempts_and_waits_take_turns(
    policy: RetryPolicy,
    deadline: Deadline,
    history: Seq<RetryEvent>,
)
    requires
        accepted(RetryRun { policy, deadline, attempt: 0, phase: RetryPhase::Due }, history),
    ensures
        take_turns(
            policy,
            deadline,
            0,
            false,
            milestones(
                retry_actions(
                    RetryRun { policy, deadline, attempt: 0, phase: RetryPhase::Due },
                    history,
                ),
            ),
        ),
{
    lemma_turns(RetryRun { policy, deadline, attempt: 0, phase: RetryPhase::Due }, history);
}

/// The run after a history.
pub open spec fn after_history(run: RetryRun, history: Seq<RetryEvent>) -> RetryRun
    decreases history.len(),
{
    if history.len() == 0 {
        run
    } else {
        after_history(retry_step(run, history[0]).0, history.skip(1))
    }
}

/// What the attempts of a history came to, in order: nothing for a success, and
/// the class of the error for a failure.
pub open spec fn attempt_results(history: Seq<RetryEvent>) -> Seq<Option<ErrorClass>>
    decreases history.len(),
{
    if history.len() == 0 {
        Seq::empty()
    } else {
        let rest = attempt_results(history.skip(1));
        match history[0] {
            RetryEvent::Succeeded => seq![None] + rest,
            RetryEvent::Failed { class } => seq![Some(class)] + rest,
            _ => rest,
        }
    }
}

/// The event reports a cancellation.
pub open spec fn reports_cancellation(event: RetryEvent) -> bool {
    match event {
        RetryEvent::Observed { cancelled, .. } => cancelled,
        RetryEvent::Drawn { cancelled, .. } => cancelled,
        RetryEvent::Interrupted => true,
        _ => false,
    }
}

/// How a finished run ends: the value of the last attempt is returned if it
/// succeeded, its error if it may not be retried or was the last one allowed
/// (the run starts with attempt `first`), and otherwise the cancellation or
/// the exhausted budget that kept a further attempt from being started.
pub open spec fn ends_rightly(
    first: int,
    limit: int,
    results: Seq<Option<ErrorClass>>,
    outcome: RetryAction,
    event: RetryEvent,
) -> bool {
    let count = results.len();
    &&& first + count <= limit + 1
    &&& forall|k: int|
        0 <= k < count - 1 ==> #[trigger] results[k] == Some(ErrorClass::Transient)
    &&& outcome == RetryAction::Succeed <==> count > 0 && results.last() is None
    &&& outcome == RetryAction::GiveUp <==> count > 0 && (results.last() matches Some(class) && (
    class != ErrorClass::Transient || first + count == limit + 1))
    &&& outcome == RetryAction::Cancelled <==> reports_cancellation(event)
    &&& outcome == RetryAction::Succeed || outcome == RetryAction::GiveUp || outcome
        == RetryAction::Cancelled || outcome == RetryAction::Timeout
}

/// The number of the first attempt whose result a run still has to see.
spec fn first_open(run: RetryRun) -> int {
    if run.phase is Due || run.phase is Running {
        run.attempt as int
    } else {
        run.attempt + 1
    }
}

proof fn lemma_whole_run(run: RetryRun, history: Seq<RetryEvent>)
    requires
        run.wf(),
        run.phase != RetryPhase::Finished,
        accepted(run, history),
        after_history(run, history).phase == RetryPhase::Finished,
    ensures
        history.len() > 0,
        retry_actions(run, history).len() == history.len(),
        attempt_results(history).len() == invocations(retry_actions(run, history)).len() + (if run.phase
            is Running {
            1int
        } else {
            0
        }),
        ends_rightly(
            first_open(run),
            run.policy.retry_limit as int,
            attempt_results(history),
            retry_actions(run, history).last(),
            history.last(),
        ),
    decreases history.len(),
{
    reveal_with_fuel(accepted, 2);
    let event = history[0];
    let rest = history.skip(1);
    let (next, action) = retry_step(run, event);
    let actions = retry_actions(run, history);
    assert(actions.skip(1) =~= retry_actions(next, rest));
    let results = attempt_results(history);
    if next.phase == RetryPhase::Finished {
        assert(rest.len() == 0);
        assert(attempt_results(rest).len() == 0);
        assert(retry_actions(next, rest).len() == 0);
        assert(actions =~= seq![action]);
        assert(invocations(actions.skip(1)).len() == 0);
        assert(history.last() == event);
        match event {
            RetryEvent::Succeeded => {
                assert(results =~= seq![None::<ErrorClass>]);
            },
            RetryEvent::Failed { class } => {
                assert(results =~= seq![Some(class)]);
            },
            _ => {
                assert(results.len() == 0);
            },
        }
    } else {
        lemma_whole_run(next, rest);
        assert(actions.last() == retry_actions(next, rest).last());
        assert(history.last() == rest.last());
        let later = attempt_results(rest);
        if let RetryEvent::Failed { class } = event {
            assert(results =~= seq![Some(class)] + later);
            assert(class == ErrorClass::Transient);
            assert forall|k: int| 0 <= k < results.len() - 1 implies #[trigger] results[k] == Some(
                ErrorClass::Transient,
            ) by {
                if k > 0 {
                    assert(results[k] == later[k - 1]);
                }
            }
            if later.len() > 0 {
                assert(results.last() == later.last());
            }
        } else {
            assert(results == later);
        }
    }
}

/// A whole run, whatever happens to it: with `n` attempts, numbered from zero,
/// there are at most one more than retries are allowed, and all but the last
/// failed transiently. The value of the operation is returned exactly if the last
/// attempt succeeded; its error exactly if the last attempt failed with it and
/// it may not be retried or no retry is left; the cancellation exactly if it was
/// reported; and otherwise the budget was exhausted.
pub proof fn a_run_ends_with_its_last_attempt(
    policy: RetryPolicy,
    deadline: Deadline,
    history: Seq<RetryEvent>,
)
    requires
        accepted(RetryRun { policy, deadline, attempt: 0, phase: RetryPhase::Due }, history),
        after_history(
            RetryRun { policy, deadline, attempt: 0, phase: RetryPhase::Due },
            history,
        ).phase == RetryPhase::Finished,
    ensures
        ({
            let run = RetryRun { policy, deadline, attempt: 0, phase: RetryPhase::Due };
            let actions = retry_actions(run, history);
            let results = attempt_results(history);
            &&& actions.len() == history.len() > 0
            &&& invocations(actions).len() == results.len()
            &&& forall|k: int|
                0 <= k < results.len() ==> #[trigger] invocations(actions)[k] == attempt_number(
                    k as u32,
                )
            &&& ends_rightly(
                0,
                policy.retry_limit as int,
                results,
                actions.last(),
                history.last(),
            )
        }),
{
    attempts_are_numbered_and_limited(policy, deadline, history);
    lemma_whole_run(
        RetryRun { policy, deadline, attempt: 0, phase: RetryPhase::Due },
        history,
    );
}

/// A wait is only scheduled after a transient failure, it lies within the
/// jittered backoff, and it ends before the deadline.
pub proof fn waits_follow_transient_failures_and_fit_the_budget(run: RetryRun, event: RetryEvent)
    requires
        run.wf(),
        answers(run.phase, event),
    ensures
        retry_step(run, event).1 is Wait ==> {
            &&& run.phase == RetryPhase::Failed { class: ErrorClass::Transient }
            &&& event matches RetryEvent::Drawn { cancelled, factor_basis_points, now } && {
                &&& !cancelled
                &&& now@ + jittered(run.policy, run.attempt as nat, factor_basis_points as nat)
                    < run.deadline@
            }
        },
{
}

/// An attempt is only started when the context was just observed to be neither
/// cancelled nor expired.
pub proof fn attempts_need_a_live_context(run: RetryRun, event: RetryEvent)
    requires
        run.wf(),
        answers(run.phase, event),
    ensures
        retry_step(run, event).1 is Invoke ==> {
            event matches RetryEvent::Observed { cancelled, now } && !cancelled && now@
                < run.deadline@
        },
{
}

/// What a run answers to each event, in terms of the time, the budget, and the
/// number of retries that are left.
///
/// A run reports a cancellation exactly if one was observed, and an exhausted
/// budget exactly if the deadline has passed or the next wait would not end
/// before it. A transient failure is retried as long as a retry is left, and
/// every other failure, and every success, ends the run.
pub proof fn runs_end_for_their_own_reasons(run: RetryRun, event: RetryEvent)
    requires
        run.wf(),
        answers(run.phase, event),
    ensures
        retry_step(run, event).1 == RetryAction::Timeout <==> match event {
            RetryEvent::Observed { cancelled, now } => !cancelled && now@ >= run.deadline@,
            RetryEvent::Drawn { cancelled, factor_basis_points, now } => !cancelled && now@
                + jittered(run.policy, run.attempt as nat, factor_basis_points as nat)
                >= run.deadline@,
            _ => false,
        },
        retry_step(run, event).1 == RetryAction::Cancelled <==> reports_cancellation(event),
        retry_step(run, event).1 == RetryAction::Succeed <==> event is Succeeded,
        retry_step(run, event).1 == RetryAction::GiveUp <==> (event matches RetryEvent::Failed {
            class,
        } && (class != ErrorClass::Transient || run.attempt == run.policy.retry_limit)),
        retry_step(run, event).1 == RetryAction::Draw <==> (event matches RetryEvent::Failed {
            class,
        } && class == ErrorClass::Transient && run.attempt < run.policy.retry_limit),
        retry_step(run, event).1 is Wait <==> (event matches RetryEvent::Drawn {
            cancelled,
            factor_basis_points,
            now,
        } && !cancelled && now@ + jittered(
            run.policy,
            run.attempt as nat,
            factor_basis_points as nat,
        ) < run.deadline@),
        retry_step(run, event).1 is Invoke <==> run.phase is Due && (event matches
            RetryEvent::Observed { cancelled, now } && !cancelled && now@ < run.deadline@),
        retry_step(run, event).1 == RetryAction::Observe <==> event is Woke || (run.phase is Woken
            && (event matches RetryEvent::Observed { cancelled, now } && !cancelled && now@
            < run.deadline@)),
{
}

/// A run goes on to the next attempt after a wait, keeps its policy and its
/// deadline, and is over exactly when it reports an outcome.
pub proof fn runs_keep_their_policy_and_count_attempts(run: RetryRun, event: RetryEvent)
    requires
        run.wf(),
        answers(run.phase, event),
    ensures
        retry_step(run, event).0.policy == run.policy,
        retry_step(run, event).0.deadline == run.deadline,
        retry_step(run, event).0.wf(),
        retry_step(run, event).0.attempt == (if run.phase is Woken && retry_step(run, event).1
            == RetryAction::Observe {
            run.attempt + 1
        } else {
            run.attempt as int
        }),
        retry_step(run, event).0.phase is Finished <==> retry_step(run, event).1 is Succeed
            || retry_step(run, event).1 is GiveUp || retry_step(run, event).1 is Timeout
            || retry_step(run, event).1 is Cancelled,
        retry_step(run, event).1 matches RetryAction::Invoke(attempt) ==> attempt.index
            == run.attempt && (attempt.retry_index is None <==> run.attempt == 0) && (
        attempt.retry_index matches Some(retry) ==> retry + 1 == run.attempt) && retry_step(
            run,
            event,
        ).0.phase is Running,
        retry_step(run, event).1 matches RetryAction::Wait { wake_at, delay, next_attempt, class }
            ==> (event matches RetryEvent::Drawn { cancelled, factor_basis_points, now } && wake_at@
            == now@ + delay@ && delay@ == jittered(
            run.policy,
            run.attempt as nat,
            factor_basis_points as nat,
        ) && next_attempt == run.attempt + 1 && class == ErrorClass::Transient) && retry_step(
            run,
            event,
        ).0.phase is Waiting,
        retry_step(run, event).1 == RetryAction::Draw ==> retry_step(run, event).0.phase
            == (RetryPhase::Failed { class: ErrorClass::Transient }),
        event is Woke ==> retry_step(run, event).0.phase is Woken,
        run.phase is Woken && retry_step(run, event).1 == RetryAction::Observe ==> retry_step(
            run,
            event,
        ).0.phase is Due,
{
    if retry_step(run, event).1 is Wait {
        lemma_wait(run, event);
    }
}

/// The first wait is the base delay, and every further one is twice the one
/// before it, as long as that does not exceed the cap; from then on it is the
/// cap.
pub proof fn backoff_doubles_up_to_the_cap(policy: RetryPolicy, retry_index: nat)
    ensures
        policy.base_delay@ <= policy.max_delay@ ==> backoff(policy, 0) == policy.base_delay@,
        policy.base_delay@ > policy.max_delay@ ==> backoff(policy, 0) == policy.max_delay@,
        2 * backoff(policy, retry_index) <= policy.max_delay@ ==> backoff(policy, retry_index + 1)
            == 2 * backoff(policy, retry_index),
        2 * backoff(policy, retry_index) > policy.max_delay@ ==> backoff(policy, retry_index + 1)
            == policy.max_delay@,
{
    vstd::arithmetic::power2::lemma2_to64();
    vstd::arithmetic::power2::lemma_pow2_unfold(retry_index + 1);
    let base = policy.base_delay@;
    let before = vstd::arithmetic::power2::pow2(retry_index);
    let after = vstd::arithmetic::power2::pow2(retry_index + 1);
    assert(base * after == 2 * (base * before)) by (nonlinear_arith)
        requires
            after == 2 * before,
    ;
    assert(base * vstd::arithmetic::power2::pow2(0) == base);
}

/// Jitter scales a wait by its factor, held between three quarters and five
/// quarters: without jitter the wait is the backoff, a larger factor never
/// shortens it, and factors beyond the range count as its ends.
pub proof fn jitter_scales_the_backoff(
    policy: RetryPolicy,
    retry_index: nat,
    factor: nat,
    larger: nat,
)
    requires
        policy.max_delay@ * 2 <= crate::time::MAX_NANOS,
        factor <= larger,
    ensures
        jittered(policy, retry_index, 10_000) == backoff(policy, retry_index),
        jittered(policy, retry_index, factor) <= jittered(policy, retry_index, larger),
        factor <= 7_500 ==> jittered(policy, retry_index, factor) == backoff(policy, retry_index)
            * 3 / 4,
        factor >= 12_500 ==> jittered(policy, retry_index, factor) == backoff(policy, retry_index)
            * 5 / 4,
        7_500 <= factor <= 12_500 ==> jittered(policy, retry_index, factor) == backoff(
            policy,
            retry_index,
        ) * factor / 10_000,
{
    let wait = backoff(policy, retry_index);
    let low = clamped_factor(factor);
    let high = clamped_factor(larger);
    assert(wait * low <= wait * high <= wait * 12_500) by (nonlinear_arith)
        requires
            low <= high <= 12_500,
    ;
    assert(wait * 10_000 / 10_000 == wait);
    assert(wait * 7_500 / 10_000 == wait * 3 / 4);
    assert(wait * 12_500 / 10_000 == wait * 5 / 4);
}

/// The delays that a policy computes are those waits.
pub proof fn computed_delays_are_the_waits(
    policy: &RetryPolicy,
    retry_index: u32,
    factor: u16,
    plain: Duration,
    moved: Duration,
)
    requires
        call_ensures(RetryPolicy::backoff_delay, (policy, retry_index), plain),
        call_ensures(RetryPolicy::jittered_delay, (policy, retry_index, factor), moved),
        policy.max_delay@ * 2 <= crate::time::MAX_NANOS,
    ensures
        plain@ <= policy.max_delay@,
        retry_index == 0 && policy.base_delay@ <= policy.max_delay@ ==> plain@
            == policy.base_delay@,
        plain@ == policy.max_delay@ || plain@ == policy.base_delay@
            * vstd::arithmetic::power2::pow2(retry_index as nat),
        plain@ * 3 / 4 <= moved@ <= plain@ * 5 / 4,
        factor == 10_000 ==> moved@ == plain@,
{
    backoff_doubles_up_to_the_cap(*policy, 0);
    jitter_scales_the_backoff(*policy, retry_index as nat, factor as nat, factor as nat);
    jitter_stays_within_a_quarter(*policy, retry_index as nat, factor as nat);
}

/// Only failures that may pass are retried: the listed network errors, a failed
/// name resolution that asks for another try, and the listed statuses.
/// Statuses that speak of missing rights are told apart from the others.
pub proof fn only_passing_failures_are_transient(
    errno: &str,
    errno_class: ErrorClass,
    kind: IoErrorKind,
    code: Option<i32>,
    platform: Platform,
    io_class: ErrorClass,
    status: u16,
    status_class: ErrorClass,
)
    requires
        call_ensures(classify_errno, (errno,), errno_class),
        call_ensures(classify_io_error, (kind, code, platform), io_class),
        call_ensures(classify_http_status, (status,), status_class),
    ensures
        errno_class == ErrorClass::Transient <==> errno@ == "ECONNREFUSED"@ || errno@
            == "ECONNRESET"@ || errno@ == "ETIMEDOUT"@ || errno@ == "EPIPE"@ || errno@
            == "ENETUNREACH"@ || errno@ == "EHOSTUNREACH"@ || errno@ == "EAI_AGAIN"@,
        errno_class == ErrorClass::Transient || errno_class == ErrorClass::NonTransient,
        io_class == ErrorClass::Transient || io_class == ErrorClass::NonTransient,
        kind != IoErrorKind::Other ==> io_class == ErrorClass::Transient,
        kind == IoErrorKind::Other && code is None ==> io_class == ErrorClass::NonTransient,
        kind == IoErrorKind::Other ==> (code matches Some(raw) ==> (io_class
            == ErrorClass::Transient <==> (raw == -3 && (platform == Platform::Linux || platform
            == Platform::Android)) || (raw == 2 && (platform == Platform::MacOs || platform
            == Platform::Ios)) || (raw == 11_002 && platform == Platform::Windows))),
        status_class == ErrorClass::Auth <==> status == 401 || status == 403,
        status_class == ErrorClass::Transient <==> status == 429 || status == 502 || status == 503
            || status == 504,
        status_class != ErrorClass::Auth && status_class != ErrorClass::Transient ==> status_class
            == ErrorClass::NonTransient,
{
    let names = transient_errnos();
    assert(names[0] == "ECONNREFUSED"@);
    assert(names[1] == "ECONNRESET"@);
    assert(names[2] == "ETIMEDOUT"@);
    assert(names[3] == "EPIPE"@);
    assert(names[4] == "ENETUNREACH"@);
    assert(names[5] == "EHOSTUNREACH"@);
    assert(names[6] == "EAI_AGAIN"@);
}

/// A scheduled retry is announced with its number, the category of the failure in
/// its own word, and the wait in nanoseconds.
pub proof fn retries_are_announced_in_full(
    next_attempt: u32,
    class: ErrorClass,
    delay: Duration,
    word: &'static str,
    line: String,
)
    requires
        call_ensures(diagnostic_error_class, (class,), word),
        call_ensures(retry_diagnostic, (next_attempt, class, delay), line),
    ensures
        class is Transient ==> word@ == "transient"@,
        class is NonTransient ==> word@ == "non_transient"@,
        class is Auth ==> word@ == "auth"@,
        class is Business ==> word@ == "business"@,
        class is Cancelled ==> word@ == "cancelled"@,
        line@ == "retry scheduled next_attempt="@ + text::decimal(next_attempt as nat)
            + " error_class="@ + word@ + " delay_ns="@ + text::decimal(delay@),
{
}

} // verus!
